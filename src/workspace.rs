use crate::error::SkillError;
use crate::paths::dot;
use vstd::prelude::*;

verus! {

/// Where a new project from the template goes.
#[derive(Debug, PartialEq, Eq)]
pub enum ProjectTarget {
    /// Into the current directory, merged with what is already there.
    CurrentDir,
    /// Into a new directory of this name below the current one.
    NewDir(String),
}

impl ProjectTarget {
    /// Whether the template is extracted elsewhere first and then copied on
    /// top of files that may already exist.
    pub fn merges_into_existing(&self) -> (r: bool)
        ensures
            r == (*self is CurrentDir),
    {
        match self {
            ProjectTarget::CurrentDir => true,
            ProjectTarget::NewDir(_) => false,
        }
    }
}

/// The current directory is chosen by `--here` or by the name "."; another
/// name makes a new directory; with neither, there is nothing to create.
pub fn project_target(name: Option<String>, here: bool) -> (r: Result<ProjectTarget, SkillError>)
    ensures
        (here || (name is Some && name->Some_0@ == dot())) ==> r == Ok::<_, SkillError>(
            ProjectTarget::CurrentDir,
        ),
        (!here && name is Some && name->Some_0@ != dot()) ==> r == Ok::<_, SkillError>(
            ProjectTarget::NewDir(name->Some_0),
        ),
        (!here && name is None) ==> r == Err::<ProjectTarget, _>(SkillError::MissingProjectName),
{
    if here {
        return Ok(ProjectTarget::CurrentDir);
    }
    match name {
        Some(n) => {
            if crate::paths::is_dot(n.as_str()) {
                Ok(ProjectTarget::CurrentDir)
            } else {
                Ok(ProjectTarget::NewDir(n))
            }
        },
        None => Err(SkillError::MissingProjectName),
    }
}

/// Whether to ask before writing into the current directory: only when it
/// already holds something and `--force` was not given.
pub fn needs_confirmation(target: &ProjectTarget, existing_entries: usize, force: bool) -> (r: bool)
    ensures
        r == (*target is CurrentDir && existing_entries > 0 && !force),
{
    target.merges_into_existing() && existing_entries > 0 && !force
}

/// The script types a template comes in: "sh" (POSIX shell) and "ps"
/// (PowerShell).
pub open spec fn is_script_type_name(s: Seq<char>) -> bool {
    s == seq!['s', 'h'] || s == seq!['p', 's']
}

pub fn is_script_type(s: &str) -> (r: bool)
    ensures
        r == is_script_type_name(s@),
{
    if s.unicode_len() != 2 {
        return false;
    }
    let a = s.get_char(0);
    let b = s.get_char(1);
    let r = (a == 's' && b == 'h') || (a == 'p' && b == 's');
    if r {
        assert(s@ =~= seq!['s', 'h'] || s@ =~= seq!['p', 's']);
    } else {
        assert(s@ != seq!['s', 'h'] && s@ != seq!['p', 's']) by {
            if s@ == seq!['s', 'h'] {
                assert(s@[0] == 's' && s@[1] == 'h');
            }
            if s@ == seq!['p', 's'] {
                assert(s@[0] == 'p' && s@[1] == 's');
            }
        }
    }
    r
}

} // verus!
