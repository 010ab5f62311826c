use vstd::prelude::*;

verus! {

/// Why a command of the skill installer or the template workspace failed.
#[derive(Debug, Clone, Copy, PartialEq, Eq, Structural)]
pub enum SkillError {
    /// `--repo` is not of the form owner/repo.
    RepoFormat,
    /// `--url` has too few pieces to name an owner and a repository.
    InvalidUrl,
    /// Neither `--repo` nor `--url` was given.
    MissingSource,
    /// The relative skill path is absolute, climbs out with "..", or names nothing.
    InvalidSkillPath,
    /// The skill path does not lead to a directory of the downloaded tree.
    SkillDirNotFound,
    /// The skill directory has no manifest file.
    ManifestMissing,
    /// The derived skill name holds a separator or is "." or "..".
    InvalidSkillName,
    /// The global store already holds a skill of that name.
    AlreadyInstalled,
    /// An archive entry would land outside the destination.
    UnsafeArchivePath,
    /// The bytes are not a readable zip archive, or an entry cannot be read.
    MalformedArchive,
    /// The archive holds no entry.
    EmptyArchive,
    /// No release asset matches the requested template.
    NoMatchingAsset,
    /// A new project was asked for without a name and outside the current directory.
    MissingProjectName,
}

/// The message shown to the user for `e`.
pub open spec fn message_of(e: SkillError) -> Seq<char> {
    match e {
        SkillError::RepoFormat => "Repo must be owner/repo"@,
        SkillError::InvalidUrl => "Invalid GitHub URL"@,
        SkillError::MissingSource => "Provide --repo or --url"@,
        SkillError::InvalidSkillPath => "Invalid skill path"@,
        SkillError::SkillDirNotFound => "Skill directory not found"@,
        SkillError::ManifestMissing => "SKILL.md not found in skill directory"@,
        SkillError::InvalidSkillName => "Invalid skill name"@,
        SkillError::AlreadyInstalled => "Skill already exists in global store"@,
        SkillError::UnsafeArchivePath => "Archive contains invalid path"@,
        SkillError::MalformedArchive => "Archive could not be read"@,
        SkillError::EmptyArchive => "Empty archive"@,
        SkillError::NoMatchingAsset => "No matching asset found"@,
        SkillError::MissingProjectName =>
            "Must specify either a project name, use '.' for current directory, or use --here flag"@,
    }
}

impl SkillError {
    /// The message shown to the user.
    pub fn message(&self) -> (r: &'static str)
        ensures
            r@ == message_of(*self),
    {
        match self {
            SkillError::RepoFormat => "Repo must be owner/repo",
            SkillError::InvalidUrl => "Invalid GitHub URL",
            SkillError::MissingSource => "Provide --repo or --url",
            SkillError::InvalidSkillPath => "Invalid skill path",
            SkillError::SkillDirNotFound => "Skill directory not found",
            SkillError::ManifestMissing => "SKILL.md not found in skill directory",
            SkillError::InvalidSkillName => "Invalid skill name",
            SkillError::AlreadyInstalled => "Skill already exists in global store",
            SkillError::UnsafeArchivePath => "Archive contains invalid path",
            SkillError::MalformedArchive => "Archive could not be read",
            SkillError::EmptyArchive => "Empty archive",
            SkillError::NoMatchingAsset => "No matching asset found",
            SkillError::MissingProjectName =>
                "Must specify either a project name, use '.' for current directory, or use --here flag",
        }
    }
}

} // verus!
