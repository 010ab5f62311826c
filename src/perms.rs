use vstd::prelude::*;

verus! {

/// Every read bit of owner, group and others also grants execute (the
/// read bits shifted down by two); when that adds anything, the owner's
/// execute bit is set too.
pub open spec fn executable_mode_of(mode: u32) -> u32 {
    let widened = mode | ((mode & 0o444) >> 2u32);
    if widened != mode {
        widened | 0o100
    } else {
        mode
    }
}

/// The permission bits that a shell script with permission bits `mode`
/// is given.
pub fn executable_mode(mode: u32) -> (r: u32)
    ensures
        r == executable_mode_of(mode),
{
    let widened = mode | (if mode & 0o400 != 0 {
        0o100u32
    } else {
        0u32
    }) | (if mode & 0o040 != 0 {
        0o010u32
    } else {
        0u32
    }) | (if mode & 0o004 != 0 {
        0o001u32
    } else {
        0u32
    });
    assert(widened == mode | ((mode & 0o444) >> 2u32)) by (bit_vector)
        requires
            widened == mode | (if mode & 0o400 != 0 {
                0o100u32
            } else {
                0u32
            }) | (if mode & 0o040 != 0 {
                0o010u32
            } else {
                0u32
            }) | (if mode & 0o004 != 0 {
                0o001u32
            } else {
                0u32
            }),
    ;
    if widened != mode {
        widened | 0o100
    } else {
        mode
    }
}

pub open spec fn sh_suffix() -> Seq<char> {
    seq!['.', 's', 'h']
}

/// A file name whose extension is "sh": it ends in ".sh" with something
/// before the dot.
pub open spec fn is_shell_script_name(name: Seq<char>) -> bool {
    name.len() > 3 && name.subrange(name.len() - 3, name.len() as int) == sh_suffix()
}

pub fn is_shell_script(name: &str) -> (r: bool)
    ensures
        r == is_shell_script_name(name@),
{
    let n = name.unicode_len();
    if n <= 3 {
        return false;
    }
    let r = name.get_char(n - 3) == '.' && name.get_char(n - 2) == 's' && name.get_char(n - 1)
        == 'h';
    if r {
        assert(name@.subrange(n - 3, n as int) =~= sh_suffix());
    } else {
        assert(name@.subrange(n - 3, n as int) != sh_suffix()) by {
            if name@.subrange(n - 3, n as int) == sh_suffix() {
                assert(name@.subrange(n - 3, n as int)[0] == '.');
            }
        }
    }
    r
}

/// A permission change to make: the file at `index` of the listing gets
/// the permission bits `mode`.
#[derive(Debug, Clone, Copy, PartialEq, Eq, Structural)]
pub struct ModeChange {
    pub index: usize,
    pub mode: u32,
}

/// Given the files found below the scripts directory, as (file name,
/// permission bits), the changes that make every shell script executable
/// by whoever may read it, in listing order; files whose bits would not
/// change are left out.
pub fn set_executable_permissions(files: &Vec<(String, u32)>) -> (r: Vec<ModeChange>)
    ensures
        forall|k: int|
            0 <= k < r@.len() ==> {
                let c = #[trigger] r@[k];
                &&& c.index < files@.len()
                &&& is_shell_script_name(files@[c.index as int].0@)
                &&& c.mode == executable_mode_of(files@[c.index as int].1)
                &&& c.mode != files@[c.index as int].1
            },
        forall|k: int, l: int| 0 <= k < l < r@.len() ==> r@[k].index < r@[l].index,
        forall|i: int|
            0 <= i < files@.len() && is_shell_script_name(files@[i].0@) && executable_mode_of(
                #[trigger] files@[i].1,
            ) != files@[i].1 ==> exists|k: int| 0 <= k < r@.len() && r@[k].index == i,
{
    let mut out: Vec<ModeChange> = Vec::new();
    let mut i: usize = 0;
    while i < files.len()
        invariant
            0 <= i <= files@.len(),
            forall|k: int|
                0 <= k < out@.len() ==> {
                    let c = #[trigger] out@[k];
                    &&& c.index < i
                    &&& is_shell_script_name(files@[c.index as int].0@)
                    &&& c.mode == executable_mode_of(files@[c.index as int].1)
                    &&& c.mode != files@[c.index as int].1
                },
            forall|k: int, l: int| 0 <= k < l < out@.len() ==> out@[k].index < out@[l].index,
            forall|j: int|
                0 <= j < i && is_shell_script_name(files@[j].0@) && executable_mode_of(
                    #[trigger] files@[j].1,
                ) != files@[j].1 ==> exists|k: int| 0 <= k < out@.len() && out@[k].index == j,
        decreases files.len() - i,
    {
        let ghost before = out@;
        if is_shell_script(files[i].0.as_str()) {
            let mode = executable_mode(files[i].1);
            if mode != files[i].1 {
                out.push(ModeChange { index: i, mode });
                assert forall|j: int|
                    0 <= j < i + 1 && is_shell_script_name(files@[j].0@) && executable_mode_of(
                        #[trigger] files@[j].1,
                    ) != files@[j].1 implies exists|k: int|
                    0 <= k < out@.len() && out@[k].index == j by {
                    if j < i {
                        let k = choose|k: int| 0 <= k < before.len() && before[k].index == j;
                        assert(out@[k] == before[k]);
                    } else {
                        assert(out@[before.len() as int].index == j);
                    }
                }
            }
        }
        assert forall|j: int|
            0 <= j < i + 1 && is_shell_script_name(files@[j].0@) && executable_mode_of(
                #[trigger] files@[j].1,
            ) != files@[j].1 implies exists|k: int| 0 <= k < out@.len() && out@[k].index == j by {
            if j < i {
                let k = choose|k: int| 0 <= k < before.len() && before[k].index == j;
                assert(out@[k] == before[k]);
            } else if out@.len() > before.len() {
                assert(out@[before.len() as int].index == j);
            }
        }
        i = i + 1;
    }
    out
}

} // verus!
