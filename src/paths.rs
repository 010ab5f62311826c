use vstd::prelude::*;

verus! {

/// The pieces of `s` between '/' characters, empty pieces included:
/// "a//b/" has the pieces "a", "", "b" and "".
pub open spec fn split_slash(s: Seq<char>) -> Seq<Seq<char>>
    decreases s.len(),
{
    if s.len() == 0 {
        seq![Seq::<char>::empty()]
    } else {
        let init = split_slash(s.drop_last());
        if s.last() == '/' {
            init.push(Seq::<char>::empty())
        } else {
            init.update(init.len() - 1, init.last().push(s.last()))
        }
    }
}

pub open spec fn dot() -> Seq<char> {
    seq!['.']
}

pub open spec fn dot_dot() -> Seq<char> {
    seq!['.', '.']
}

/// A path is absolute when it starts at the root.
pub open spec fn is_absolute(p: Seq<char>) -> bool {
    p.len() > 0 && p[0] == '/'
}

/// Some piece of the path is exactly "..".
pub open spec fn has_parent_segment(p: Seq<char>) -> bool {
    exists|i: int| 0 <= i < split_slash(p).len() && #[trigger] split_slash(p)[i] == dot_dot()
}

/// A relative path that cannot climb out of the directory it is joined to.
pub open spec fn is_safe_relative(p: Seq<char>) -> bool {
    !is_absolute(p) && !has_parent_segment(p)
}

/// The last piece that names something: empty pieces and "." pieces are passed over.
pub open spec fn last_named(segs: Seq<Seq<char>>) -> Option<Seq<char>>
    decreases segs.len(),
{
    if segs.len() == 0 {
        None
    } else if segs.last().len() == 0 || segs.last() == dot() {
        last_named(segs.drop_last())
    } else {
        Some(segs.last())
    }
}

/// The final component of a path, as a file name; none for a path that ends in ".."
/// or names nothing.
pub open spec fn file_name_of(p: Seq<char>) -> Option<Seq<char>> {
    match last_named(split_slash(p)) {
        Some(n) => if n == dot_dot() {
            None
        } else {
            Some(n)
        },
        None => None,
    }
}

/// A skill name holds no separator and is neither "." nor "..".
pub open spec fn is_valid_skill_name(n: Seq<char>) -> bool {
    &&& forall|i: int| 0 <= i < n.len() ==> #[trigger] n[i] != '/' && n[i] != '\\'
    &&& n != dot()
    &&& n != dot_dot()
}

/// `rest` put below `base` as a path join does: an absolute `rest` stands
/// alone, an empty `base` adds nothing, and one '/' separates the two.
pub open spec fn join(base: Seq<char>, rest: Seq<char>) -> Seq<char> {
    if is_absolute(rest) || base.len() == 0 {
        rest
    } else if base.last() == '/' {
        base + rest
    } else {
        base + seq!['/'] + rest
    }
}

pub open spec fn views(v: Seq<String>) -> Seq<Seq<char>> {
    v.map_values(|x: String| x@)
}

pub(crate) proof fn lemma_split_len(s: Seq<char>)
    ensures
        split_slash(s).len() >= 1,
    decreases s.len(),
{
    if s.len() > 0 {
        lemma_split_len(s.drop_last());
    }
}

/// Splits `s` at every '/'.
pub fn split_path(s: &str) -> (r: Vec<String>)
    ensures
        views(r@) == split_slash(s@),
{
    let n = s.unicode_len();
    let mut parts: Vec<String> = Vec::new();
    let mut start: usize = 0;
    let mut i: usize = 0;
    assert(s@.subrange(0, 0) =~= Seq::<char>::empty());
    assert(views(parts@).push(s@.subrange(0, 0)) =~= seq![Seq::<char>::empty()]);
    while i < n
        invariant
            n == s@.len(),
            start <= i <= n,
            split_slash(s@.subrange(0, i as int)) == views(parts@).push(
                s@.subrange(start as int, i as int),
            ),
        decreases n - i,
    {
        let ghost prev = parts@;
        assert(s@.subrange(0, i + 1).drop_last() =~= s@.subrange(0, i as int));
        let c = s.get_char(i);
        if c == '/' {
            let piece = String::from_str(s.substring_char(start, i));
            parts.push(piece);
            assert(views(parts@) =~= views(prev).push(piece@));
            assert(s@.subrange(i + 1, i + 1) =~= Seq::<char>::empty());
            start = i + 1;
        } else {
            assert(s@.subrange(start as int, i as int).push(c) =~= s@.subrange(
                start as int,
                i + 1,
            ));
            assert(views(parts@).push(s@.subrange(start as int, i + 1)) =~= views(prev).push(
                s@.subrange(start as int, i as int),
            ).update(views(prev).len() as int, s@.subrange(start as int, i + 1)));
        }
        i = i + 1;
    }
    let ghost prev = parts@;
    let last = String::from_str(s.substring_char(start, n));
    parts.push(last);
    assert(s@.subrange(0, n as int) =~= s@);
    assert(views(parts@) =~= views(prev).push(last@));
    parts
}

pub(crate) fn is_dot_dot(s: &str) -> (r: bool)
    ensures
        r == (s@ == dot_dot()),
{
    if s.unicode_len() != 2 {
        return false;
    }
    let a = s.get_char(0);
    let b = s.get_char(1);
    if a == '.' && b == '.' {
        assert(s@ =~= dot_dot());
        true
    } else {
        false
    }
}

pub(crate) fn is_dot(s: &str) -> (r: bool)
    ensures
        r == (s@ == dot()),
{
    if s.unicode_len() != 1 {
        return false;
    }
    if s.get_char(0) == '.' {
        assert(s@ =~= dot());
        true
    } else {
        false
    }
}

/// Accepts a path that is relative and has no ".." piece; otherwise the
/// error is `InvalidSkillPath`.
pub fn validate_relative_path(path: &str) -> (r: Result<(), crate::error::SkillError>)
    ensures
        r is Ok <==> is_safe_relative(path@),
        r is Err ==> r == Err::<(), _>(crate::error::SkillError::InvalidSkillPath),
{
    let n = path.unicode_len();
    if n > 0 && path.get_char(0) == '/' {
        return Err(crate::error::SkillError::InvalidSkillPath);
    }
    let parts = split_path(path);
    let mut i: usize = 0;
    while i < parts.len()
        invariant
            views(parts@) == split_slash(path@),
            0 <= i <= parts@.len(),
            forall|k: int| 0 <= k < i ==> split_slash(path@)[k] != dot_dot(),
        decreases parts.len() - i,
    {
        assert(split_slash(path@)[i as int] == parts@[i as int]@);
        if is_dot_dot(parts[i].as_str()) {
            return Err(crate::error::SkillError::InvalidSkillPath);
        }
        i = i + 1;
    }
    Ok(())
}

/// Accepts a name with no separator that is neither "." nor "..";
/// otherwise the error is `InvalidSkillName`.
pub fn validate_skill_name(name: &str) -> (r: Result<(), crate::error::SkillError>)
    ensures
        r is Ok <==> is_valid_skill_name(name@),
        r is Err ==> r == Err::<(), _>(crate::error::SkillError::InvalidSkillName),
{
    let n = name.unicode_len();
    let mut i: usize = 0;
    while i < n
        invariant
            n == name@.len(),
            0 <= i <= n,
            forall|k: int| 0 <= k < i ==> #[trigger] name@[k] != '/' && name@[k] != '\\',
        decreases n - i,
    {
        let c = name.get_char(i);
        if c == '/' || c == '\\' {
            return Err(crate::error::SkillError::InvalidSkillName);
        }
        i = i + 1;
    }
    if is_dot(name) || is_dot_dot(name) {
        return Err(crate::error::SkillError::InvalidSkillName);
    }
    Ok(())
}

/// The final component of `path`, the name under which a skill is installed.
pub fn file_name(path: &str) -> (r: Option<String>)
    ensures
        r matches Some(n) ==> file_name_of(path@) == Some(n@),
        r is None ==> file_name_of(path@) is None,
{
    let parts = split_path(path);
    proof {
        lemma_split_len(path@);
    }
    let mut i: usize = parts.len();
    assert(split_slash(path@).subrange(0, i as int) =~= split_slash(path@));
    while i > 0
        invariant
            views(parts@) == split_slash(path@),
            0 <= i <= parts@.len(),
            last_named(split_slash(path@)) == last_named(split_slash(path@).subrange(0, i as int)),
        decreases i,
    {
        let ghost segs = split_slash(path@).subrange(0, i as int);
        assert(segs.drop_last() =~= split_slash(path@).subrange(0, i - 1));
        assert(segs.last() == parts@[i - 1]@);
        let p = parts[i - 1].as_str();
        if p.unicode_len() != 0 && !is_dot(p) {
            if is_dot_dot(p) {
                return None;
            }
            return Some(String::from_str(p));
        }
        i = i - 1;
    }
    None
}

/// `rest` put below `base`, as a path join does.
pub fn join_path(base: &str, rest: &str) -> (r: String)
    ensures
        r@ == join(base@, rest@),
{
    let nb = base.unicode_len();
    let nr = rest.unicode_len();
    if (nr > 0 && rest.get_char(0) == '/') || nb == 0 {
        return String::from_str(rest);
    }
    let mut s = String::from_str(base);
    if base.get_char(nb - 1) != '/' {
        s.append("/");
        proof {
            reveal_strlit("/");
        }
    }
    s.append(rest);
    assert(s@ =~= join(base@, rest@));
    s
}

} // verus!
