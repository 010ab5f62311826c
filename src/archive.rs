use crate::error::SkillError;
use crate::paths::{dot, dot_dot, is_absolute, join, split_path, split_slash, views};
use vstd::prelude::*;

verus! {

/// What the zip reader finds in `bytes`: the entry names in index order, or
/// none when the bytes are not a readable archive.
pub uninterp spec fn zip_entry_names(bytes: Seq<u8>) -> Option<Seq<Seq<char>>>;

/// What the zip reader decompresses for the entry at `index` of `bytes`, or
/// none when that entry cannot be read.
pub uninterp spec fn zip_entry_data(bytes: Seq<u8>, index: int) -> Option<Seq<u8>>;

/// Relies on zip::ZipArchive::new, which reads the central directory of the
/// archive, and ZipArchive::file_names, which lists the entry names in index order.
#[verifier::external_body]
fn read_entry_names(bytes: &Vec<u8>) -> (r: Option<Vec<String>>)
    ensures
        match r {
            Some(v) => zip_entry_names(bytes@) == Some(views(v@)),
            None => zip_entry_names(bytes@) is None,
        },
{
    let archive = zip::ZipArchive::new(std::io::Cursor::new(bytes.as_slice())).ok()?;
    Some(archive.file_names().map(|n| n.to_string()).collect())
}

/// Relies on zip::ZipArchive::by_index and its reader: the uncompressed
/// bytes of the entry at `index`.
#[verifier::external_body]
fn read_entry_data(bytes: &Vec<u8>, index: usize) -> (r: Option<Vec<u8>>)
    ensures
        match r {
            Some(d) => zip_entry_data(bytes@, index as int) == Some(d@),
            None => zip_entry_data(bytes@, index as int) is None,
        },
{
    let mut archive = zip::ZipArchive::new(std::io::Cursor::new(bytes.as_slice())).ok()?;
    let mut entry = archive.by_index(index).ok()?;
    let mut data = Vec::new();
    std::io::Read::read_to_end(&mut entry, &mut data).ok()?;
    Some(data)
}

/// The pieces `segs` resolved without consulting the file system: "." and
/// empty pieces are dropped and each ".." takes back the name before it. A
/// ".." with no name before it stays at the root of a `rooted` path and is
/// kept at the start of a relative one.
pub open spec fn resolve(segs: Seq<Seq<char>>, rooted: bool) -> Seq<Seq<char>>
    decreases segs.len(),
{
    if segs.len() == 0 {
        Seq::<Seq<char>>::empty()
    } else {
        let init = resolve(segs.drop_last(), rooted);
        let s = segs.last();
        if s == dot_dot() {
            if init.len() > 0 && init.last() != dot_dot() {
                init.drop_last()
            } else if rooted {
                init
            } else {
                init.push(s)
            }
        } else if s.len() == 0 || s == dot() {
            init
        } else {
            init.push(s)
        }
    }
}

/// The path `p` resolved, one name per level.
pub open spec fn resolved(p: Seq<char>) -> Seq<Seq<char>> {
    resolve(split_slash(p), is_absolute(p))
}

/// Joined to the destination `dest`, the entry name `name` resolves to
/// `dest` itself or to a path below it.
pub open spec fn lands_inside(dest: Seq<char>, name: Seq<char>) -> bool {
    let d = resolved(dest);
    let r = resolved(join(dest, name));
    &&& is_absolute(join(dest, name)) == is_absolute(dest)
    &&& d.len() <= r.len()
    &&& r.take(d.len() as int) == d
    &&& (r.len() > d.len() ==> r[d.len() as int] != dot_dot())
}

/// Where the entry `name` lands below `dest`, one name per directory level.
pub open spec fn entry_path(dest: Seq<char>, name: Seq<char>) -> Seq<Seq<char>> {
    resolved(join(dest, name)).skip(resolved(dest).len() as int)
}

/// An entry whose name ends in a separator is a directory.
pub open spec fn is_dir_name(name: Seq<char>) -> bool {
    name.len() > 0 && name.last() == '/'
}

/// A name that can stand as one level of a path: not empty, not "." or "..",
/// and without a separator.
pub open spec fn is_plain_segment(s: Seq<char>) -> bool {
    &&& s.len() > 0
    &&& s != dot()
    &&& s != dot_dot()
    &&& forall|i: int| 0 <= i < s.len() ==> #[trigger] s[i] != '/'
}

/// One entry to write: its path below the destination, whether it is a
/// directory, and its contents.
pub type StepModel = (Seq<Seq<char>>, bool, Seq<u8>);

/// What extracting `bytes` into `dest` comes to: an error, or the entries
/// to write in archive order.
pub open spec fn extraction_of(dest: Seq<char>, bytes: Seq<u8>) -> Result<
    Seq<StepModel>,
    SkillError,
> {
    match zip_entry_names(bytes) {
        None => Err(SkillError::MalformedArchive),
        Some(ns) => if exists|i: int| 0 <= i < ns.len() && !lands_inside(dest, #[trigger] ns[i]) {
            Err(SkillError::UnsafeArchivePath)
        } else if exists|i: int| 0 <= i < ns.len() && (#[trigger] zip_entry_data(bytes, i)) is None {
            Err(SkillError::MalformedArchive)
        } else {
            Ok(
                Seq::new(
                    ns.len(),
                    |i: int|
                        (entry_path(dest, ns[i]), is_dir_name(ns[i]), zip_entry_data(bytes, i)->Some_0),
                ),
            )
        },
    }
}

/// All entries sit below one directory `w`, which is no plain file, and at
/// least one entry lies below the destination itself.
pub open spec fn is_wrapper(es: Seq<StepModel>, w: Seq<char>) -> bool {
    &&& exists|i: int| 0 <= i < es.len() && (#[trigger] es[i]).0.len() > 0
    &&& forall|i: int|
        0 <= i < es.len() && (#[trigger] es[i]).0.len() > 0 ==> es[i].0[0] == w && (es[i].0.len()
            > 1 || es[i].1)
}

pub open spec fn strip_top(e: StepModel) -> StepModel {
    if e.0.len() > 0 {
        (e.0.drop_first(), e.1, e.2)
    } else {
        e
    }
}

/// The layout after the wrapping directory, if there is exactly one, is
/// taken away and its contents moved up one level.
pub open spec fn flattened(es: Seq<StepModel>) -> Seq<StepModel> {
    if exists|w: Seq<char>| is_wrapper(es, w) {
        es.map_values(|e: StepModel| strip_top(e))
    } else {
        es
    }
}

/// One entry of an archive, ready to be written below the destination.
pub struct ExtractStep {
    /// The names of the directory levels below the destination, the last one
    /// naming the entry itself; empty for the destination.
    pub path: Vec<String>,
    pub is_dir: bool,
    pub data: Vec<u8>,
}

impl ExtractStep {
    pub open spec fn model(&self) -> StepModel {
        (views(self.path@), self.is_dir, self.data@)
    }
}

pub open spec fn models(v: Seq<ExtractStep>) -> Seq<StepModel> {
    v.map_values(|s: ExtractStep| s.model())
}

/// The path `p` resolved, one name per level.
pub fn resolve_path(p: &str) -> (r: Vec<String>)
    ensures
        views(r@) == resolved(p@),
{
    let rooted = p.unicode_len() > 0 && p.get_char(0) == '/';
    let parts = split_path(p);
    let ghost all = split_slash(p@);
    let mut stack: Vec<String> = Vec::new();
    let mut i: usize = 0;
    assert(all.take(0) =~= Seq::<Seq<char>>::empty());
    while i < parts.len()
        invariant
            views(parts@) == all,
            all == split_slash(p@),
            rooted == is_absolute(p@),
            0 <= i <= parts@.len(),
            views(stack@) == resolve(all.take(i as int), rooted),
        decreases parts.len() - i,
    {
        let ghost prev = stack@;
        assert(all.take(i + 1).drop_last() =~= all.take(i as int));
        assert(all.take(i + 1).last() == parts@[i as int]@);
        let piece = parts[i].as_str();
        if crate::paths::is_dot_dot(piece) {
            let n = stack.len();
            if n > 0 && !crate::paths::is_dot_dot(stack[n - 1].as_str()) {
                assert(views(prev).last() == prev[n - 1]@);
                stack.pop();
                assert(views(stack@) =~= views(prev).drop_last());
            } else if rooted {
            } else {
                if n > 0 {
                    assert(views(prev).last() == prev[n - 1]@);
                }
                stack.push(String::from_str(piece));
                assert(views(stack@) =~= views(prev).push(piece@));
            }
        } else if piece.unicode_len() == 0 || crate::paths::is_dot(piece) {
        } else {
            stack.push(String::from_str(piece));
            assert(views(stack@) =~= views(prev).push(piece@));
        }
        i = i + 1;
    }
    assert(all.take(parts.len() as int) =~= all);
    stack
}

fn is_rooted(p: &str) -> (r: bool)
    ensures
        r == is_absolute(p@),
{
    p.unicode_len() > 0 && p.get_char(0) == '/'
}

fn placement(dest_pieces: &Vec<String>, dest: &str, name: &str) -> (r: Option<Vec<String>>)
    requires
        views(dest_pieces@) == resolved(dest@),
    ensures
        r matches Some(p) ==> views(p@) == entry_path(dest@, name@),
        r is Some <==> lands_inside(dest@, name@),
{
    let full = crate::paths::join_path(dest, name);
    if is_rooted(full.as_str()) != is_rooted(dest) {
        return None;
    }
    let res = resolve_path(full.as_str());
    let ghost d = resolved(dest@);
    let ghost rv = resolved(full@);
    let k = dest_pieces.len();
    if res.len() < k {
        return None;
    }
    let mut i: usize = 0;
    while i < k
        invariant
            k == dest_pieces@.len(),
            k <= res@.len(),
            views(dest_pieces@) == d,
            views(res@) == rv,
            d == resolved(dest@),
            rv == resolved(full@),
            full@ == join(dest@, name@),
            0 <= i <= k,
            forall|j: int| 0 <= j < i ==> rv[j] == d[j],
        decreases k - i,
    {
        assert(rv[i as int] == res@[i as int]@ && d[i as int] == dest_pieces@[i as int]@);
        if res[i] != dest_pieces[i] {
            assert(rv.take(k as int)[i as int] != d[i as int]);
            assert(rv.take(k as int) != d);
            return None;
        }
        i = i + 1;
    }
    assert(rv.take(k as int) =~= d);
    if res.len() > k {
        assert(rv[k as int] == res@[k as int]@);
        if crate::paths::is_dot_dot(res[k].as_str()) {
            return None;
        }
    }
    let mut tail: Vec<String> = Vec::new();
    let mut j: usize = k;
    while j < res.len()
        invariant
            k <= j <= res@.len(),
            views(res@) == rv,
            views(tail@) == rv.subrange(k as int, j as int),
        decreases res.len() - j,
    {
        let ghost prev = tail@;
        tail.push(res[j].clone());
        assert(views(tail@) =~= views(prev).push(res@[j as int]@));
        assert(rv.subrange(k as int, j + 1) =~= rv.subrange(k as int, j as int).push(rv[j as int]));
        j = j + 1;
    }
    assert(rv.subrange(k as int, res@.len() as int) =~= rv.skip(k as int));
    Some(tail)
}

/// The path below `dest` where the entry `name` lands, or none when, joined
/// to `dest` and resolved, it leaves `dest`.
pub fn entry_destination(dest: &str, name: &str) -> (r: Option<Vec<String>>)
    ensures
        r matches Some(p) ==> views(p@) == entry_path(dest@, name@),
        r is Some <==> lands_inside(dest@, name@),
{
    let d = resolve_path(dest);
    placement(&d, dest, name)
}

fn ends_with_slash(s: &str) -> (r: bool)
    ensures
        r == is_dir_name(s@),
{
    let n = s.unicode_len();
    n > 0 && s.get_char(n - 1) == '/'
}

/// Reads the archive in `bytes` and plans where each entry goes below the
/// destination `dest`. Each entry name is joined to `dest` and resolved; if
/// any one resolves outside `dest`, the whole extraction is refused before
/// any entry is read. Every entry is a plain file or directory, whatever
/// link information the archive holds.
pub fn safe_extract(dest: &str, bytes: &Vec<u8>) -> (r: Result<Vec<ExtractStep>, SkillError>)
    ensures
        match r {
            Ok(v) => extraction_of(dest@, bytes@) == Ok::<_, SkillError>(models(v@)),
            Err(e) => extraction_of(dest@, bytes@) == Err::<Seq<StepModel>, _>(e),
        },
{
    let dest_pieces = resolve_path(dest);
    let names = match read_entry_names(bytes) {
        Some(n) => n,
        None => return Err(SkillError::MalformedArchive),
    };
    let ghost ns = views(names@);
    let mut i: usize = 0;
    while i < names.len()
        invariant
            ns == views(names@),
            zip_entry_names(bytes@) == Some(ns),
            0 <= i <= names@.len(),
            views(dest_pieces@) == resolved(dest@),
            forall|k: int| 0 <= k < i ==> lands_inside(dest@, #[trigger] ns[k]),
        decreases names.len() - i,
    {
        match placement(&dest_pieces, dest, names[i].as_str()) {
            Some(_) => {},
            None => {
                assert(!lands_inside(dest@, ns[i as int]));
                return Err(SkillError::UnsafeArchivePath);
            },
        }
        i = i + 1;
    }
    let mut steps: Vec<ExtractStep> = Vec::new();
    let mut j: usize = 0;
    while j < names.len()
        invariant
            ns == views(names@),
            zip_entry_names(bytes@) == Some(ns),
            views(dest_pieces@) == resolved(dest@),
            forall|k: int| 0 <= k < ns.len() ==> lands_inside(dest@, #[trigger] ns[k]),
            0 <= j <= names@.len(),
            steps@.len() == j,
            forall|k: int| 0 <= k < j ==> (#[trigger] zip_entry_data(bytes@, k)) is Some,
            forall|k: int|
                0 <= k < j ==> (#[trigger] steps@[k]).model() == (
                    entry_path(dest@, ns[k]),
                    is_dir_name(ns[k]),
                    zip_entry_data(bytes@, k)->Some_0,
                ),
        decreases names.len() - j,
    {
        let data = match read_entry_data(bytes, j) {
            Some(d) => d,
            None => return Err(SkillError::MalformedArchive),
        };
        let is_dir = ends_with_slash(names[j].as_str());
        let path = match placement(&dest_pieces, dest, names[j].as_str()) {
            Some(p) => p,
            None => {
                assert(lands_inside(dest@, ns[j as int]));
                return Err(SkillError::UnsafeArchivePath);
            },
        };
        steps.push(ExtractStep { path, is_dir, data });
        j = j + 1;
    }
    assert(models(steps@) =~= Seq::new(
        ns.len(),
        |k: int| (entry_path(dest@, ns[k]), is_dir_name(ns[k]), zip_entry_data(bytes@, k)->Some_0),
    ));
    Ok(steps)
}

/// Moves the contents of a single wrapping directory up to the destination,
/// as archive tools that prefix every entry with `<repo>-<ref>/` require;
/// any other layout is kept as it is.
pub fn normalize_layout(steps: Vec<ExtractStep>) -> (r: Vec<ExtractStep>)
    ensures
        models(r@) == flattened(models(steps@)),
{
    let ghost es = models(steps@);
    let mut first: usize = 0;
    while first < steps.len() && steps[first].path.len() == 0
        invariant
            es == models(steps@),
            0 <= first <= steps@.len(),
            forall|k: int| 0 <= k < first ==> (#[trigger] es[k]).0.len() == 0,
        decreases steps.len() - first,
    {
        first = first + 1;
    }
    if first == steps.len() {
        assert(!exists|w: Seq<char>| is_wrapper(es, w));
        return steps;
    }
    assert(es[first as int].0.len() > 0);
    let w = steps[first].path[0].clone();
    let mut k: usize = 0;
    while k < steps.len()
        invariant
            es == models(steps@),
            0 <= first < steps@.len(),
            es[first as int].0.len() > 0,
            w@ == es[first as int].0[0],
            0 <= k <= steps@.len(),
            forall|j: int|
                0 <= j < k && (#[trigger] es[j]).0.len() > 0 ==> es[j].0[0] == w@ && (es[j].0.len()
                    > 1 || es[j].1),
        decreases steps.len() - k,
    {
        let s = &steps[k];
        if s.path.len() > 0 && (s.path[0] != w || (s.path.len() == 1 && !s.is_dir)) {
            assert(es[k as int].0[0] == s.path@[0]@);
            assert forall|v: Seq<char>| !is_wrapper(es, v) by {
                if is_wrapper(es, v) {
                    assert(es[first as int].0.len() > 0);
                    assert(es[k as int].0.len() > 0);
                }
            }
            return steps;
        }
        k = k + 1;
    }
    assert(is_wrapper(es, w@));
    let mut rest = steps;
    let mut out: Vec<ExtractStep> = Vec::new();
    let ghost n = es.len();
    while rest.len() > 0
        invariant
            out@.len() + rest@.len() == n,
            es.len() == n,
            models(rest@) == es.subrange(out@.len() as int, n as int),
            forall|j: int| 0 <= j < out@.len() ==> (#[trigger] out@[j]).model() == strip_top(es[j]),
        decreases rest.len(),
    {
        let ghost before = rest@;
        let mut s = rest.remove(0);
        assert(models(before)[0] == before[0].model());
        assert(es.subrange(out@.len() as int, n as int)[0] == es[out@.len() as int]);
        assert(s.model() == es[out@.len() as int]);
        assert(models(rest@) =~= models(before).drop_first());
        if s.path.len() > 0 {
            let ghost p = s.path@;
            s.path.remove(0);
            assert(views(s.path@) =~= views(p).drop_first());
        }
        out.push(s);
    }
    assert(models(out@) =~= es.map_values(|e: StepModel| strip_top(e)));
    out
}

/// What checking out a repository archive comes to: the extraction with its
/// wrapping directory taken away, and an error for an archive with no entry.
pub open spec fn checkout_of(dest: Seq<char>, bytes: Seq<u8>) -> Result<
    Seq<StepModel>,
    SkillError,
> {
    match extraction_of(dest, bytes) {
        Err(e) => Err(e),
        Ok(es) => if es.len() == 0 {
            Err(SkillError::EmptyArchive)
        } else {
            Ok(flattened(es))
        },
    }
}

/// Plans the checkout of a repository archive: the repository's files land
/// directly below the destination.
pub fn repo_checkout(dest: &str, bytes: &Vec<u8>) -> (r: Result<Vec<ExtractStep>, SkillError>)
    ensures
        match r {
            Ok(v) => checkout_of(dest@, bytes@) == Ok::<_, SkillError>(models(v@)),
            Err(e) => checkout_of(dest@, bytes@) == Err::<Seq<StepModel>, _>(e),
        },
{
    let steps = safe_extract(dest, bytes)?;
    if steps.len() == 0 {
        return Err(SkillError::EmptyArchive);
    }
    Ok(normalize_layout(steps))
}

proof fn lemma_split_has_no_slash(s: Seq<char>)
    ensures
        forall|j: int, c: int|
            0 <= j < split_slash(s).len() && 0 <= c < split_slash(s)[j].len() ==> #[trigger] split_slash(
                s,
            )[j][c] != '/',
    decreases s.len(),
{
    if s.len() > 0 {
        lemma_split_has_no_slash(s.drop_last());
        crate::paths::lemma_split_len(s.drop_last());
    }
}

/// Resolving pieces without separators gives names that are not empty, not
/// "." and hold no separator; any ".." stand together at the start, and a
/// rooted path has none.
proof fn lemma_resolve_shape(segs: Seq<Seq<char>>, rooted: bool)
    requires
        forall|j: int, c: int|
            0 <= j < segs.len() && 0 <= c < segs[j].len() ==> #[trigger] segs[j][c] != '/',
    ensures
        ({
            let r = resolve(segs, rooted);
            &&& forall|j: int|
                0 <= j < r.len() ==> (#[trigger] r[j]).len() > 0 && r[j] != dot() && forall|c: int|
                    0 <= c < r[j].len() ==> #[trigger] r[j][c] != '/'
            &&& forall|i: int, j: int|
                0 <= i < j < r.len() && #[trigger] r[j] == dot_dot() ==> #[trigger] r[i] == dot_dot()
            &&& rooted ==> forall|j: int| 0 <= j < r.len() ==> #[trigger] r[j] != dot_dot()
        }),
    decreases segs.len(),
{
    if segs.len() > 0 {
        let init = segs.drop_last();
        assert forall|j: int, c: int| 0 <= j < init.len() && 0 <= c < init[j].len() implies #[trigger] init[j][c] != '/' by {
            assert(init[j] == segs[j]);
        }
        lemma_resolve_shape(init, rooted);
        let last = segs.last();
        assert forall|c: int| 0 <= c < last.len() implies #[trigger] last[c] != '/' by {
            assert(segs[segs.len() - 1][c] != '/');
        }
        let pre = resolve(init, rooted);
        let res = resolve(segs, rooted);
        if last == dot_dot() {
            if pre.len() > 0 && pre.last() != dot_dot() {
                assert forall|j: int| 0 <= j < res.len() implies res[j] == pre[j] by {}
            } else if rooted {
            } else {
                assert forall|j: int| 0 <= j < pre.len() implies pre[j] == dot_dot() by {
                    if j < pre.len() - 1 {
                        assert(pre[pre.len() - 1] == dot_dot());
                    }
                }
                assert(res == pre.push(last));
                assert forall|j: int| 0 <= j < res.len() implies res[j] == dot_dot() by {
                    if j < pre.len() {
                        assert(res[j] == pre[j]);
                    }
                }
                assert(dot_dot().len() == 2);
                assert forall|j: int| 0 <= j < res.len() implies (#[trigger] res[j]).len() > 0 && res[j] != dot() && forall|c: int| 0 <= c < res[j].len() ==> #[trigger] res[j][c] != '/' by {
                    assert(res[j] == dot_dot());
                    assert(dot_dot()[0] == '.' && dot_dot()[1] == '.');
                    assert(dot_dot() != dot()) by {
                        assert(dot().len() == 1);
                    }
                }
            }
        } else if last.len() == 0 || last == dot() {
        } else {
            assert(res == pre.push(last));
            assert forall|j: int| 0 <= j < res.len() implies res[j] == (if j < pre.len() { pre[j] } else { last }) by {}
        }
    }
}

/// An archive with an entry that, joined to the destination and resolved,
/// leaves it is refused as a whole; and every path that an accepted archive
/// produces is a row of plain names below the destination, none of them "..",
/// "." or holding a separator, which joined to the resolved destination is
/// where its entry resolves to. So nothing is written outside it.
pub proof fn lemma_extraction_confined(dest: Seq<char>, bytes: Seq<u8>)
    ensures
        (zip_entry_names(bytes) matches Some(ns) && exists|i: int|
            0 <= i < ns.len() && !lands_inside(dest, #[trigger] ns[i])) ==> extraction_of(
            dest,
            bytes,
        ) == Err::<Seq<StepModel>, _>(SkillError::UnsafeArchivePath),
        extraction_of(dest, bytes) matches Ok(es) ==> forall|i: int, j: int|
            0 <= i < es.len() && 0 <= j < es[i].0.len() ==> is_plain_segment(#[trigger] es[i].0[j]),
        extraction_of(dest, bytes) matches Ok(es) ==> forall|i: int|
            0 <= i < es.len() ==> resolved(dest) + (#[trigger] es[i]).0 == resolved(
                join(dest, zip_entry_names(bytes)->Some_0[i]),
            ),
{
    if let Ok(es) = extraction_of(dest, bytes) {
        let ns = zip_entry_names(bytes)->Some_0;
        assert forall|i: int, j: int| 0 <= i < es.len() && 0 <= j < es[i].0.len() implies is_plain_segment(#[trigger] es[i].0[j]) by {
            let full = join(dest, ns[i]);
            let d = resolved(dest);
            let r = resolved(full);
            assert(lands_inside(dest, ns[i]));
            assert(es[i].0 == r.skip(d.len() as int));
            lemma_split_has_no_slash(full);
            lemma_resolve_shape(split_slash(full), is_absolute(full));
            let k = d.len() + j;
            assert(es[i].0[j] == r[k]);
            if r[k] == dot_dot() {
                assert(r[d.len() as int] == dot_dot());
            }
        }
        assert forall|i: int| 0 <= i < es.len() implies resolved(dest) + (#[trigger] es[i]).0 == resolved(
            join(dest, ns[i]),
        ) by {
            let d = resolved(dest);
            let r = resolved(join(dest, ns[i]));
            assert(lands_inside(dest, ns[i]));
            assert(d + r.skip(d.len() as int) =~= r) by {
                assert(r.take(d.len() as int) == d);
                assert forall|j: int| 0 <= j < d.len() implies r[j] == d[j] by {
                    assert(r.take(d.len() as int)[j] == r[j]);
                }
            }
        }
    }
}

/// Flattening a tree wrapped in the single directory `w` puts the contents
/// of `w` at the top: each entry loses its first level, the entry for `w`
/// itself becomes the destination, and unless `w` held an entry named `w`,
/// nothing at the top is named `w` any more.
pub proof fn lemma_flatten_promotes_contents(es: Seq<StepModel>, w: Seq<char>)
    requires
        is_wrapper(es, w),
    ensures
        flattened(es).len() == es.len(),
        forall|i: int|
            0 <= i < es.len() && es[i].0.len() > 0 ==> (#[trigger] flattened(es)[i]).0 == es[i].0.drop_first(),
        forall|i: int| 0 <= i < es.len() ==> (#[trigger] flattened(es)[i]).2 == es[i].2,
        (forall|i: int| 0 <= i < es.len() && es[i].0.len() > 1 ==> (#[trigger] es[i]).0[1] != w)
            ==> forall|i: int|
            0 <= i < es.len() && (#[trigger] flattened(es)[i]).0.len() > 0 ==> flattened(es)[i].0[0] != w,
{
    assert(exists|v: Seq<char>| is_wrapper(es, v));
    if forall|i: int| 0 <= i < es.len() && es[i].0.len() > 1 ==> (#[trigger] es[i]).0[1] != w {
        assert forall|i: int| 0 <= i < es.len() && (#[trigger] flattened(es)[i]).0.len() > 0 implies flattened(es)[i].0[0] != w by {
            assert(flattened(es)[i] == strip_top(es[i]));
            assert(es[i].0.len() > 0);
            assert(flattened(es)[i].0[0] == es[i].0[1]);
        }
    }
}

} // verus!
