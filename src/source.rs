use crate::error::SkillError;
use crate::paths::{split_path, split_slash, views};
use vstd::prelude::*;

verus! {

/// The owner and repository named by `--repo owner/repo` or by a GitHub URL
/// `https://github.com/owner/repo...`; both must be non-empty.
pub open spec fn source_of(repo: Option<Seq<char>>, url: Option<Seq<char>>) -> Result<
    (Seq<char>, Seq<char>),
    SkillError,
> {
    match repo {
        Some(r) => {
            let parts = split_slash(r);
            if parts.len() != 2 || parts[0].len() == 0 || parts[1].len() == 0 {
                Err(SkillError::RepoFormat)
            } else {
                Ok((parts[0], parts[1]))
            }
        },
        None => match url {
            Some(u) => {
                let parts = split_slash(u);
                if parts.len() < 5 || parts[3].len() == 0 || parts[4].len() == 0 {
                    Err(SkillError::InvalidUrl)
                } else {
                    Ok((parts[3], parts[4]))
                }
            },
            None => Err(SkillError::MissingSource),
        },
    }
}

pub open spec fn opt_view(o: Option<String>) -> Option<Seq<char>> {
    match o {
        Some(s) => Some(s@),
        None => None,
    }
}

/// Finds the owner and the repository to fetch from: `repo`, when given,
/// must be exactly "owner/repo"; otherwise `url` must have the owner and the
/// repository as its fourth and fifth '/'-separated pieces.
pub fn resolve_source(repo: Option<String>, url: Option<String>) -> (r: Result<
    (String, String),
    SkillError,
>)
    ensures
        match r {
            Ok((o, n)) => source_of(opt_view(repo), opt_view(url)) == Ok::<
                _,
                SkillError,
            >((o@, n@)),
            Err(e) => source_of(opt_view(repo), opt_view(url)) == Err::<
                (Seq<char>, Seq<char>),
                _,
            >(e),
        },
{
    match repo {
        Some(r) => {
            let parts = split_path(r.as_str());
            assert(views(parts@).len() == parts@.len());
            if parts.len() != 2 || parts[0].unicode_len() == 0 || parts[1].unicode_len() == 0 {
                return Err(SkillError::RepoFormat);
            }
            assert(views(parts@)[0] == parts@[0]@ && views(parts@)[1] == parts@[1]@);
            Ok((parts[0].clone(), parts[1].clone()))
        },
        None => match url {
            Some(u) => {
                let parts = split_path(u.as_str());
                assert(views(parts@).len() == parts@.len());
                if parts.len() < 5 || parts[3].unicode_len() == 0 || parts[4].unicode_len() == 0 {
                    return Err(SkillError::InvalidUrl);
                }
                assert(views(parts@)[3] == parts@[3]@ && views(parts@)[4] == parts@[4]@);
                Ok((parts[3].clone(), parts[4].clone()))
            },
            None => Err(SkillError::MissingSource),
        },
    }
}

/// A repository tree at a given ref.
pub struct SourceReference {
    pub owner: String,
    pub repo: String,
    pub reference: String,
}

impl SourceReference {
    /// The zip of the tree: `https://codeload.github.com/<owner>/<repo>/zip/<ref>`.
    pub fn archive_url(&self) -> (r: String)
        ensures
            r@ == "https://codeload.github.com/"@ + self.owner@ + "/"@ + self.repo@ + "/zip/"@
                + self.reference@,
    {
        let mut u = String::from_str("https://codeload.github.com/");
        u.append(self.owner.as_str());
        u.append("/");
        u.append(self.repo.as_str());
        u.append("/zip/");
        u.append(self.reference.as_str());
        u
    }
}

/// The API address of the latest release of `owner/repo`.
pub fn latest_release_url(owner: &str, repo: &str) -> (r: String)
    ensures
        r@ == "https://api.github.com/repos/"@ + owner@ + "/"@ + repo@ + "/releases/latest"@,
{
    let mut u = String::from_str("https://api.github.com/repos/");
    u.append(owner);
    u.append("/");
    u.append(repo);
    u.append("/releases/latest");
    u
}

/// One downloadable file of a release.
pub struct ReleaseAsset {
    pub name: String,
    pub size: u64,
    pub download_url: String,
}

/// `p` occurs in `s` at position `i`.
pub open spec fn occurs_at(s: Seq<char>, p: Seq<char>, i: int) -> bool {
    0 <= i && i + p.len() <= s.len() && s.subrange(i, i + p.len()) == p
}

pub open spec fn contains_seq(s: Seq<char>, p: Seq<char>) -> bool {
    exists|i: int| occurs_at(s, p, i)
}

pub open spec fn zip_suffix() -> Seq<char> {
    seq!['.', 'z', 'i', 'p']
}

/// An asset name that holds the pattern and ends in ".zip".
pub open spec fn asset_matches(name: Seq<char>, pattern: Seq<char>) -> bool {
    contains_seq(name, pattern) && name.len() >= 4 && name.subrange(
        name.len() - 4,
        name.len() as int,
    ) == zip_suffix()
}

fn occurs_at_exec(s: &str, p: &str, i: usize) -> (r: bool)
    requires
        i + p@.len() <= s@.len(),
    ensures
        r == occurs_at(s@, p@, i as int),
{
    let n = p.unicode_len();
    let total = s.unicode_len();
    let mut k: usize = 0;
    while k < n
        invariant
            n == p@.len(),
            total == s@.len(),
            i + n <= s@.len(),
            0 <= k <= n,
            forall|j: int| 0 <= j < k ==> s@[i + j] == p@[j],
        decreases n - k,
    {
        if s.get_char(i + k) != p.get_char(k) {
            assert(s@.subrange(i as int, i + n)[k as int] != p@[k as int]);
            return false;
        }
        k = k + 1;
    }
    assert(s@.subrange(i as int, i + n) =~= p@);
    true
}

fn contains_exec(s: &str, p: &str) -> (r: bool)
    ensures
        r == contains_seq(s@, p@),
{
    let n = s.unicode_len();
    let m = p.unicode_len();
    if m > n {
        return false;
    }
    let mut i: usize = 0;
    while i < n - m
        invariant
            n == s@.len(),
            m == p@.len(),
            m <= n,
            0 <= i <= n - m,
            forall|j: int| 0 <= j < i ==> !occurs_at(s@, p@, j),
        decreases n - m - i,
    {
        if occurs_at_exec(s, p, i) {
            return true;
        }
        i = i + 1;
    }
    occurs_at_exec(s, p, i)
}

fn is_zip_name(s: &str) -> (r: bool)
    ensures
        r == (s@.len() >= 4 && s@.subrange(s@.len() - 4, s@.len() as int) == zip_suffix()),
{
    let n = s.unicode_len();
    if n < 4 {
        return false;
    }
    let r = s.get_char(n - 4) == '.' && s.get_char(n - 3) == 'z' && s.get_char(n - 2) == 'i'
        && s.get_char(n - 1) == 'p';
    if r {
        assert(s@.subrange(n - 4, n as int) =~= zip_suffix());
    } else {
        assert(s@.subrange(n - 4, n as int) != zip_suffix()) by {
            if s@.subrange(n - 4, n as int) == zip_suffix() {
                assert(s@.subrange(n - 4, n as int)[0] == '.');
            }
        }
    }
    r
}

/// The asset that a template of `agent` and `script_type` is published as:
/// `bl1nk-template-<agent>-<script_type>`.
pub fn asset_pattern(agent: &str, script_type: &str) -> (r: String)
    ensures
        r@ == "bl1nk-template-"@ + agent@ + "-"@ + script_type@,
{
    let mut p = String::from_str("bl1nk-template-");
    p.append(agent);
    p.append("-");
    p.append(script_type);
    p
}

/// The position of the first asset, in the order the release lists them,
/// whose name holds `pattern` and ends in ".zip"; `NoMatchingAsset` when
/// there is none. The match is a plain substring test.
pub fn select_asset(assets: &Vec<ReleaseAsset>, pattern: &str) -> (r: Result<usize, SkillError>)
    ensures
        match r {
            Ok(i) => {
                &&& i < assets@.len()
                &&& asset_matches(assets@[i as int].name@, pattern@)
                &&& forall|j: int| 0 <= j < i ==> !asset_matches(#[trigger] assets@[j].name@, pattern@)
            },
            Err(e) => {
                &&& e == SkillError::NoMatchingAsset
                &&& forall|j: int|
                    0 <= j < assets@.len() ==> !asset_matches(#[trigger] assets@[j].name@, pattern@)
            },
        },
{
    let mut i: usize = 0;
    while i < assets.len()
        invariant
            0 <= i <= assets@.len(),
            forall|j: int| 0 <= j < i ==> !asset_matches(#[trigger] assets@[j].name@, pattern@),
        decreases assets.len() - i,
    {
        let name = assets[i].name.as_str();
        if contains_exec(name, pattern) && is_zip_name(name) {
            return Ok(i);
        }
        i = i + 1;
    }
    Err(SkillError::NoMatchingAsset)
}

/// The token sent with API requests: the one given on the command line,
/// else the first of the two environment variables that is set.
pub fn choose_token(flag: Option<String>, gh_token: Option<String>, github_token: Option<String>) -> (r:
    Option<String>)
    ensures
        r == (if flag is Some {
            flag
        } else if gh_token is Some {
            gh_token
        } else {
            github_token
        }),
{
    match flag {
        Some(t) => Some(t),
        None => match gh_token {
            Some(t) => Some(t),
            None => github_token,
        },
    }
}

/// The value of the `Authorization` header for `token`.
pub fn bearer_value(token: &str) -> (r: String)
    ensures
        r@ == "Bearer "@ + token@,
{
    let mut v = String::from_str("Bearer ");
    v.append(token);
    v
}

/// The number of 'v' characters that `s` starts with.
pub open spec fn leading_vs(s: Seq<char>) -> nat
    decreases s.len(),
{
    if s.len() > 0 && s[0] == 'v' {
        1 + leading_vs(s.drop_first())
    } else {
        0
    }
}

/// A release tag shown as a version: every leading 'v' is dropped.
pub fn release_version(tag: &str) -> (r: String)
    ensures
        r@ == tag@.subrange(leading_vs(tag@) as int, tag@.len() as int),
{
    let n = tag.unicode_len();
    let mut i: usize = 0;
    while i < n && tag.get_char(i) == 'v'
        invariant
            n == tag@.len(),
            0 <= i <= n,
            forall|j: int| 0 <= j < i ==> tag@[j] == 'v',
        decreases n - i,
    {
        i = i + 1;
    }
    proof {
        lemma_leading_vs(tag@, i as int);
    }
    String::from_str(tag.substring_char(i, n))
}

proof fn lemma_leading_vs(s: Seq<char>, i: int)
    requires
        0 <= i <= s.len(),
        forall|j: int| 0 <= j < i ==> s[j] == 'v',
        i == s.len() || s[i] != 'v',
    ensures
        leading_vs(s) == i,
    decreases i,
{
    if i > 0 {
        let t = s.drop_first();
        assert forall|j: int| 0 <= j < i - 1 implies t[j] == 'v' by {
            assert(t[j] == s[j + 1]);
        }
        if i - 1 < t.len() {
            assert(t[i - 1] == s[i]);
        }
        lemma_leading_vs(t, i - 1);
    }
}

/// The calendar day, written YYYY-MM-DD, of an RFC 3339 timestamp in its
/// own offset; none when the text is no RFC 3339 timestamp. The parser reads
/// that day from the first ten characters, which it requires to be
/// `YYYY-MM-DD`, and keeps the offset written in the text.
pub uninterp spec fn rfc3339_day(s: Seq<char>) -> Option<Seq<char>>;

/// Relies on chrono::DateTime::parse_from_rfc3339, which keeps the offset
/// written in the text, and on formatting the result with "%Y-%m-%d".
#[verifier::external_body]
fn parse_rfc3339_day(s: &str) -> (r: Option<String>)
    ensures
        match r {
            Some(d) => rfc3339_day(s@) == Some(d@) && s@.len() >= 10 && d@ == s@.subrange(0, 10),
            None => rfc3339_day(s@) is None,
        },
{
    chrono::DateTime::parse_from_rfc3339(s).ok().map(|dt| dt.format("%Y-%m-%d").to_string())
}

/// The date shown for a release: the parsed day when there is one, else
/// the publication time as it was given.
pub fn day_or_raw(parsed: Option<String>, raw: &str) -> (r: String)
    ensures
        r@ == match parsed {
            Some(d) => d@,
            None => raw@,
        },
{
    match parsed {
        Some(d) => d,
        None => String::from_str(raw),
    }
}

/// The date shown for a release published at `published_at`: its first
/// ten characters, the day, when it is an RFC 3339 timestamp.
pub fn release_date(published_at: &str) -> (r: String)
    ensures
        r@ == match rfc3339_day(published_at@) {
            Some(d) => d,
            None => published_at@,
        },
        rfc3339_day(published_at@) is Some ==> r@ == published_at@.subrange(0, 10),
{
    day_or_raw(parse_rfc3339_day(published_at), published_at)
}

} // verus!
