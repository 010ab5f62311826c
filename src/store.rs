use crate::error::SkillError;
use crate::paths::{file_name, file_name_of, is_safe_relative, is_valid_skill_name, join, validate_relative_path, validate_skill_name};
use vstd::prelude::*;

verus! {

/// Where the global store and the agents' skill directories live, below one
/// home directory.
pub struct StorePaths {
    pub home: String,
}

pub open spec fn global_dir_of(home: Seq<char>) -> Seq<char> {
    join(home, ".agents/skills"@)
}

pub open spec fn agent_dir_of(home: Seq<char>, agent: Seq<char>) -> Seq<char> {
    join(home, "."@ + agent + "/skills"@)
}

impl StorePaths {
    pub fn new(home: String) -> (r: StorePaths)
        ensures
            r.home@ == home@,
    {
        StorePaths { home }
    }

    /// The global store: `<home>/.agents/skills`.
    pub fn global_dir(&self) -> (r: String)
        ensures
            r@ == global_dir_of(self.home@),
    {
        crate::paths::join_path(self.home.as_str(), ".agents/skills")
    }

    /// The skills directory of `agent`: `<home>/.<agent>/skills`.
    pub fn agent_dir(&self, agent: &str) -> (r: String)
        ensures
            r@ == agent_dir_of(self.home@, agent@),
    {
        let mut rel = String::from_str(".");
        rel.append(agent);
        rel.append("/skills");
        crate::paths::join_path(self.home.as_str(), rel.as_str())
    }

    /// Where the store keeps the skill `name`.
    pub fn store_entry(&self, name: &str) -> (r: String)
        ensures
            r@ == join(global_dir_of(self.home@), name@),
    {
        let dir = self.global_dir();
        crate::paths::join_path(dir.as_str(), name)
    }

    /// Where `agent` sees the skill `name`.
    pub fn agent_link(&self, agent: &str, name: &str) -> (r: String)
        ensures
            r@ == join(agent_dir_of(self.home@, agent@), name@),
    {
        let dir = self.agent_dir(agent);
        crate::paths::join_path(dir.as_str(), name)
    }
}

/// What is known of a skill's source directory in the downloaded tree.
#[derive(Debug, Clone, Copy, PartialEq, Eq, Structural)]
pub struct SkillSource {
    pub is_dir: bool,
    pub has_manifest: bool,
}

/// The names held by the global store, and the (agent, name) pairs for which
/// an agent link exists.
pub type StoreView = (Set<Seq<char>>, Set<(Seq<char>, Seq<char>)>);

pub open spec fn name_set(v: Seq<String>) -> Set<Seq<char>> {
    Set::new(|n: Seq<char>| exists|i: int| 0 <= i < v.len() && (#[trigger] v[i])@ == n)
}

pub open spec fn link_set(v: Seq<(String, String)>) -> Set<(Seq<char>, Seq<char>)> {
    Set::new(
        |p: (Seq<char>, Seq<char>)|
            exists|i: int| 0 <= i < v.len() && (#[trigger] v[i]).0@ == p.0 && v[i].1@ == p.1,
    )
}

/// What installing the skill at `path` for `agent` does to the store `s`:
/// the checks in the order in which they are made, then the skill's name
/// joins the store and the agent's link to it is made.
pub open spec fn install_outcome(
    s: StoreView,
    agent: Seq<char>,
    path: Seq<char>,
    source: SkillSource,
) -> Result<(StoreView, Seq<char>), SkillError> {
    if !is_safe_relative(path) {
        Err(SkillError::InvalidSkillPath)
    } else if !source.is_dir {
        Err(SkillError::SkillDirNotFound)
    } else if !source.has_manifest {
        Err(SkillError::ManifestMissing)
    } else {
        match file_name_of(path) {
            None => Err(SkillError::InvalidSkillPath),
            Some(n) => if !is_valid_skill_name(n) {
                Err(SkillError::InvalidSkillName)
            } else if s.0.contains(n) {
                Err(SkillError::AlreadyInstalled)
            } else {
                Ok(((s.0.insert(n), s.1.insert((agent, n))), n))
            },
        }
    }
}

/// What removing the link of `agent` to `name` does to the store `s`: the
/// store itself is left alone.
pub open spec fn uninstall_outcome(s: StoreView, agent: Seq<char>, name: Seq<char>) -> StoreView {
    (s.0, s.1.remove((agent, name)))
}

/// What an install asks of the file system once its checks passed: move the
/// skill's directory to the store entry `name`, remove the agent's old link
/// when `replace_link` is set, and link the store entry for the agent.
pub struct InstallPlan {
    pub name: String,
    pub replace_link: bool,
}

/// How an uninstall ended: the link was there and goes, or there was none.
#[derive(Debug, Clone, Copy, PartialEq, Eq, Structural)]
pub enum UninstallOutcome {
    Removed,
    NotFound,
}

/// The skill store as last seen on disk: the names in the global store, in
/// the order they were listed, and the agent links known to exist. It is
/// the only writer of both.
pub struct SkillStore {
    entries: Vec<String>,
    links: Vec<(String, String)>,
}

impl View for SkillStore {
    type V = StoreView;

    closed spec fn view(&self) -> StoreView {
        (name_set(self.entries@), link_set(self.links@))
    }
}

fn holds_name(v: &Vec<String>, name: &String) -> (r: bool)
    ensures
        r == name_set(v@).contains(name@),
{
    let mut i: usize = 0;
    while i < v.len()
        invariant
            0 <= i <= v@.len(),
            forall|k: int| 0 <= k < i ==> (#[trigger] v@[k])@ != name@,
        decreases v.len() - i,
    {
        if v[i] == *name {
            assert(name_set(v@).contains(name@));
            return true;
        }
        i = i + 1;
    }
    false
}

fn holds_link(v: &Vec<(String, String)>, agent: &String, name: &String) -> (r: bool)
    ensures
        r == link_set(v@).contains((agent@, name@)),
{
    let mut i: usize = 0;
    while i < v.len()
        invariant
            0 <= i <= v@.len(),
            forall|k: int| 0 <= k < i ==> !((#[trigger] v@[k]).0@ == agent@ && v@[k].1@ == name@),
        decreases v.len() - i,
    {
        if v[i].0 == *agent && v[i].1 == *name {
            assert(link_set(v@).contains((agent@, name@)));
            return true;
        }
        i = i + 1;
    }
    false
}

impl SkillStore {
    /// A store holding nothing.
    pub fn new() -> (r: SkillStore)
        ensures
            r@.0 == Set::<Seq<char>>::empty(),
            r@.1 == Set::<(Seq<char>, Seq<char>)>::empty(),
    {
        let r = SkillStore { entries: Vec::new(), links: Vec::new() };
        assert(r@.0 =~= Set::<Seq<char>>::empty());
        assert(r@.1 =~= Set::<(Seq<char>, Seq<char>)>::empty());
        r
    }

    /// The store as listed on disk: the names found in the global store.
    pub fn from_entries(entries: Vec<String>) -> (r: SkillStore)
        ensures
            r@.0 == name_set(entries@),
            r@.1 == Set::<(Seq<char>, Seq<char>)>::empty(),
            r.list_spec() == entries@,
    {
        let r = SkillStore { entries, links: Vec::new() };
        assert(r@.1 =~= Set::<(Seq<char>, Seq<char>)>::empty());
        r
    }

    /// Records that the link of `agent` to `name` was found on disk.
    pub fn note_link(&mut self, agent: &str, name: &str)
        ensures
            final(self)@.0 == old(self)@.0,
            final(self)@.1 == old(self)@.1.insert((agent@, name@)),
            final(self).list_spec() == old(self).list_spec(),
    {
        let ghost before = self.links@;
        self.links.push((String::from_str(agent), String::from_str(name)));
        assert(link_set(self.links@) =~= link_set(before).insert((agent@, name@))) by {
            assert forall|p: (Seq<char>, Seq<char>)| #[trigger] link_set(self.links@).contains(p) implies link_set(before).insert((agent@, name@)).contains(p) by {
                let i = choose|i: int| 0 <= i < self.links@.len() && (#[trigger] self.links@[i]).0@ == p.0 && self.links@[i].1@ == p.1;
                if i < before.len() {
                    assert(before[i] == self.links@[i]);
                }
            }
            assert forall|p: (Seq<char>, Seq<char>)| #[trigger] link_set(before).insert((agent@, name@)).contains(p) implies link_set(self.links@).contains(p) by {
                if p == (agent@, name@) {
                    assert(self.links@[before.len() as int].0@ == p.0);
                } else {
                    let i = choose|i: int| 0 <= i < before.len() && (#[trigger] before[i]).0@ == p.0 && before[i].1@ == p.1;
                    assert(self.links@[i] == before[i]);
                }
            }
        }
    }

    /// The names in the global store, in the order they were listed on disk;
    /// a name installed here comes last. No other order is imposed.
    pub closed spec fn list_spec(&self) -> Seq<String> {
        self.entries@
    }

    pub fn list(&self) -> (r: &Vec<String>)
        ensures
            r@ == self.list_spec(),
            name_set(r@) == self@.0,
    {
        &self.entries
    }

    /// Installs the skill at the repository-relative `path` for `agent`.
    /// The path must be relative with no ".." piece, the source a directory
    /// holding the manifest, and the skill's name (the path's last component)
    /// valid and not yet in the store; nothing changes when one of these
    /// fails. Otherwise the name joins the store and the agent's link is
    /// (re)made; an existing link of the agent is replaced, an existing store
    /// entry never is.
    pub fn install(&mut self, agent: &str, path: &str, source: SkillSource) -> (r: Result<
        InstallPlan,
        SkillError,
    >)
        ensures
            match r {
                Ok(plan) => {
                    &&& install_outcome(old(self)@, agent@, path@, source) == Ok::<_, SkillError>(
                        (final(self)@, plan.name@),
                    )
                    &&& plan.replace_link == old(self)@.1.contains((agent@, plan.name@))
                },
                Err(e) => {
                    &&& install_outcome(old(self)@, agent@, path@, source) == Err::<
                        (StoreView, Seq<char>),
                        _,
                    >(e)
                    &&& final(self)@ == old(self)@
                },
            },
    {
        validate_relative_path(path)?;
        if !source.is_dir {
            return Err(SkillError::SkillDirNotFound);
        }
        if !source.has_manifest {
            return Err(SkillError::ManifestMissing);
        }
        let name = match file_name(path) {
            Some(n) => n,
            None => return Err(SkillError::InvalidSkillPath),
        };
        validate_skill_name(name.as_str())?;
        if holds_name(&self.entries, &name) {
            return Err(SkillError::AlreadyInstalled);
        }
        let agent_s = String::from_str(agent);
        let replace_link = holds_link(&self.links, &agent_s, &name);
        let ghost e0 = self.entries@;
        let ghost l0 = self.links@;
        self.entries.push(name.clone());
        self.links.push((agent_s, name.clone()));
        assert(name_set(self.entries@) =~= name_set(e0).insert(name@)) by {
            assert forall|n: Seq<char>| #[trigger] name_set(self.entries@).contains(n) implies name_set(e0).insert(name@).contains(n) by {
                let i = choose|i: int| 0 <= i < self.entries@.len() && (#[trigger] self.entries@[i])@ == n;
                if i < e0.len() {
                    assert(e0[i] == self.entries@[i]);
                }
            }
            assert forall|n: Seq<char>| #[trigger] name_set(e0).insert(name@).contains(n) implies name_set(self.entries@).contains(n) by {
                if n == name@ {
                    assert(self.entries@[e0.len() as int]@ == n);
                } else {
                    let i = choose|i: int| 0 <= i < e0.len() && (#[trigger] e0[i])@ == n;
                    assert(self.entries@[i] == e0[i]);
                }
            }
        }
        assert(link_set(self.links@) =~= link_set(l0).insert((agent@, name@))) by {
            assert forall|p: (Seq<char>, Seq<char>)| #[trigger] link_set(self.links@).contains(p) implies link_set(l0).insert((agent@, name@)).contains(p) by {
                let i = choose|i: int| 0 <= i < self.links@.len() && (#[trigger] self.links@[i]).0@ == p.0 && self.links@[i].1@ == p.1;
                if i < l0.len() {
                    assert(l0[i] == self.links@[i]);
                }
            }
            assert forall|p: (Seq<char>, Seq<char>)| #[trigger] link_set(l0).insert((agent@, name@)).contains(p) implies link_set(self.links@).contains(p) by {
                if p == (agent@, name@) {
                    assert(self.links@[l0.len() as int].0@ == p.0);
                } else {
                    let i = choose|i: int| 0 <= i < l0.len() && (#[trigger] l0[i]).0@ == p.0 && l0[i].1@ == p.1;
                    assert(self.links@[i] == l0[i]);
                }
            }
        }
        Ok(InstallPlan { name, replace_link })
    }

    /// Removes the link of `agent` to `name`. A missing link is no error: it
    /// is reported as `NotFound`. The global store is never touched.
    pub fn uninstall(&mut self, agent: &str, name: &str) -> (r: UninstallOutcome)
        ensures
            final(self)@ == uninstall_outcome(old(self)@, agent@, name@),
            (r == UninstallOutcome::Removed) == old(self)@.1.contains((agent@, name@)),
            final(self).list_spec() == old(self).list_spec(),
    {
        let agent_s = String::from_str(agent);
        let name_s = String::from_str(name);
        let found = holds_link(&self.links, &agent_s, &name_s);
        let mut kept: Vec<(String, String)> = Vec::new();
        let mut i: usize = 0;
        let ghost target = (agent@, name@);
        while i < self.links.len()
            invariant
                0 <= i <= self.links@.len(),
                agent_s@ == agent@,
                name_s@ == name@,
                target == (agent@, name@),
                link_set(kept@) == link_set(self.links@.take(i as int)).remove(target),
            decreases self.links.len() - i,
        {
            let ghost k0 = kept@;
            let ghost pre = self.links@.take(i as int);
            let ghost cur = self.links@.take(i + 1);
            assert(cur == pre.push(self.links@[i as int]));
            let same = self.links[i].0 == agent_s && self.links[i].1 == name_s;
            assert(same == (self.links@[i as int].0@ == agent@ && self.links@[i as int].1@ == name@));
            if !same {
                kept.push((self.links[i].0.clone(), self.links[i].1.clone()));
                assert(link_set(kept@) =~= link_set(cur).remove(target)) by {
                    assert forall|p: (Seq<char>, Seq<char>)| #[trigger] link_set(kept@).contains(p) implies link_set(cur).remove(target).contains(p) by {
                        let j = choose|j: int| 0 <= j < kept@.len() && (#[trigger] kept@[j]).0@ == p.0 && kept@[j].1@ == p.1;
                        if j < k0.len() {
                            assert(k0[j] == kept@[j]);
                            assert(link_set(k0).contains(p));
                            assert(link_set(pre).remove(target).contains(p));
                            assert(link_set(pre).contains(p));
                            let m = choose|m: int| 0 <= m < pre.len() && (#[trigger] pre[m]).0@ == p.0 && pre[m].1@ == p.1;
                            assert(cur[m] == pre[m]);
                            assert(link_set(cur).contains(p));
                        } else {
                            assert(cur[i as int] == self.links@[i as int]);
                            assert(kept@[j].0@ == self.links@[i as int].0@);
                            assert(kept@[j].1@ == self.links@[i as int].1@);
                            assert(link_set(cur).contains(p));
                            assert(p.0 != target.0 || p.1 != target.1);
                        }
                    }
                    assert forall|p: (Seq<char>, Seq<char>)| #[trigger] link_set(cur).remove(target).contains(p) implies link_set(kept@).contains(p) by {
                        let m = choose|m: int| 0 <= m < cur.len() && (#[trigger] cur[m]).0@ == p.0 && cur[m].1@ == p.1;
                        if m < pre.len() {
                            assert(pre[m] == cur[m]);
                            assert(link_set(k0).contains(p));
                            let j = choose|j: int| 0 <= j < k0.len() && (#[trigger] k0[j]).0@ == p.0 && k0[j].1@ == p.1;
                            assert(kept@[j] == k0[j]);
                        } else {
                            assert(kept@[k0.len() as int].0@ == p.0);
                        }
                    }
                }
            } else {
                assert(link_set(kept@) =~= link_set(cur).remove(target)) by {
                    assert forall|p: (Seq<char>, Seq<char>)| #[trigger] link_set(cur).remove(target).contains(p) implies link_set(kept@).contains(p) by {
                        let m = choose|m: int| 0 <= m < cur.len() && (#[trigger] cur[m]).0@ == p.0 && cur[m].1@ == p.1;
                        if m < pre.len() {
                            assert(pre[m] == cur[m]);
                            assert(link_set(pre).contains(p));
                            assert(link_set(pre).remove(target).contains(p));
                        } else {
                            assert(cur[m] == self.links@[i as int]);
                            assert(p.0 == target.0 && p.1 == target.1);
                            assert(p == target);
                        }
                    }
                    assert forall|p: (Seq<char>, Seq<char>)| #[trigger] link_set(kept@).contains(p) implies link_set(cur).remove(target).contains(p) by {
                        assert(link_set(pre).remove(target).contains(p));
                        let m = choose|m: int| 0 <= m < pre.len() && (#[trigger] pre[m]).0@ == p.0 && pre[m].1@ == p.1;
                        assert(cur[m] == pre[m]);
                    }
                }
            }
            i = i + 1;
        }
        assert(self.links@.take(self.links@.len() as int) =~= self.links@);
        self.links = kept;
        if found {
            UninstallOutcome::Removed
        } else {
            UninstallOutcome::NotFound
        }
    }
}

/// Installing the same skill twice in a row: the second attempt, for any
/// agent and from a source that passes the checks again, fails with
/// `AlreadyInstalled`, and a failed install leaves the store as it was, so
/// the first installation stays untouched.
pub proof fn lemma_install_twice_conflicts(
    s: StoreView,
    agent: Seq<char>,
    path: Seq<char>,
    source: SkillSource,
    agent2: Seq<char>,
    source2: SkillSource,
)
    requires
        install_outcome(s, agent, path, source) is Ok,
        source2.is_dir,
        source2.has_manifest,
    ensures
        ({
            let (s1, name) = install_outcome(s, agent, path, source)->Ok_0;
            &&& s1.0.contains(name)
            &&& s1.1.contains((agent, name))
            &&& install_outcome(s1, agent2, path, source2) == Err::<(StoreView, Seq<char>), _>(
                SkillError::AlreadyInstalled,
            )
        }),
{
}

/// Uninstalling never touches the global store, and uninstalling a link
/// that does not exist changes nothing at all.
pub proof fn lemma_uninstall_missing_keeps_store(s: StoreView, agent: Seq<char>, name: Seq<char>)
    ensures
        uninstall_outcome(s, agent, name).0 == s.0,
        !s.1.contains((agent, name)) ==> uninstall_outcome(s, agent, name) == s,
{
    if !s.1.contains((agent, name)) {
        assert(s.1.remove((agent, name)) =~= s.1);
    }
}

/// A source directory without the manifest is refused by a validation
/// error, before the store is changed: `ManifestMissing` once the path and
/// the directory passed their checks.
pub proof fn lemma_missing_manifest_rejected(
    s: StoreView,
    agent: Seq<char>,
    path: Seq<char>,
    source: SkillSource,
)
    requires
        !source.has_manifest,
    ensures
        install_outcome(s, agent, path, source) is Err,
        ({
            let e = install_outcome(s, agent, path, source)->Err_0;
            e == SkillError::InvalidSkillPath || e == SkillError::SkillDirNotFound || e
                == SkillError::ManifestMissing
        }),
        is_safe_relative(path) && source.is_dir ==> install_outcome(s, agent, path, source) == Err::<
            (StoreView, Seq<char>),
            _,
        >(SkillError::ManifestMissing),
{
}

/// Checks a skill's source directory: it must be a directory
/// (`SkillDirNotFound`) holding the manifest `SKILL.md` (`ManifestMissing`).
pub fn validate_skill(source: SkillSource) -> (r: Result<(), SkillError>)
    ensures
        r is Ok <==> source.is_dir && source.has_manifest,
        !source.is_dir ==> r == Err::<(), _>(SkillError::SkillDirNotFound),
        source.is_dir && !source.has_manifest ==> r == Err::<(), _>(SkillError::ManifestMissing),
{
    if !source.is_dir {
        return Err(SkillError::SkillDirNotFound);
    }
    if !source.has_manifest {
        return Err(SkillError::ManifestMissing);
    }
    Ok(())
}

/// The agent that a home-directory entry named `name` stands for: a name
/// starting with '.' of an entry that has a `skills` directory, without
/// its dot.
pub open spec fn agent_of(name: Seq<char>, has_skills: bool) -> Option<Seq<char>> {
    if has_skills && name.len() > 0 && name[0] == '.' {
        Some(name.drop_first())
    } else {
        None
    }
}

/// The agents among the home directory's entries, given as (name, whether
/// the entry has a `skills` directory), in listing order.
pub open spec fn agents_of(entries: Seq<(Seq<char>, bool)>) -> Seq<Seq<char>>
    decreases entries.len(),
{
    if entries.len() == 0 {
        Seq::<Seq<char>>::empty()
    } else {
        let init = agents_of(entries.drop_last());
        match agent_of(entries.last().0, entries.last().1) {
            Some(a) => init.push(a),
            None => init,
        }
    }
}

pub open spec fn entry_views(v: Seq<(String, bool)>) -> Seq<(Seq<char>, bool)> {
    v.map_values(|e: (String, bool)| (e.0@, e.1))
}

/// The agents that have a skills directory below the home directory.
pub fn list_agents(entries: &Vec<(String, bool)>) -> (r: Vec<String>)
    ensures
        crate::paths::views(r@) == agents_of(entry_views(entries@)),
{
    let mut out: Vec<String> = Vec::new();
    let mut i: usize = 0;
    assert(entry_views(entries@).take(0) =~= Seq::<(Seq<char>, bool)>::empty());
    while i < entries.len()
        invariant
            0 <= i <= entries@.len(),
            crate::paths::views(out@) == agents_of(entry_views(entries@).take(i as int)),
        decreases entries.len() - i,
    {
        let ghost prev = out@;
        let ghost es = entry_views(entries@).take(i + 1);
        assert(es.drop_last() =~= entry_views(entries@).take(i as int));
        assert(es.last() == (entries@[i as int].0@, entries@[i as int].1));
        let name = entries[i].0.as_str();
        let n = name.unicode_len();
        if entries[i].1 && n > 0 && name.get_char(0) == '.' {
            let agent = String::from_str(name.substring_char(1, n));
            assert(agent@ =~= name@.drop_first());
            out.push(agent);
            assert(crate::paths::views(out@) =~= crate::paths::views(prev).push(agent@));
        }
        i = i + 1;
    }
    assert(entry_views(entries@).take(entries@.len() as int) =~= entry_views(entries@));
    out
}

} // verus!
