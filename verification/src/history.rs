//! The histories of the projects since their latest releases.
//!
//! Walking the repository happens outside this crate. These functions
//! decide, along the walk, which release commit last released each project
//! and which commits affect which projects.

use vstd::prelude::*;

use crate::graph::ProjectGraph;
use crate::project::ProjectId;
use crate::config::RepoConfiguration;
use crate::repository::{names_view, released_now, CommitId, ReleaseCommitInfo, RepoHistory, RepoPathBuf};

verus! {

/// The histories of all projects, by project identifier.
#[derive(Debug)]
pub struct RepoHistories {
    histories: Vec<RepoHistory>,
}

impl RepoHistories {
    pub closed spec fn histories_view(&self) -> Seq<RepoHistory> {
        self.histories@
    }

    /// Histories for the projects, by project identifier.
    pub fn new(histories: Vec<RepoHistory>) -> (res: RepoHistories)
        ensures
            res.histories_view() == histories@,
    {
        RepoHistories { histories }
    }

    /// The history of a project.
    pub fn lookup(&self, projid: ProjectId) -> (res: &RepoHistory)
        requires
            projid < self.histories_view().len(),
        ensures
            *res == self.histories_view()[projid as int],
    {
        &self.histories[projid]
    }
}

/// The number of projects whose latest release is known.
pub open spec fn count_found(found: Seq<Option<CommitId>>) -> nat
    decreases found.len(),
{
    if found.len() == 0 {
        0
    } else {
        count_found(found.drop_last()) + if found.last() is Some {
            1nat
        } else {
            0nat
        }
    }
}

proof fn lemma_count_found_update(found: Seq<Option<CommitId>>, i: int, c: CommitId)
    requires
        0 <= i < found.len(),
        found[i] is None,
    ensures
        count_found(found.update(i, Some(c))) == count_found(found) + 1,
    decreases found.len(),
{
    if i < found.len() - 1 {
        lemma_count_found_update(found.drop_last(), i, c);
        assert(found.update(i, Some(c)).drop_last() =~= found.drop_last().update(i, Some(c)));
    } else {
        assert(found.update(i, Some(c)).drop_last() =~= found.drop_last());
    }
}

proof fn lemma_count_found_bound(found: Seq<Option<CommitId>>)
    ensures
        count_found(found) <= found.len(),
    decreases found.len(),
{
    if found.len() > 0 {
        lemma_count_found_bound(found.drop_last());
    }
}

/// Takes in one release commit, walking the `release` branch from its tip
/// backwards: every project not yet found that was released in this commit
/// has it as its latest release commit. Returns how many projects are found
/// after it.
pub fn note_release_commit(
    graph: &ProjectGraph,
    found: &mut Vec<Option<CommitId>>,
    commit: CommitId,
    rel_info: &ReleaseCommitInfo,
) -> (n_found: usize)
    requires
        old(found)@.len() == graph.projects_view().len(),
    ensures
        final(found)@.len() == old(found)@.len(),
        forall|i: int|
            0 <= i < old(found)@.len() ==> #[trigger] final(found)@[i] == if old(found)@[i] is None
                && released_now(
                rel_info.entry_names(),
                rel_info.projects@,
                graph.projects_view()[i].qnames_view(),
            ) {
                Some(commit)
            } else {
                old(found)@[i]
            },
        n_found == count_found(final(found)@),
{
    let n = found.len();
    let mut i: usize = 0;
    while i < n
        invariant
            i <= n,
            n == old(found)@.len(),
            found@.len() == n,
            n == graph.projects_view().len(),
            forall|x: int|
                0 <= x < n ==> #[trigger] found@[x] == if x < i && old(found)@[x] is None && released_now(
                    rel_info.entry_names(),
                    rel_info.projects@,
                    graph.projects_view()[x].qnames_view(),
                ) {
                    Some(commit)
                } else {
                    old(found)@[x]
                },
        decreases n - i,
    {
        if found[i].is_none() && rel_info.lookup_if_released(graph.lookup(i)).is_some() {
            found.set(i, Some(commit));
        }
        i = i + 1;
    }
    let mut count: usize = 0;
    let mut j: usize = 0;
    proof {
        assert(found@.take(0) =~= Seq::<Option<CommitId>>::empty());
    }
    while j < n
        invariant
            j <= n,
            found@.len() == n,
            count == count_found(found@.take(j as int)),
            count <= j,
        decreases n - j,
    {
        proof {
            assert(found@.take(j + 1).drop_last() =~= found@.take(j as int));
        }
        if found[j].is_some() {
            count = count + 1;
        }
        j = j + 1;
    }
    proof {
        assert(found@.take(n as int) =~= found@);
    }
    count
}

/// Whether the walk back along the `release` branch goes on: not when every
/// project's latest release is known, and not past a release commit with a
/// single parent, which is the first release commit of the history.
pub fn release_walk_continues(n_found: usize, n_projects: usize, parent_count: usize) -> (res: bool)
    ensures
        res == (n_found != n_projects && parent_count != 1),
{
    n_found != n_projects && parent_count != 1
}

/// Whether some path is matched by a project's path matcher.
pub open spec fn touches(proj: crate::project::Project, paths: Seq<Seq<u8>>) -> bool {
    exists|k: int| 0 <= k < paths.len() && crate::repository::terms_match(proj.paths_view(), #[trigger] paths[k])
}

/// Which projects a commit affects, given the paths it changes (as both
/// sides of each change): a project is affected when one of the paths
/// belongs to it.
pub fn touched_projects(graph: &ProjectGraph, paths: &Vec<RepoPathBuf>) -> (res: Vec<bool>)
    ensures
        res@.len() == graph.projects_view().len(),
        forall|i: int|
            0 <= i < res@.len() ==> #[trigger] res@[i] == touches(
                graph.projects_view()[i],
                paths@.map_values(|p: RepoPathBuf| p@),
            ),
{
    let ghost pv = paths@.map_values(|p: RepoPathBuf| p@);
    let n = graph.len();
    let mut hits: Vec<bool> = Vec::new();
    let mut i: usize = 0;
    while i < n
        invariant
            i <= n,
            n == graph.projects_view().len(),
            hits@.len() == i,
            pv == paths@.map_values(|p: RepoPathBuf| p@),
            forall|x: int| 0 <= x < i ==> #[trigger] hits@[x] == touches(graph.projects_view()[x], pv),
        decreases n - i,
    {
        let proj = graph.lookup(i);
        let mut hit = false;
        let mut k: usize = 0;
        while k < paths.len()
            invariant
                k <= paths@.len(),
                pv == paths@.map_values(|p: RepoPathBuf| p@),
                *proj == graph.projects_view()[i as int],
                hit == exists|m: int| 0 <= m < k && crate::repository::terms_match(proj.paths_view(), #[trigger] pv[m]),
            decreases paths.len() - k,
        {
            if proj.path_matches(paths[k].as_repo_path()) {
                hit = true;
            }
            proof {
                assert(pv[k as int] == paths@[k as int]@);
            }
            k = k + 1;
        }
        hits.push(hit);
        i = i + 1;
    }
    hits
}

/// The upstream remote chosen among a repository's remotes (names that are
/// not Unicode are skipped): the first, unless one is named `origin`; and
/// how many remotes were considered.
pub open spec fn upstream_scan(names: Seq<Option<Seq<char>>>) -> (Option<Seq<char>>, nat)
    decreases names.len(),
{
    if names.len() == 0 {
        (None, 0)
    } else {
        let (up, n) = upstream_scan(names.drop_last());
        match names.last() {
            None => (up, n),
            Some(nm) => (if up is None || nm == "origin"@ {
                Some(nm)
            } else {
                up
            }, n + 1),
        }
    }
}

/// The upstream remote: the only remote, or the one named `origin` among
/// several. `None` when there is no such remote.
pub open spec fn spec_upstream(names: Seq<Option<Seq<char>>>) -> Option<Seq<char>> {
    let (up, n) = upstream_scan(names);
    match up {
        None => None,
        Some(u) => if n > 1 && u != "origin"@ {
            None
        } else {
            Some(u)
        },
    }
}

pub open spec fn opt_names_view(v: Seq<Option<String>>) -> Seq<Option<Seq<char>>> {
    v.map_values(|o: Option<String>| match o {
        Some(s) => Some(s@),
        None => None,
    })
}

/// What the program keeps of the repository it works in: the upstream
/// remote, the names of the `rc`-like and `release`-like branches, and the
/// format of release tag names.
#[derive(Debug)]
pub struct RepoSettings {
    pub upstream_name: String,
    pub rc_name: String,
    pub release_name: String,
    pub tag_format: String,
}

impl RepoSettings {
    /// The settings of a repository with remotes of the given names (`None`
    /// for a name that is not Unicode): the upstream remote chosen among
    /// them, the branches `rc` and `release`, and tags named
    /// `{project_slug}@{version}`.
    pub fn from_remotes(names: &Vec<Option<String>>) -> (res: Result<RepoSettings, crate::errors::Error>)
        ensures
            match spec_upstream(opt_names_view(names@)) {
                Some(u) => res matches Ok(s) && s.upstream_name@ == u && s.rc_name@ == "rc"@
                    && s.release_name@ == "release"@ && s.tag_format@ == "{project_slug}@{version}"@,
                None => res matches Err(crate::errors::Error::NoUpstreamRemote),
            },
    {
        match choose_upstream(names) {
            Ok(u) => Ok(
                RepoSettings {
                    upstream_name: u,
                    rc_name: crate::text::owned("rc"),
                    release_name: crate::text::owned("release"),
                    tag_format: crate::text::owned("{project_slug}@{version}"),
                },
            ),
            Err(e) => Err(e),
        }
    }
}

/// Whether a remote's URL (`None` where it is not Unicode) is one of the
/// configured upstream URLs.
pub open spec fn is_upstream_url(url: Option<Seq<char>>, urls: Seq<Seq<char>>) -> bool {
    url matches Some(u) && urls.contains(u)
}

/// A list of remotes, by name and URL, as plain text.
pub open spec fn remotes_view(v: Seq<(String, Option<String>)>) -> Seq<(Seq<char>, Option<Seq<char>>)> {
    v.map_values(|r: (String, Option<String>)| (r.0@, match r.1 {
        Some(u) => Some(u@),
        None => None,
    }))
}

/// The text that an optional configured value leaves in place of `cur`.
pub open spec fn configured_or(v: Option<String>, cur: Seq<char>) -> Seq<char> {
    match v {
        Some(n) => n@,
        None => cur,
    }
}

fn url_listed(urls: &Vec<String>, u: &String) -> (res: bool)
    ensures
        res == names_view(urls@).contains(u@),
{
    let ghost v = names_view(urls@);
    let mut i: usize = 0;
    while i < urls.len()
        invariant
            i <= urls@.len(),
            v == names_view(urls@),
            forall|j: int| 0 <= j < i ==> v[j] != u@,
        decreases urls.len() - i,
    {
        if urls[i] == *u {
            assert(v[i as int] == u@);
            return true;
        }
        i = i + 1;
    }
    false
}

impl RepoSettings {
    /// Applies the repository section of the configuration, given the
    /// repository's remotes by name and URL. Where upstream URLs are
    /// configured, the upstream remote becomes the first remote whose URL is
    /// one of them, and it is an error if none is; then each branch name and
    /// the tag format that the configuration gives replaces the current one.
    /// On error nothing changes.
    pub fn apply_config(&mut self, cfg: &RepoConfiguration, remotes: &Vec<(String, Option<String>)>) -> (res: Result<
        (),
        crate::errors::Error,
    >)
        ensures
            ({
                let rs = remotes_view(remotes@);
                let urls = names_view(cfg.upstream_urls@);
                if urls.len() > 0 && forall|i: int| 0 <= i < rs.len() ==> !is_upstream_url(#[trigger] rs[i].1, urls) {
                    res matches Err(crate::errors::Error::NoUpstreamRemote) && final(self).upstream_name@ == old(
                        self,
                    ).upstream_name@ && final(self).rc_name@ == old(self).rc_name@ && final(self).release_name@
                        == old(self).release_name@ && final(self).tag_format@ == old(self).tag_format@
                } else {
                    &&& res is Ok
                    &&& if urls.len() == 0 {
                        final(self).upstream_name@ == old(self).upstream_name@
                    } else {
                        exists|i: int|
                            0 <= i < rs.len() && is_upstream_url(#[trigger] rs[i].1, urls) && (forall|j: int|
                                0 <= j < i ==> !is_upstream_url(#[trigger] rs[j].1, urls))
                                && final(self).upstream_name@ == rs[i].0
                    }
                    &&& final(self).rc_name@ == configured_or(cfg.rc_name, old(self).rc_name@)
                    &&& final(self).release_name@ == configured_or(cfg.release_name, old(self).release_name@)
                    &&& final(self).tag_format@ == configured_or(cfg.release_tag_name_format, old(self).tag_format@)
                }
            }),
    {
        let ghost rs = remotes_view(remotes@);
        let ghost urls = names_view(cfg.upstream_urls@);
        if cfg.upstream_urls.len() > 0 {
            let mut found: Option<usize> = None;
            let mut i: usize = 0;
            while found.is_none() && i < remotes.len()
                invariant
                    i <= remotes@.len(),
                    rs == remotes_view(remotes@),
                    urls == names_view(cfg.upstream_urls@),
                    forall|j: int| 0 <= j < i ==> !is_upstream_url(#[trigger] rs[j].1, urls),
                    found matches Some(k) ==> k == i && i < remotes@.len() && is_upstream_url(rs[i as int].1, urls),
                decreases remotes.len() - i + (if found is None { 1int } else { 0int }),
            {
                let hit = match &remotes[i].1 {
                    Some(u) => url_listed(&cfg.upstream_urls, u),
                    None => false,
                };
                if hit {
                    found = Some(i);
                } else {
                    i = i + 1;
                }
            }
            match found {
                Some(k) => {
                    self.upstream_name = remotes[k].0.clone();
                },
                None => {
                    return Err(crate::errors::Error::NoUpstreamRemote);
                },
            }
        }
        if let Some(n) = &cfg.rc_name {
            self.rc_name = n.clone();
        }
        if let Some(n) = &cfg.release_name {
            self.release_name = n.clone();
        }
        if let Some(f) = &cfg.release_tag_name_format {
            self.tag_format = f.clone();
        }
        Ok(())
    }
}

/// Chooses the upstream remote among the names of a repository's remotes
/// (`None` for a name that is not Unicode).
pub fn choose_upstream(names: &Vec<Option<String>>) -> (res: Result<String, crate::errors::Error>)
    ensures
        match spec_upstream(opt_names_view(names@)) {
            Some(u) => res matches Ok(r) && r@ == u,
            None => res matches Err(crate::errors::Error::NoUpstreamRemote),
        },
{
    let ghost nv = opt_names_view(names@);
    let origin = crate::text::owned("origin");
    let mut up: Option<String> = None;
    let mut n: usize = 0;
    let mut i: usize = 0;
    proof {
        assert(nv.take(0) =~= Seq::<Option<Seq<char>>>::empty());
    }
    while i < names.len()
        invariant
            i <= names@.len(),
            nv == opt_names_view(names@),
            origin@ == "origin"@,
            n <= i,
            upstream_scan(nv.take(i as int)) == (
                match up {
                    Some(u) => Some(u@),
                    None => None,
                },
                n as nat,
            ),
        decreases names.len() - i,
    {
        proof {
            assert(nv.take(i + 1).drop_last() =~= nv.take(i as int));
            assert(nv.take(i + 1).last() == nv[i as int]);
        }
        match &names[i] {
            None => {},
            Some(nm) => {
                n = n + 1;
                if up.is_none() || *nm == origin {
                    up = Some(nm.clone());
                }
            },
        }
        i = i + 1;
    }
    proof {
        assert(nv.take(nv.len() as int) =~= nv);
    }
    match up {
        None => Err(crate::errors::Error::NoUpstreamRemote),
        Some(u) => if n > 1 && u != origin {
            Err(crate::errors::Error::NoUpstreamRemote)
        } else {
            Ok(u)
        },
    }
}

/// The tag that marks a release of a project: the tag-name format with the
/// project's name and the released version filled in.
pub fn tag_name(
    format: &str,
    proj: &crate::project::Project,
    rel: &crate::repository::ReleasedProjectInfo,
) -> (res: Result<String, crate::errors::Error>)
    ensures
        match crate::changelog::curly_formatted(
            format@,
            seq![("project_slug"@, proj.name_view()), ("version"@, rel.version@)],
        ) {
            Some(t) => res matches Ok(r) && r@ == t,
            None => res matches Err(crate::errors::Error::Format(f)) && f@ == format@,
        },
{
    let mut args: Vec<(String, String)> = Vec::new();
    args.push((crate::text::owned("project_slug"), proj.name().clone()));
    args.push((crate::text::owned("version"), rel.version.clone()));
    proof {
        assert(crate::text::pairs_view(args@) =~= seq![("project_slug"@, proj.name_view()), ("version"@, rel.version@)]);
    }
    match crate::changelog::curly_format(format, &args) {
        Some(t) => Ok(t),
        None => Err(crate::errors::Error::Format(crate::text::owned(format))),
    }
}

/// The age recorded for a project in a new release commit: one more than in
/// the latest release commit when its version is unchanged, zero otherwise
/// (also when it was never released).
pub open spec fn release_age(latest: ReleaseCommitInfo, q: Seq<Seq<char>>, version: Seq<char>) -> int {
    match crate::repository::first_with_names(latest.entry_names(), q) {
        Some(i) => if latest.projects@[i].version@ == version {
            latest.projects@[i].age + 1
        } else {
            0
        },
        None => 0,
    }
}

/// A project whose version is unchanged since the latest release commit is
/// recorded with an age one more than the age recorded there for the first
/// entry with its qualified names, so strictly greater: it does not count as
/// released again. A project whose version changed, or that has no entry,
/// is recorded with age zero.
pub proof fn law_release_age(latest: ReleaseCommitInfo, q: Seq<Seq<char>>, version: Seq<char>)
    ensures
        forall|i: int|
            crate::repository::is_first_with_names(latest.entry_names(), q, i) ==> {
                &&& latest.projects@[i].version@ == version ==> release_age(latest, q, version)
                    == latest.projects@[i].age + 1 && release_age(latest, q, version) > latest.projects@[i].age
                &&& latest.projects@[i].version@ != version ==> release_age(latest, q, version) == 0
            },
        (forall|i: int| 0 <= i < latest.projects@.len() ==> #[trigger] latest.entry_names()[i] != q) ==> release_age(
            latest,
            q,
            version,
        ) == 0,
{
    assert forall|i: int|
        crate::repository::is_first_with_names(latest.entry_names(), q, i) implies {
            &&& latest.projects@[i].version@ == version ==> release_age(latest, q, version)
                == latest.projects@[i].age + 1 && release_age(latest, q, version) > latest.projects@[i].age
            &&& latest.projects@[i].version@ != version ==> release_age(latest, q, version) == 0
        } by {
        crate::repository::lemma_first_with_names(latest.entry_names(), q, i);
    }
    if forall|i: int| 0 <= i < latest.projects@.len() ==> #[trigger] latest.entry_names()[i] != q {
        crate::repository::lemma_first_with_names_none(latest.entry_names(), q);
    }
}

/// The information recorded in a new release commit: for every project, in
/// topological order, its qualified names, its version and the number of
/// release commits with that version before this one.
pub fn release_entries(graph: &ProjectGraph, latest: &ReleaseCommitInfo) -> (res: Vec<
    crate::repository::ReleasedProjectInfo,
>)
    requires
        forall|i: int| 0 <= i < latest.projects@.len() ==> #[trigger] latest.projects@[i].age < usize::MAX,
    ensures
        res@.len() == graph.order_view().len(),
        forall|j: int|
            0 <= j < res@.len() ==> {
                let p = graph.projects_view()[graph.order_view()[j] as int];
                let e = #[trigger] res@[j];
                &&& crate::repository::names_view(e.qnames@) == p.qnames_view()
                &&& e.version@ == crate::version::render_version(p.version_view())
                &&& e.age as int == release_age(*latest, p.qnames_view(), e.version@)
            },
{
    let order = graph.toposorted();
    let mut out: Vec<crate::repository::ReleasedProjectInfo> = Vec::new();
    let mut j: usize = 0;
    while j < order.len()
        invariant
            j <= order@.len(),
            order@ == graph.order_view(),
            forall|k: int| 0 <= k < order@.len() ==> #[trigger] order@[k] < graph.projects_view().len(),
            forall|i: int| 0 <= i < latest.projects@.len() ==> #[trigger] latest.projects@[i].age < usize::MAX,
            out@.len() == j,
            forall|x: int|
                0 <= x < j ==> {
                    let p = graph.projects_view()[order@[x] as int];
                    let e = #[trigger] out@[x];
                    &&& crate::repository::names_view(e.qnames@) == p.qnames_view()
                    &&& e.version@ == crate::version::render_version(p.version_view())
                    &&& e.age as int == release_age(*latest, p.qnames_view(), e.version@)
                },
        decreases order.len() - j,
    {
        let proj = graph.lookup(order[j]);
        let version = proj.version().to_string();
        let age: usize = match latest.lookup_project(proj) {
            Some(ri) => {
                proof {
                    let i = choose|i: int|
                        crate::repository::is_first_with_names(latest.entry_names(), proj.qnames_view(), i)
                            && *ri == latest.projects@[i];
                    crate::repository::lemma_first_with_names(latest.entry_names(), proj.qnames_view(), i);
                }
                if ri.version == version {
                    ri.age + 1
                } else {
                    0
                }
            },
            None => {
                proof {
                    crate::repository::lemma_first_with_names_none(latest.entry_names(), proj.qnames_view());
                }
                0
            },
        };
        out.push(
            crate::repository::ReleasedProjectInfo {
                qnames: proj.qualified_names().clone(),
                version,
                age,
            },
        );
        j = j + 1;
    }
    out
}

} // verus!
