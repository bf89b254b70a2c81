//! The decisions of the release workflow's commands: which projects are
//! staged, what a confirmed release request bumps, and how the status of a
//! project is reported.
//!
//! The commands' reading of the repository and their output happen outside
//! this crate.

use vstd::prelude::*;

use crate::errors::Error;
use crate::graph::{same_frame, ProjectGraph};
use crate::project::{DepRequirement, Dependency, Project, ProjectId};
use crate::repository::{
    first_with_names, is_first_with_names, lemma_first_with_names, lemma_first_with_names_none,
    escape_spec, terms_match, PathMatcher, ReleaseCommitInfo, ReleasedProjectInfo, RepoPath, RepoPathBuf, TermModel,
};
use crate::text::{append_chars, chars_to_string, decimal, owned, str_to_chars, usize_to_chars};
use crate::version::bump::{apply_fits, local_now, spec_apply, LocalTime};
use crate::version::{render_version, spec_bump_scheme, spec_parse_like, VersionModel};

verus! {

// ---------------------------------------------------------------------------
// `cranko stage`

/// Whether `cranko stage` drafts a release of a selected project that has
/// `n_commits` relevant commits since its latest release. A project without
/// new commits is staged only in "force" mode, and then only when it was
/// named explicitly (`no_names` is false).
pub open spec fn spec_should_stage(no_names: bool, force: bool, n_commits: nat) -> bool {
    !((no_names || !force) && n_commits == 0)
}

/// Decides whether `cranko stage` drafts a release of a selected project.
pub fn should_stage(no_names: bool, force: bool, n_commits: usize) -> (res: bool)
    ensures
        res == spec_should_stage(no_names, force, n_commits as nat),
{
    !((no_names || !force) && n_commits == 0)
}

/// The closing report of `cranko stage`, if any, after `n_staged` of
/// `n_selected` selected projects were staged.
pub open spec fn spec_stage_summary(no_names: bool, n_staged: nat, n_selected: nat) -> Option<Seq<char>> {
    if no_names && n_staged == 0 {
        Some("nothing further to stage at this time"@)
    } else if no_names && n_staged != 1 {
        Some(decimal(n_staged) + " of "@ + decimal(n_selected) + " projects staged"@)
    } else if n_staged != n_selected {
        Some(decimal(n_staged) + " of "@ + decimal(n_selected) + " selected projects staged"@)
    } else {
        None
    }
}

/// Writes the closing report of `cranko stage`.
pub fn stage_summary(no_names: bool, n_staged: usize, n_selected: usize) -> (res: Option<String>)
    ensures
        match res {
            Some(t) => spec_stage_summary(no_names, n_staged as nat, n_selected as nat) == Some(t@),
            None => spec_stage_summary(no_names, n_staged as nat, n_selected as nat) is None,
        },
{
    if no_names && n_staged == 0 {
        Some(owned("nothing further to stage at this time"))
    } else if (no_names && n_staged != 1) || n_staged != n_selected {
        let mut v = usize_to_chars(n_staged);
        append_chars(&mut v, &str_to_chars(" of "));
        append_chars(&mut v, &usize_to_chars(n_selected));
        if no_names && n_staged != 1 {
            append_chars(&mut v, &str_to_chars(" projects staged"));
        } else {
            append_chars(&mut v, &str_to_chars(" selected projects staged"));
        }
        Some(chars_to_string(&v))
    } else {
        None
    }
}

// ---------------------------------------------------------------------------
// `cranko confirm`

/// What confirming a release request with bump `spec` at the time `now`
/// gives, for a project with version `v0` and qualified names `q`, given
/// the release information of the project's latest release commit: the
/// result `res` (the text of the version bumped from) and the version `v1`
/// that the project has afterwards (stated where the result is `Ok`). The
/// bump applies to the latest release's version, read in the project's
/// scheme, or to the project's current version when it was never released.
pub open spec fn confirm_outcome(
    v0: VersionModel,
    last: ReleaseCommitInfo,
    q: Seq<Seq<char>>,
    spec: Seq<char>,
    now: LocalTime,
    res: Result<String, Error>,
    v1: VersionModel,
) -> bool {
    match spec_bump_scheme(spec) {
        Err(_) => res matches Err(Error::UnsupportedBumpScheme(t)) && t@ == spec,
        Ok(scheme) => {
            let (base, from) = match first_with_names(last.entry_names(), q) {
                Some(i) => (spec_parse_like(v0, last.projects@[i].version@), last.projects@[i].version@),
                None => (Some(v0), "[no previous releases]"@),
            };
            match base {
                None => res is Err,
                Some(b) => if !apply_fits(scheme, b) {
                    res matches Err(Error::VersionOverflow(t)) && t@ == spec
                } else {
                    match spec_apply(scheme, b, now) {
                        Some(nv) => res matches Ok(t) && t@ == from && v1 == nv,
                        None => res is Err,
                    }
                },
            }
        },
    }
}

/// Applies a confirmed release request to a project, at the time `now`:
/// see `confirm_outcome`. Returns the text of the version bumped from.
pub fn confirm_version_at(
    graph: &mut ProjectGraph,
    ident: ProjectId,
    last: &ReleaseCommitInfo,
    spec: &str,
    now: &LocalTime,
) -> (res: Result<String, Error>)
    requires
        ident < old(graph).projects_view().len(),
    ensures
        final(graph).projects_view().len() == old(graph).projects_view().len(),
        final(graph).names_view() == old(graph).names_view(),
        final(graph).order_view() == old(graph).order_view(),
        forall|i: int|
            0 <= i < old(graph).projects_view().len() && i != ident ==> final(graph).projects_view()[i]
                == old(graph).projects_view()[i],
        same_frame(final(graph).projects_view()[ident as int], old(graph).projects_view()[ident as int]),
        final(graph).projects_view()[ident as int].deps_view() == old(graph).projects_view()[ident as int].deps_view(),
        confirm_outcome(
            old(graph).projects_view()[ident as int].version_view(),
            *last,
            old(graph).projects_view()[ident as int].qnames_view(),
            spec@,
            *now,
            res,
            final(graph).projects_view()[ident as int].version_view(),
        ),
{
    let ghost q = graph.projects_view()[ident as int].qnames_view();
    let proj = graph.lookup(ident);
    let scheme = match proj.version().parse_bump_scheme(spec) {
        Ok(s) => s,
        Err(_) => return Err(Error::UnsupportedBumpScheme(owned(spec))),
    };
    let (base, from) = match last.lookup_project(proj) {
        Some(info) => {
            proof {
                let i = choose|i: int| is_first_with_names(last.entry_names(), q, i) && *info == last.projects@[i];
                lemma_first_with_names(last.entry_names(), q, i);
            }
            match proj.version().parse_like(info.version.as_str()) {
                Ok(v) => (v, info.version.clone()),
                Err(e) => return Err(e),
            }
        },
        None => {
            proof {
                lemma_first_with_names_none(last.entry_names(), q);
            }
            (proj.version().duplicate(), owned("[no previous releases]"))
        },
    };
    if !scheme.fits(&base) {
        return Err(Error::VersionOverflow(owned(spec)));
    }
    let mut v = base;
    match scheme.apply_at(&mut v, now) {
        Ok(()) => {},
        Err(e) => return Err(e),
    }
    graph.set_version(ident, v);
    Ok(from)
}

/// Applies a confirmed release request to a project at the current local
/// time: see `confirm_version_at`. Returns the text of the version bumped
/// from.
pub fn confirm_version(graph: &mut ProjectGraph, ident: ProjectId, last: &ReleaseCommitInfo, spec: &str) -> (res:
    Result<String, Error>)
    requires
        ident < old(graph).projects_view().len(),
    ensures
        final(graph).projects_view().len() == old(graph).projects_view().len(),
        final(graph).names_view() == old(graph).names_view(),
        final(graph).order_view() == old(graph).order_view(),
        forall|i: int|
            0 <= i < old(graph).projects_view().len() && i != ident ==> final(graph).projects_view()[i]
                == old(graph).projects_view()[i],
        same_frame(final(graph).projects_view()[ident as int], old(graph).projects_view()[ident as int]),
        final(graph).projects_view()[ident as int].deps_view() == old(graph).projects_view()[ident as int].deps_view(),
        exists|t: LocalTime|
            1 <= t.month <= 12 && 1 <= t.day <= 31 && #[trigger] confirm_outcome(
                old(graph).projects_view()[ident as int].version_view(),
                *last,
                old(graph).projects_view()[ident as int].qnames_view(),
                spec@,
                t,
                res,
                final(graph).projects_view()[ident as int].version_view(),
            ),
{
    let now = local_now();
    confirm_version_at(graph, ident, last, spec, &now)
}

/// How `cranko confirm` describes the requirement of an internal
/// dependency.
pub open spec fn spec_requirement_text(d: Dependency) -> Seq<char> {
    match d.cranko_requirement {
        DepRequirement::Commit(_) => match d.resolved_version {
            Some(v) => ">= "@ + render_version(v@),
            None => Seq::empty(),
        },
        DepRequirement::Manual(t) => t@ + " (manual)"@,
        DepRequirement::Unavailable => "** version requirement unavailable **"@,
    }
}

/// Describes the requirement of an internal dependency whose commit
/// requirement, if it has one, has been resolved to a version.
pub fn requirement_text(d: &Dependency) -> (res: String)
    requires
        d.cranko_requirement is Commit ==> d.resolved_version is Some,
        d.resolved_version matches Some(v) ==> v@.wf(),
    ensures
        res@ == spec_requirement_text(*d),
{
    match &d.cranko_requirement {
        DepRequirement::Commit(_) => {
            let v = match &d.resolved_version {
                Some(v) => v,
                None => return owned(""),
            };
            let mut out = str_to_chars(">= ");
            append_chars(&mut out, &str_to_chars(v.to_string().as_str()));
            chars_to_string(&out)
        },
        DepRequirement::Manual(t) => {
            let mut out = str_to_chars(t.as_str());
            append_chars(&mut out, &str_to_chars(" (manual)"));
            chars_to_string(&out)
        },
        DepRequirement::Unavailable => owned("** version requirement unavailable **"),
    }
}

// ---------------------------------------------------------------------------
// `cranko status`

/// A line of `cranko status`: the text before the commit count, the count
/// where it is shown highlighted, and the text after it.
#[derive(Debug)]
pub struct StatusLine {
    pub head: String,
    pub count: Option<usize>,
    pub tail: String,
}

/// The status line of a project named `name` with `n` relevant commits,
/// given the record of its latest release, if any: `(head, count, tail)`.
pub open spec fn spec_status_line(name: Seq<char>, n: nat, latest: Option<(Seq<char>, nat)>) -> (
    Seq<char>,
    Option<nat>,
    Seq<char>,
) {
    match latest {
        Some((version, age)) => if age == 0 {
            if n == 0 {
                (name + ": no relevant commits since "@ + version, None, Seq::empty())
            } else {
                (name + ": "@, Some(n), " relevant commit(s) since "@ + version)
            }
        } else {
            (
                name + ": no more than "@,
                Some(n),
                " relevant commit(s) since "@ + version + " (unable to track in detail)"@,
            )
        },
        None => (
            name + ": "@ + decimal(n) + " relevant commit(s) since start of history (no releases on record)"@,
            None,
            Seq::empty(),
        ),
    }
}

pub open spec fn count_view(c: Option<usize>) -> Option<nat> {
    match c {
        Some(n) => Some(n as nat),
        None => None,
    }
}

/// The version text and age of a release record.
pub open spec fn release_view(r: Option<&ReleasedProjectInfo>) -> Option<(Seq<char>, nat)> {
    match r {
        Some(info) => Some((info.version@, info.age as nat)),
        None => None,
    }
}

fn concat(a: &str, b: &str) -> (res: String)
    ensures
        res@ == a@ + b@,
{
    let mut v = str_to_chars(a);
    append_chars(&mut v, &str_to_chars(b));
    chars_to_string(&v)
}

/// Writes the status line of a project named `name` with `n` relevant
/// commits since the release recorded in `latest`, if any.
pub fn status_line(name: &str, n: usize, latest: Option<&ReleasedProjectInfo>) -> (res: StatusLine)
    ensures
        (res.head@, count_view(res.count), res.tail@) == spec_status_line(name@, n as nat, release_view(latest)),
{
    match latest {
        Some(info) => {
            if info.age == 0 {
                if n == 0 {
                    let head = concat(name, ": no relevant commits since ");
                    StatusLine { head: concat(head.as_str(), info.version.as_str()), count: None, tail: String::new() }
                } else {
                    StatusLine {
                        head: concat(name, ": "),
                        count: Some(n),
                        tail: concat(" relevant commit(s) since ", info.version.as_str()),
                    }
                }
            } else {
                let tail = concat(" relevant commit(s) since ", info.version.as_str());
                StatusLine {
                    head: concat(name, ": no more than "),
                    count: Some(n),
                    tail: concat(tail.as_str(), " (unable to track in detail)"),
                }
            }
        },
        None => {
            let mut v = str_to_chars(name);
            append_chars(&mut v, &str_to_chars(": "));
            append_chars(&mut v, &usize_to_chars(n));
            append_chars(
                &mut v,
                &str_to_chars(" relevant commit(s) since start of history (no releases on record)"),
            );
            StatusLine { head: chars_to_string(&v), count: None, tail: String::new() }
        },
    }
}

// ---------------------------------------------------------------------------
// Reading the working tree's status

/// The flags of a path's entry in the working tree's status that the
/// workflow reads.
#[derive(Debug, Clone, Copy)]
pub struct StatusFlags {
    /// Unmodified, in the index and in the working tree.
    pub current: bool,
    /// In conflict.
    pub conflicted: bool,
    /// Added in the index.
    pub index_new: bool,
    /// Modified in the index.
    pub index_modified: bool,
    /// New in the working tree (untracked).
    pub wt_new: bool,
    /// Modified in the working tree.
    pub wt_modified: bool,
    /// Ignored.
    pub ignored: bool,
}

/// Whether a path with a status entry makes the working tree dirty: it is
/// not unmodified, and no matcher accepts it.
pub open spec fn spec_dirty_entry(matchers: Seq<PathMatcher>, path: Seq<u8>, current: bool) -> bool {
    !current && forall|k: int| 0 <= k < matchers.len() ==> !(#[trigger] matchers[k]).matches(path)
}

/// Decides whether a path with a status entry makes the working tree dirty,
/// where changes to the paths that the matchers accept are allowed.
pub fn is_dirty_entry(matchers: &Vec<PathMatcher>, path: &RepoPath, current: bool) -> (res: bool)
    ensures
        res == spec_dirty_entry(matchers@, path@, current),
{
    if current {
        return false;
    }
    let mut k: usize = 0;
    while k < matchers.len()
        invariant
            k <= matchers@.len(),
            forall|j: int| 0 <= j < k ==> !(#[trigger] matchers@[j]).matches(path@),
        decreases matchers@.len() - k,
    {
        if matchers[k].repo_path_matches(path) {
            return false;
        }
        k = k + 1;
    }
    true
}

/// Finds the first status entry, given by path and whether the path is
/// unchanged, that makes the working tree dirty, and gives its path in the
/// escaped form shown to users; `None` when the tree is clean apart from
/// the paths that the matchers accept.
pub fn first_dirty_path(matchers: &Vec<PathMatcher>, entries: &Vec<(RepoPathBuf, bool)>) -> (res: Option<String>)
    ensures
        match res {
            Some(t) => exists|i: int|
                0 <= i < entries@.len() && spec_dirty_entry(matchers@, (#[trigger] entries@[i]).0@, entries@[i].1)
                    && (forall|j: int| 0 <= j < i ==> !spec_dirty_entry(matchers@, (#[trigger] entries@[j]).0@, entries@[j].1))
                    && t@ == escape_spec(entries@[i].0@),
            None => forall|i: int|
                0 <= i < entries@.len() ==> !spec_dirty_entry(matchers@, (#[trigger] entries@[i]).0@, entries@[i].1),
        },
{
    let mut i: usize = 0;
    while i < entries.len()
        invariant
            i <= entries@.len(),
            forall|j: int| 0 <= j < i ==> !spec_dirty_entry(matchers@, (#[trigger] entries@[j]).0@, entries@[j].1),
        decreases entries@.len() - i,
    {
        let path = entries[i].0.as_repo_path();
        if is_dirty_entry(matchers, path, entries[i].1) {
            return Some(path.escaped());
        }
        i = i + 1;
    }
    None
}

/// What a status entry means when a project's release request is read from
/// its changelog.
#[derive(Debug, Clone, Copy, PartialEq, Eq, Structural)]
pub enum RcScanVerdict {
    /// The entry does not matter.
    Skip,
    /// The project's changelog was modified: it holds a release request.
    Changelog,
    /// The entry makes the project's files dirty.
    Dirty,
}

/// The meaning of a status entry for the path `path` of a project with the
/// path terms `paths` and the changelog matcher `changelog`. Only the
/// project's paths matter. A conflicted changelog is dirty; a new or
/// modified one holds a release request. Any other path that is neither
/// ignored, untracked nor unmodified is dirty, unless that is allowed.
pub open spec fn spec_rc_scan(
    paths: Seq<TermModel>,
    changelog: PathMatcher,
    path: Seq<u8>,
    st: StatusFlags,
    dirty_allowed: bool,
) -> RcScanVerdict {
    if !terms_match(paths, path) {
        RcScanVerdict::Skip
    } else if changelog.matches(path) {
        if st.conflicted {
            RcScanVerdict::Dirty
        } else if st.index_new || st.index_modified || st.wt_new || st.wt_modified {
            RcScanVerdict::Changelog
        } else {
            RcScanVerdict::Skip
        }
    } else if st.ignored || st.wt_new || st.current {
        RcScanVerdict::Skip
    } else if !dirty_allowed {
        RcScanVerdict::Dirty
    } else {
        RcScanVerdict::Skip
    }
}

/// Decides what a status entry means when a project's release request is
/// read from its changelog.
pub fn rc_scan_entry(
    proj: &Project,
    changelog: &PathMatcher,
    path: &RepoPath,
    st: &StatusFlags,
    dirty_allowed: bool,
) -> (res: RcScanVerdict)
    ensures
        res == spec_rc_scan(proj.paths_view(), *changelog, path@, *st, dirty_allowed),
{
    if !proj.path_matches(path) {
        RcScanVerdict::Skip
    } else if changelog.repo_path_matches(path) {
        if st.conflicted {
            RcScanVerdict::Dirty
        } else if st.index_new || st.index_modified || st.wt_new || st.wt_modified {
            RcScanVerdict::Changelog
        } else {
            RcScanVerdict::Skip
        }
    } else if st.ignored || st.wt_new || st.current {
        RcScanVerdict::Skip
    } else if !dirty_allowed {
        RcScanVerdict::Dirty
    } else {
        RcScanVerdict::Skip
    }
}

} // verus!
