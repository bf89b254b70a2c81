//! The decisions of an application session.
//!
//! An application session works on the repository and the project graph.
//! Talking to the repository happens outside this crate; these functions
//! make the decisions in between: what execution environment the process is
//! in, which versions projects get, and how their internal dependencies are
//! resolved.

use vstd::prelude::*;

use crate::errors::Error;
use crate::graph::{same_frame, ProjectGraph};
use crate::project::{DepRequirement, Dependency, ProjectId};
use crate::repository::{
    names_view, CommitAvailability, RcCommitInfo, RcProjectInfo, ReleaseCommitInfo,
    first_with_names, is_first_with_names, lemma_first_with_names, lemma_first_with_names_none,
};
use crate::text::{append_chars, chars_to_string, owned, str_to_chars};
use crate::version::{render_version, spec_bump_scheme, spec_parse_like, zero_model_like, Version, VersionModel};
use crate::version::bump::{apply_fits, local_now, spec_apply, LocalTime};

verus! {

// ---------------------------------------------------------------------------
// The execution environment

/// How the process is running.
#[derive(Debug, PartialEq, Eq, Structural)]
pub enum EnvironmentKind {
    /// Outside CI: an individual development environment.
    NotCi,
    /// In CI, working on a release request; `true` for development mode,
    /// where version numbers are temporary.
    CiRcMode(bool),
    /// In CI, deploying a release commit; `true` for development mode.
    CiReleaseMode(bool),
}

pub open spec fn opt_eq(a: Option<Seq<char>>, b: Seq<char>) -> bool {
    a == Some(b)
}

/// The execution environment, given whether the process runs in CI, whether
/// CI reports a pull request, the branch that triggered CI, the names of the
/// `rc`-like and `release`-like branches, and whether the current branch is
/// the `release`-like one. Pull requests to either branch and updates of the
/// release branch are treated as outside CI, for safety.
pub open spec fn spec_environment(
    ci: bool,
    pr: Option<bool>,
    ci_branch: Option<Seq<char>>,
    rc_name: Seq<char>,
    release_name: Seq<char>,
    current_is_release: bool,
) -> EnvironmentKind {
    if !ci {
        EnvironmentKind::NotCi
    } else if pr == Some(true) && (opt_eq(ci_branch, rc_name) || opt_eq(ci_branch, release_name)) {
        EnvironmentKind::NotCi
    } else if opt_eq(ci_branch, release_name) {
        EnvironmentKind::NotCi
    } else {
        let is_rc_update = opt_eq(ci_branch, rc_name);
        if current_is_release {
            EnvironmentKind::CiReleaseMode(!is_rc_update)
        } else {
            EnvironmentKind::CiRcMode(!is_rc_update)
        }
    }
}

fn same_opt(a: &Option<String>, b: &String) -> (res: bool)
    ensures
        res == opt_eq(
            match a {
                Some(x) => Some(x@),
                None => None,
            },
            b@,
        ),
{
    match a {
        Some(x) => *x == *b,
        None => false,
    }
}

/// Characterizes the environment in which the process runs.
pub fn execution_environment(
    ci: bool,
    pr: Option<bool>,
    ci_branch: &Option<String>,
    rc_name: &String,
    release_name: &String,
    current_is_release: bool,
) -> (res: EnvironmentKind)
    ensures
        res == spec_environment(
            ci,
            pr,
            match ci_branch {
                Some(x) => Some(x@),
                None => None,
            },
            rc_name@,
            release_name@,
            current_is_release,
        ),
{
    if !ci {
        return EnvironmentKind::NotCi;
    }
    let on_rc = same_opt(ci_branch, rc_name);
    let on_release = same_opt(ci_branch, release_name);
    if pr == Some(true) && (on_rc || on_release) {
        return EnvironmentKind::NotCi;
    }
    if on_release {
        return EnvironmentKind::NotCi;
    }
    if current_is_release {
        EnvironmentKind::CiReleaseMode(!on_rc)
    } else {
        EnvironmentKind::CiRcMode(!on_rc)
    }
}

// ---------------------------------------------------------------------------
// Versions and internal dependencies

/// One project needs newer releases of others. The values are the user-facing
/// names of the project and of those it depends on.
#[derive(Debug)]
pub struct UnsatisfiedInternalRequirementError(pub String, pub String);

impl UnsatisfiedInternalRequirementError {
    /// The error's message.
    pub fn message(&self) -> (res: String)
        ensures
            res@ == "unsatisfied internal requirement: `"@ + self.0@ + "` needs newer `"@ + self.1@
                + "`"@,
    {
        let mut v = str_to_chars("unsatisfied internal requirement: `");
        append_chars(&mut v, &str_to_chars(self.0.as_str()));
        append_chars(&mut v, &str_to_chars("` needs newer `"));
        append_chars(&mut v, &str_to_chars(self.1.as_str()));
        append_chars(&mut v, &str_to_chars("`"));
        chars_to_string(&v)
    }
}

/// The release request that a development build assumes: one for every
/// project, with the `dev-datecode` bump, in no commit.
pub open spec fn is_default_dev_rc_info(res: RcCommitInfo, graph: ProjectGraph) -> bool {
    &&& res.commit is None
    &&& res.projects@.len() == graph.projects_view().len()
    &&& forall|i: int|
        0 <= i < res.projects@.len() ==> names_view((#[trigger] res.projects@[i]).qnames@)
            == graph.projects_view()[i].qnames_view() && res.projects@[i].bump_spec@
            == "dev-datecode"@
}

/// A release request for every project, with the `dev-datecode` bump: what
/// a development build assumes.
pub fn default_dev_rc_info(graph: &ProjectGraph) -> (res: RcCommitInfo)
    ensures
        is_default_dev_rc_info(res, *graph),
{
    let mut projects: Vec<RcProjectInfo> = Vec::new();
    let mut i: usize = 0;
    while i < graph.len()
        invariant
            i <= graph.projects_view().len(),
            projects@.len() == i,
            forall|x: int|
                0 <= x < i ==> names_view((#[trigger] projects@[x]).qnames@)
                    == graph.projects_view()[x].qnames_view() && projects@[x].bump_spec@
                    == "dev-datecode"@,
        decreases graph.projects_view().len() - i,
    {
        let proj = graph.lookup(i);
        projects.push(
            RcProjectInfo { qnames: proj.qualified_names().clone(), bump_spec: owned("dev-datecode") },
        );
        i = i + 1;
    }
    RcCommitInfo { commit: None, projects }
}

/// The environment in which the process runs, with the release information
/// that goes with it.
#[derive(Debug)]
pub enum ExecutionEnvironment {
    /// In CI, working on a release request; `true` for development mode,
    /// where version numbers are temporary and nothing is deployed.
    CiRcMode(bool, RcCommitInfo),
    /// In CI, deploying a release commit; `true` for development mode.
    CiReleaseMode(bool, ReleaseCommitInfo),
    /// Outside CI: an individual development environment.
    NotCi,
}

/// Checks that the process runs outside CI; in `force` mode any environment
/// passes.
pub fn ensure_not_ci(env: &ExecutionEnvironment, force: bool) -> (res: Result<(), Error>)
    ensures
        res is Ok <==> (*env is NotCi || force),
        res matches Err(e) ==> e is RefusedWithoutForce,
{
    match env {
        ExecutionEnvironment::NotCi => Ok(()),
        _ => {
            if force {
                Ok(())
            } else {
                Err(Error::RefusedWithoutForce)
            }
        },
    }
}

/// Checks that the process runs in CI on a release commit, and gives the
/// development-mode flag and the release information.
pub fn ensure_ci_release_mode(env: ExecutionEnvironment) -> (res: Result<
    (bool, ReleaseCommitInfo),
    Error,
>)
    ensures
        match env {
            ExecutionEnvironment::CiReleaseMode(dev, ri) => res == Ok::<(bool, ReleaseCommitInfo), Error>(
                (dev, ri),
            ),
            _ => res matches Err(e) && e is NoReleaseInformation,
        },
{
    match env {
        ExecutionEnvironment::CiReleaseMode(dev, ri) => Ok((dev, ri)),
        _ => Err(Error::NoReleaseInformation),
    }
}

/// Checks that the process runs in CI on a release request, and gives the
/// development-mode flag and the request. In `force` mode any other
/// environment is taken as a development build that requests every project.
pub fn ensure_ci_rc_mode(env: ExecutionEnvironment, force: bool, graph: &ProjectGraph) -> (res: Result<
    (bool, RcCommitInfo),
    Error,
>)
    ensures
        match env {
            ExecutionEnvironment::CiRcMode(dev, rci) => res == Ok::<(bool, RcCommitInfo), Error>((dev, rci)),
            _ => if force {
                res matches Ok((dev, rci)) && dev && is_default_dev_rc_info(rci, *graph)
            } else {
                res matches Err(e) && e is RefusedWithoutForce
            },
        },
{
    match env {
        ExecutionEnvironment::CiRcMode(dev, rci) => Ok((dev, rci)),
        _ => {
            if force {
                Ok((true, default_dev_rc_info(graph)))
            } else {
                Err(Error::RefusedWithoutForce)
            }
        },
    }
}

/// How one internal dependency is resolved: the version recorded as
/// satisfying it (`None` when it is left as it is), and whether it cannot be
/// satisfied by this release. A commit requirement is satisfied by the
/// earliest release containing the commit, or by the release being made now
/// when the commit is not yet released but will be; otherwise it is
/// unsatisfied and the dependee's current version is recorded. A manual
/// requirement is left as it is; a missing one is unsatisfied.
pub open spec fn dep_resolution(
    d: Dependency,
    avail: Option<CommitAvailability>,
    new_versions: Seq<Option<Version>>,
    current: VersionModel,
) -> (Option<VersionModel>, bool) {
    match d.cranko_requirement {
        DepRequirement::Commit(_) => match avail {
            Some(CommitAvailability::ExistingRelease(v)) => (Some(v@), false),
            Some(CommitAvailability::NewRelease) => match new_versions[d.ident as int] {
                Some(v) => (Some(v@), false),
                None => (Some(current), true),
            },
            _ => (Some(current), true),
        },
        DepRequirement::Manual(_) => (None, false),
        DepRequirement::Unavailable => (Some(current), true),
    }
}

/// The names of the projects whose requirements are unsatisfied, in the
/// order of the dependencies.
pub open spec fn unsatisfied_names(
    deps: Seq<Dependency>,
    avail: Seq<Option<CommitAvailability>>,
    new_versions: Seq<Option<Version>>,
    ps: Seq<crate::project::Project>,
) -> Seq<Seq<char>>
    decreases deps.len(),
{
    if deps.len() == 0 {
        Seq::empty()
    } else {
        let prev = unsatisfied_names(deps.drop_last(), avail, new_versions, ps);
        let k = deps.len() - 1;
        let d = deps.last();
        if dep_resolution(d, avail[k], new_versions, ps[d.ident as int].version_view()).1 {
            prev.push(ps[d.ident as int].name_view())
        } else {
            prev
        }
    }
}

/// A commit requirement whose commit is already in a release of the
/// dependee is satisfied by that release: the release's version is recorded,
/// and the requirement is never counted as unsatisfied, whatever the other
/// projects' new versions and the dependee's current version are.
pub proof fn law_existing_release_satisfies(
    d: Dependency,
    v: Version,
    new_versions: Seq<Option<Version>>,
    current: VersionModel,
)
    requires
        d.cranko_requirement is Commit,
    ensures
        dep_resolution(d, Some(CommitAvailability::ExistingRelease(v)), new_versions, current).0 == Some(v@),
        !dep_resolution(d, Some(CommitAvailability::ExistingRelease(v)), new_versions, current).1,
{
}

/// A project whose requirements are all commit requirements with commits
/// already released, or manual ones, has no unsatisfied requirement: the
/// list of unsatisfied dependees is empty.
pub proof fn law_released_commits_leave_nothing_unsatisfied(
    deps: Seq<Dependency>,
    avail: Seq<Option<CommitAvailability>>,
    new_versions: Seq<Option<Version>>,
    ps: Seq<crate::project::Project>,
)
    requires
        avail.len() == deps.len(),
        forall|k: int|
            0 <= k < deps.len() ==> (#[trigger] deps[k]).cranko_requirement is Manual || (
            deps[k].cranko_requirement is Commit && avail[k] matches Some(CommitAvailability::ExistingRelease(_))),
    ensures
        unsatisfied_names(deps, avail, new_versions, ps) == Seq::<Seq<char>>::empty(),
{
    lemma_nothing_unsatisfied(deps, avail, new_versions, ps);
}

proof fn lemma_nothing_unsatisfied(
    deps: Seq<Dependency>,
    avail: Seq<Option<CommitAvailability>>,
    new_versions: Seq<Option<Version>>,
    ps: Seq<crate::project::Project>,
)
    requires
        avail.len() >= deps.len(),
        forall|k: int|
            0 <= k < deps.len() ==> (#[trigger] deps[k]).cranko_requirement is Manual || (
            deps[k].cranko_requirement is Commit && avail[k] matches Some(CommitAvailability::ExistingRelease(_))),
    ensures
        unsatisfied_names(deps, avail, new_versions, ps) == Seq::<Seq<char>>::empty(),
    decreases deps.len(),
{
    if deps.len() > 0 {
        let init = deps.drop_last();
        assert forall|k: int|
            0 <= k < init.len() implies (#[trigger] init[k]).cranko_requirement is Manual || (
            init[k].cranko_requirement is Commit && avail[k] matches Some(CommitAvailability::ExistingRelease(_))) by {
            assert(init[k] == deps[k]);
        }
        lemma_nothing_unsatisfied(init, avail, new_versions, ps);
        assert(deps.last() == deps[deps.len() - 1]);
    }
}

pub open spec fn opt_version_model(v: Option<Version>) -> Option<VersionModel> {
    match v {
        Some(x) => Some(x@),
        None => None,
    }
}

fn dup_opt(v: &Option<Version>) -> (res: Option<Version>)
    ensures
        opt_version_model(res) == opt_version_model(*v),
{
    match v {
        Some(x) => Some(x.duplicate()),
        None => None,
    }
}

/// Resolves the internal dependencies of one project, given the
/// availability of each commit requirement (in the order of the project's
/// dependencies) and the versions of the projects released so far in this
/// run. Returns the names of the projects whose requirements cannot be
/// satisfied.
pub fn resolve_internal_deps(
    graph: &mut ProjectGraph,
    ident: ProjectId,
    avail: &Vec<Option<CommitAvailability>>,
    new_versions: &Vec<Option<Version>>,
) -> (res: Vec<String>)
    requires
        ident < old(graph).projects_view().len(),
        avail@.len() == old(graph).projects_view()[ident as int].deps_view().len(),
        new_versions@.len() == old(graph).projects_view().len(),
        forall|k: int| 0 <= k < avail@.len() ==> (#[trigger] avail@[k] matches Some(CommitAvailability::ExistingRelease(v)) ==> v@.wf()),
        forall|k: int| 0 <= k < new_versions@.len() ==> (#[trigger] new_versions@[k] matches Some(v) ==> v@.wf()),
    ensures
        final(graph).projects_view().len() == old(graph).projects_view().len(),
        final(graph).names_view() == old(graph).names_view(),
        final(graph).order_view() == old(graph).order_view(),
        forall|i: int|
            0 <= i < old(graph).projects_view().len() && i != ident ==> final(graph).projects_view()[i]
                == old(graph).projects_view()[i],
        same_frame(final(graph).projects_view()[ident as int], old(graph).projects_view()[ident as int]),
        final(graph).projects_view()[ident as int].version_view() == old(graph).projects_view()[ident as int].version_view(),
        ({
            let od = old(graph).projects_view()[ident as int].deps_view();
            let nd = final(graph).projects_view()[ident as int].deps_view();
            &&& nd.len() == od.len()
            &&& forall|k: int|
                0 <= k < od.len() ==> {
                    let d = #[trigger] nd[k];
                    let r = dep_resolution(
                        od[k],
                        avail@[k],
                        new_versions@,
                        old(graph).projects_view()[od[k].ident as int].version_view(),
                    );
                    &&& d.ident == od[k].ident
                    &&& d.literal == od[k].literal
                    &&& d.cranko_requirement == od[k].cranko_requirement
                    &&& opt_version_model(d.resolved_version) == match r.0 {
                        Some(v) => Some(v),
                        None => opt_version_model(od[k].resolved_version),
                    }
                }
        }),
        crate::pypa::lines_view(res@) == unsatisfied_names(
            old(graph).projects_view()[ident as int].deps_view(),
            avail@,
            new_versions@,
            old(graph).projects_view(),
        ),
{
    let ghost ps0 = graph.projects_view();
    let ghost od = ps0[ident as int].deps_view();
    let nd = graph.lookup(ident).deps().len();
    let mut unsatisfied: Vec<String> = Vec::new();
    let mut k: usize = 0;
    proof {
        assert(od.take(0) =~= Seq::<Dependency>::empty());
        assert(crate::pypa::lines_view(unsatisfied@) =~= Seq::<Seq<char>>::empty());
    }
    while k < nd
        invariant
            k <= nd,
            nd == od.len(),
            ident < ps0.len(),
            od == ps0[ident as int].deps_view(),
            ps0 == old(graph).projects_view(),
            avail@.len() == nd,
            new_versions@.len() == ps0.len(),
            forall|x: int| 0 <= x < avail@.len() ==> (#[trigger] avail@[x] matches Some(CommitAvailability::ExistingRelease(v)) ==> v@.wf()),
            forall|x: int| 0 <= x < new_versions@.len() ==> (#[trigger] new_versions@[x] matches Some(v) ==> v@.wf()),
            graph.projects_view().len() == ps0.len(),
            graph.names_view() == old(graph).names_view(),
            graph.order_view() == old(graph).order_view(),
            forall|i: int| 0 <= i < ps0.len() && i != ident ==> graph.projects_view()[i] == ps0[i],
            same_frame(graph.projects_view()[ident as int], ps0[ident as int]),
            graph.projects_view()[ident as int].version_view() == ps0[ident as int].version_view(),
            graph.projects_view()[ident as int].deps_view().len() == nd,
            forall|x: int|
                0 <= x < nd ==> {
                    let d = #[trigger] graph.projects_view()[ident as int].deps_view()[x];
                    let r = dep_resolution(od[x], avail@[x], new_versions@, ps0[od[x].ident as int].version_view());
                    &&& d.ident == od[x].ident
                    &&& d.literal == od[x].literal
                    &&& d.cranko_requirement == od[x].cranko_requirement
                    &&& opt_version_model(d.resolved_version) == if x < k {
                        match r.0 {
                            Some(v) => Some(v),
                            None => opt_version_model(od[x].resolved_version),
                        }
                    } else {
                        opt_version_model(od[x].resolved_version)
                    }
                },
            crate::pypa::lines_view(unsatisfied@) == unsatisfied_names(od.take(k as int), avail@, new_versions@, ps0),
        decreases nd - k,
    {
        let dep_ident = graph.lookup(ident).deps()[k].ident;
        let ghost dk = od[k as int];
        proof {
            assert(graph.projects_view()[ident as int].deps_view()[k as int].ident == dk.ident);
            assert(dk.ident < ps0.len());
            assert(graph.projects_view()[dep_ident as int].version_view() == ps0[dep_ident as int].version_view()) by {
                if dep_ident != ident {
                    assert(graph.projects_view()[dep_ident as int] == ps0[dep_ident as int]);
                }
            }
            assert(graph.projects_view()[dep_ident as int].name_view() == ps0[dep_ident as int].name_view()) by {
                if dep_ident != ident {
                    assert(graph.projects_view()[dep_ident as int] == ps0[dep_ident as int]);
                }
            }
            assert(od.take(k + 1).drop_last() =~= od.take(k as int));
            assert(od.take(k + 1).last() == dk);
        }
        let is_manual = match &graph.lookup(ident).deps()[k].cranko_requirement {
            DepRequirement::Manual(_) => true,
            _ => false,
        };
        let is_commit = match &graph.lookup(ident).deps()[k].cranko_requirement {
            DepRequirement::Commit(_) => true,
            _ => false,
        };
        proof {
            assert(graph.projects_view()[ident as int].deps_view()[k as int].cranko_requirement == dk.cranko_requirement);
        }
        if !is_manual {
            let current = graph.lookup(dep_ident).version().duplicate();
            let (resolved, unsat): (Version, bool) = if is_commit {
                match &avail[k] {
                    Some(CommitAvailability::ExistingRelease(v)) => (v.duplicate(), false),
                    Some(CommitAvailability::NewRelease) => match &new_versions[dep_ident] {
                        Some(v) => (v.duplicate(), false),
                        None => (current, true),
                    },
                    _ => (current, true),
                }
            } else {
                (current, true)
            };
            if unsat {
                let ghost uv = crate::pypa::lines_view(unsatisfied@);
                let nm = graph.lookup(dep_ident).name().clone();
                unsatisfied.push(nm);
                proof {
                    assert(crate::pypa::lines_view(unsatisfied@) =~= uv.push(nm@));
                }
            }
            let ghost before = graph.projects_view();
            graph.set_dep_resolved_version(ident, k, Some(resolved));
            proof {
                assert forall|x: int| 0 <= x < nd && x != k implies graph.projects_view()[ident as int].deps_view()[x]
                    == before[ident as int].deps_view()[x] by {}
            }
        }
        k = k + 1;
    }
    proof {
        assert(od.take(nd as int) =~= od);
    }
    unsatisfied
}

/// Joins names with commas.
fn join_names(names: &Vec<String>) -> (res: String)
    ensures
        res@ == join_comma(crate::pypa::lines_view(names@)),
{
    let ghost nv = crate::pypa::lines_view(names@);
    let mut out: Vec<char> = Vec::new();
    let mut i: usize = 0;
    proof {
        assert(nv.take(0) =~= Seq::<Seq<char>>::empty());
    }
    while i < names.len()
        invariant
            i <= names@.len(),
            nv == crate::pypa::lines_view(names@),
            out@ == join_comma(nv.take(i as int)),
        decreases names.len() - i,
    {
        proof {
            assert(nv.take(i + 1).drop_last() =~= nv.take(i as int));
            assert(nv.take(i + 1).last() == names@[i as int]@);
        }
        if i > 0 {
            append_chars(&mut out, &str_to_chars(", "));
        }
        append_chars(&mut out, &str_to_chars(names[i].as_str()));
        i = i + 1;
    }
    proof {
        assert(nv.take(nv.len() as int) =~= nv);
    }
    chars_to_string(&out)
}

/// Names joined with `, `.
pub open spec fn join_comma(s: Seq<Seq<char>>) -> Seq<char>
    decreases s.len(),
{
    if s.len() == 0 {
        Seq::empty()
    } else if s.len() == 1 {
        s[0]
    } else {
        join_comma(s.drop_last()) + ", "@ + s.last()
    }
}

/// Concludes one project of the walk over the graph: a project that gets a
/// new release may not have unsatisfied requirements, and its new version
/// becomes available to the projects that depend on it.
pub fn conclude_project(
    graph: &ProjectGraph,
    ident: ProjectId,
    updated: bool,
    unsatisfied: &Vec<String>,
    new_versions: &mut Vec<Option<Version>>,
) -> (res: Result<(), Error>)
    requires
        ident < graph.projects_view().len(),
        old(new_versions)@.len() == graph.projects_view().len(),
    ensures
        final(new_versions)@.len() == old(new_versions)@.len(),
        if updated && unsatisfied@.len() > 0 {
            res matches Err(Error::UnsatisfiedInternalRequirement(p, d)) && p@ == graph.projects_view()[ident as int].name_view()
                && d@ == join_comma(crate::pypa::lines_view(unsatisfied@)) && final(new_versions)@ == old(new_versions)@
        } else if updated {
            res is Ok && forall|i: int| 0 <= i < old(new_versions)@.len() ==> if i == ident {
                opt_version_model(final(new_versions)@[i]) == Some(graph.projects_view()[ident as int].version_view())
            } else {
                final(new_versions)@[i] == old(new_versions)@[i]
            }
        } else {
            res is Ok && final(new_versions)@ == old(new_versions)@
        },
{
    let proj = graph.lookup(ident);
    if updated {
        if unsatisfied.len() > 0 {
            return Err(Error::UnsatisfiedInternalRequirement(proj.name().clone(), join_names(unsatisfied)));
        }
        new_versions.set(ident, Some(proj.version().duplicate()));
    }
    Ok(())
}

/// The version a project starts this release from: that of its latest
/// release, read in the project's version scheme, or the zero version of its
/// scheme when it was never released; `None` where the recorded version
/// cannot be read.
pub open spec fn spec_baseline(v: VersionModel, latest: ReleaseCommitInfo, q: Seq<Seq<char>>) -> Option<
    VersionModel,
> {
    match first_with_names(latest.entry_names(), q) {
        Some(i) => spec_parse_like(v, latest.projects@[i].version@),
        None => Some(zero_model_like(v)),
    }
}

/// What assigning a version at the time `now` gives, for a project with
/// version `v0` and qualified names `q`: the result `res` and the version
/// `v1` that the project has afterwards (stated where the result is `Ok`).
pub open spec fn assign_outcome(
    v0: VersionModel,
    latest: ReleaseCommitInfo,
    rc: RcCommitInfo,
    q: Seq<Seq<char>>,
    now: LocalTime,
    res: Result<bool, Error>,
    v1: VersionModel,
) -> bool {
    match spec_baseline(v0, latest, q) {
        None => res is Err,
        Some(b) => match first_with_names(rc.entry_names(), q) {
            None => res == Ok::<bool, Error>(false) && v1 == b,
            Some(i) => {
                let spec = rc.projects@[i].bump_spec@;
                match spec_bump_scheme(spec) {
                    Err(_) => res matches Err(Error::UnsupportedBumpScheme(t)) && t@ == spec,
                    Ok(scheme) => if !apply_fits(scheme, b) {
                        res matches Err(Error::VersionOverflow(t)) && t@ == spec
                    } else {
                        match spec_apply(scheme, b, now) {
                            Some(nv) => res == Ok::<bool, Error>(true) && v1 == nv,
                            None => res is Err,
                        }
                    },
                }
            },
        },
    }
}

/// Gives a project its version for this release, at the time `now`: the
/// version of its latest release (or the zero version of its scheme, when
/// it was never released), bumped as its release request asks, if there is
/// one. Returns whether the project gets a new release.
pub fn assign_version_at(
    graph: &mut ProjectGraph,
    ident: ProjectId,
    latest: &ReleaseCommitInfo,
    rc: &RcCommitInfo,
    now: &LocalTime,
) -> (res: Result<bool, Error>)
    requires
        ident < old(graph).projects_view().len(),
    ensures
        final(graph).projects_view().len() == old(graph).projects_view().len(),
        final(graph).names_view() == old(graph).names_view(),
        final(graph).order_view() == old(graph).order_view(),
        forall|i: int|
            0 <= i < old(graph).projects_view().len() && i != ident ==> final(graph).projects_view()[i]
                == old(graph).projects_view()[i],
        same_frame(final(graph).projects_view()[ident as int], old(graph).projects_view()[ident as int]),
        final(graph).projects_view()[ident as int].deps_view() == old(graph).projects_view()[ident as int].deps_view(),
        assign_outcome(
            old(graph).projects_view()[ident as int].version_view(),
            *latest,
            *rc,
            old(graph).projects_view()[ident as int].qnames_view(),
            *now,
            res,
            final(graph).projects_view()[ident as int].version_view(),
        ),
{
    let ghost q = graph.projects_view()[ident as int].qnames_view();
    let proj = graph.lookup(ident);
    let baseline = match latest.lookup_project(proj) {
        Some(info) => {
            proof {
                let i = choose|i: int|
                    is_first_with_names(latest.entry_names(), q, i) && *info == latest.projects@[i];
                lemma_first_with_names(latest.entry_names(), q, i);
            }
            match proj.version().parse_like(info.version.as_str()) {
                Ok(v) => v,
                Err(e) => return Err(e),
            }
        },
        None => {
            proof {
                lemma_first_with_names_none(latest.entry_names(), q);
            }
            proj.version().zero_like()
        },
    };
    let request = match rc.lookup_project(proj) {
        Some(r) => {
            proof {
                let i = choose|i: int| is_first_with_names(rc.entry_names(), q, i) && *r == rc.projects@[i];
                lemma_first_with_names(rc.entry_names(), q, i);
            }
            Some(r.bump_spec.clone())
        },
        None => {
            proof {
                lemma_first_with_names_none(rc.entry_names(), q);
            }
            None
        },
    };
    assert(baseline@.wf()) by {
        lemma_zero_like_wf(graph.projects_view()[ident as int].version_view());
    }
    graph.set_version(ident, baseline.duplicate());
    match request {
        None => Ok(false),
        Some(spec) => {
            let scheme = match baseline.parse_bump_scheme(spec.as_str()) {
                Ok(s) => s,
                Err(_) => return Err(Error::UnsupportedBumpScheme(spec)),
            };
            if !scheme.fits(&baseline) {
                return Err(Error::VersionOverflow(spec));
            }
            let mut v = baseline;
            match scheme.apply_at(&mut v, now) {
                Ok(()) => {},
                Err(e) => return Err(e),
            }
            graph.set_version(ident, v);
            Ok(true)
        },
    }
}

/// Gives a project its version for this release, at the current local time:
/// see `assign_version_at`. Returns whether the project gets a new release.
pub fn assign_version(
    graph: &mut ProjectGraph,
    ident: ProjectId,
    latest: &ReleaseCommitInfo,
    rc: &RcCommitInfo,
) -> (res: Result<bool, Error>)
    requires
        ident < old(graph).projects_view().len(),
    ensures
        final(graph).projects_view().len() == old(graph).projects_view().len(),
        final(graph).names_view() == old(graph).names_view(),
        final(graph).order_view() == old(graph).order_view(),
        forall|i: int|
            0 <= i < old(graph).projects_view().len() && i != ident ==> final(graph).projects_view()[i]
                == old(graph).projects_view()[i],
        same_frame(final(graph).projects_view()[ident as int], old(graph).projects_view()[ident as int]),
        final(graph).projects_view()[ident as int].deps_view() == old(graph).projects_view()[ident as int].deps_view(),
        exists|t: LocalTime|
            1 <= t.month <= 12 && 1 <= t.day <= 31 && #[trigger] assign_outcome(
                old(graph).projects_view()[ident as int].version_view(),
                *latest,
                *rc,
                old(graph).projects_view()[ident as int].qnames_view(),
                t,
                res,
                final(graph).projects_view()[ident as int].version_view(),
            ),
{
    let now = local_now();
    assign_version_at(graph, ident, latest, rc, &now)
}

proof fn lemma_zero_like_wf(v: VersionModel)
    ensures
        crate::version::zero_model_like(v).wf(),
{
}

/// Makes every internal dependency an exact requirement on the current
/// version of the project depended on, as some packaging tools need.
pub fn fake_internal_deps(graph: &mut ProjectGraph)
    ensures
        final(graph).projects_view().len() == old(graph).projects_view().len(),
        final(graph).names_view() == old(graph).names_view(),
        final(graph).order_view() == old(graph).order_view(),
        forall|i: int|
            0 <= i < old(graph).projects_view().len() ==> {
                let p = #[trigger] final(graph).projects_view()[i];
                let o = old(graph).projects_view()[i];
                &&& same_frame(p, o)
                &&& p.version_view() == o.version_view()
                &&& p.deps_view().len() == o.deps_view().len()
                &&& forall|k: int|
                    0 <= k < p.deps_view().len() ==> {
                        let d = #[trigger] p.deps_view()[k];
                        let v = old(graph).projects_view()[o.deps_view()[k].ident as int].version_view();
                        &&& d.ident == o.deps_view()[k].ident
                        &&& d.literal == o.deps_view()[k].literal
                        &&& (d.cranko_requirement matches DepRequirement::Manual(t) && t@ == render_version(v))
                        &&& opt_version_model(d.resolved_version) == Some(v)
                    }
            },
{
    let ghost ps0 = graph.projects_view();
    let n = graph.len();
    let mut i: usize = 0;
    while i < n
        invariant
            i <= n,
            n == ps0.len(),
            ps0 == old(graph).projects_view(),
            graph.projects_view().len() == n,
            graph.names_view() == old(graph).names_view(),
            graph.order_view() == old(graph).order_view(),
            forall|x: int| i <= x < n ==> #[trigger] graph.projects_view()[x] == ps0[x],
            forall|x: int|
                0 <= x < n ==> #[trigger] graph.projects_view()[x].version_view() == ps0[x].version_view(),
            forall|x: int|
                0 <= x < i ==> {
                    let p = #[trigger] graph.projects_view()[x];
                    let o = ps0[x];
                    &&& same_frame(p, o)
                    &&& p.deps_view().len() == o.deps_view().len()
                    &&& forall|k: int|
                        0 <= k < p.deps_view().len() ==> {
                            let d = #[trigger] p.deps_view()[k];
                            let v = ps0[o.deps_view()[k].ident as int].version_view();
                            &&& d.ident == o.deps_view()[k].ident
                            &&& d.literal == o.deps_view()[k].literal
                            &&& (d.cranko_requirement matches DepRequirement::Manual(t) && t@ == render_version(v))
                            &&& opt_version_model(d.resolved_version) == Some(v)
                        }
                },
        decreases n - i,
    {
        let nd = graph.lookup(i).deps().len();
        let mut k: usize = 0;
        while k < nd
            invariant
                k <= nd,
                i < n,
                n == ps0.len(),
                graph.projects_view().len() == n,
                nd == ps0[i as int].deps_view().len(),
                graph.names_view() == old(graph).names_view(),
                graph.order_view() == old(graph).order_view(),
                forall|x: int| i < x < n ==> #[trigger] graph.projects_view()[x] == ps0[x],
                forall|x: int|
                    0 <= x < n ==> #[trigger] graph.projects_view()[x].version_view() == ps0[x].version_view(),
                forall|x: int|
                    0 <= x < i ==> {
                        let p = #[trigger] graph.projects_view()[x];
                        let o = ps0[x];
                        &&& same_frame(p, o)
                        &&& p.deps_view().len() == o.deps_view().len()
                        &&& forall|kk: int|
                            0 <= kk < p.deps_view().len() ==> {
                                let d = #[trigger] p.deps_view()[kk];
                                let v = ps0[o.deps_view()[kk].ident as int].version_view();
                                &&& d.ident == o.deps_view()[kk].ident
                                &&& d.literal == o.deps_view()[kk].literal
                                &&& (d.cranko_requirement matches DepRequirement::Manual(t) && t@ == render_version(v))
                                &&& opt_version_model(d.resolved_version) == Some(v)
                            }
                    },
                same_frame(graph.projects_view()[i as int], ps0[i as int]),
                graph.projects_view()[i as int].deps_view().len() == nd,
                forall|m: int|
                    0 <= m < nd ==> {
                        let d = #[trigger] graph.projects_view()[i as int].deps_view()[m];
                        let od = ps0[i as int].deps_view()[m];
                        let v = ps0[od.ident as int].version_view();
                        &&& d.ident == od.ident
                        &&& d.literal == od.literal
                        &&& (m < k ==> (d.cranko_requirement matches DepRequirement::Manual(t) && t@ == render_version(v))
                            && opt_version_model(d.resolved_version) == Some(v))
                        &&& (m >= k ==> d == od)
                    },
            decreases nd - k,
        {
            let target = graph.lookup(i).deps()[k].ident;
            proof {
                assert(graph.projects_view()[i as int].deps_view()[k as int] == ps0[i as int].deps_view()[k as int]);
                assert(graph.projects_view()[target as int].version_view() == ps0[target as int].version_view());
            }
            let v = graph.lookup(target).version().duplicate();
            let text = v.to_string();
            let ghost b1 = graph.projects_view();
            graph.set_dep_requirement(i, k, DepRequirement::Manual(text));
            let ghost b2 = graph.projects_view();
            graph.set_dep_resolved_version(i, k, Some(v));
            proof {
                assert forall|x: int| 0 <= x < n implies #[trigger] graph.projects_view()[x].version_view() == ps0[x].version_view() by {
                    if x != i {
                        assert(graph.projects_view()[x] == b1[x]);
                    }
                }
                assert forall|m: int| 0 <= m < nd && m != k implies graph.projects_view()[i as int].deps_view()[m]
                    == b1[i as int].deps_view()[m] by {}
            }
            k = k + 1;
        }
        i = i + 1;
    }
}

} // verus!
