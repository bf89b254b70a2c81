//! Bootstrapping Cranko on a preexisting repository.
//!
//! Bootstrapping records the current version of every project, resets the
//! versions in the project files to development values with exact internal
//! requirements, and then records the requirements as they were.

use vstd::prelude::*;

use crate::errors::Error;
use crate::graph::{same_frame, ProjectGraph};
use crate::project::{DepRequirement, Dependency, Project, ProjectId};
use crate::repository::{escape_spec, names_view, RepoPathBuf};
use crate::text::{append_chars, chars_to_string, owned, str_to_chars};
use crate::version::{dev_value, render_version, Version, VersionModel};

verus! {

/// The bootstrap state: the versions that the projects had.
#[derive(Debug, Default)]
pub struct BootstrapConfiguration {
    pub project: Vec<BootstrapProjectInfo>,
}

/// The bootstrap state of one project.
#[derive(Debug)]
pub struct BootstrapProjectInfo {
    pub qnames: Vec<String>,
    pub version: String,
    pub release_commit: Option<String>,
}

/// The `bootstrap` command's options.
#[derive(Debug)]
pub struct BootstrapCommand {
    /// Force operation even in unexpected conditions.
    pub force: bool,
    /// The name of the Git upstream remote.
    pub upstream_name: Option<String>,
}

/// How a project's location is described: the root directory, or its prefix
/// in backquotes.
pub open spec fn location_text(prefix: Seq<u8>) -> Seq<char> {
    if prefix.len() == 0 {
        "the root directory"@
    } else {
        "`"@ + escape_spec(prefix) + "`"@
    }
}

/// Describes a project's location.
pub fn location_description(prefix: &RepoPathBuf) -> (res: String)
    ensures
        res@ == location_text(prefix@),
{
    if prefix.as_repo_path().len() == 0 {
        owned("the root directory")
    } else {
        let mut v = str_to_chars("`");
        append_chars(&mut v, &str_to_chars(prefix.as_repo_path().escaped().as_str()));
        append_chars(&mut v, &str_to_chars("`"));
        chars_to_string(&v)
    }
}

/// The line that reports a detected project: its name, version and location.
pub fn project_summary(proj: &Project) -> (res: String)
    requires
        proj.version_view().wf(),
    ensures
        res@ == "    "@ + proj.name_view() + " @ "@ + render_version(proj.version_view()) + " in "@
            + location_text(proj.prefix_view()),
{
    let mut v = str_to_chars("    ");
    append_chars(&mut v, &str_to_chars(proj.name().as_str()));
    append_chars(&mut v, &str_to_chars(" @ "));
    append_chars(&mut v, &str_to_chars(proj.version().to_string().as_str()));
    append_chars(&mut v, &str_to_chars(" in "));
    append_chars(&mut v, &str_to_chars(location_description(proj.prefix()).as_str()));
    chars_to_string(&v)
}

/// Resetting twice is resetting once.
pub proof fn lemma_dev_value_idempotent(v: VersionModel)
    ensures
        dev_value(dev_value(v)) == dev_value(v),
{
}

/// The development value of a version is well formed.
pub proof fn lemma_dev_value_wf(v: VersionModel)
    ensures
        dev_value(v).wf(),
{
}

/// Whether the dependencies of a project were given exact development-mode
/// requirements: each on the development version of the project depended on.
pub open spec fn dev_requirements(new_deps: Seq<Dependency>, old_deps: Seq<Dependency>, old_ps: Seq<Project>) -> bool {
    &&& new_deps.len() == old_deps.len()
    &&& forall|k: int|
        0 <= k < new_deps.len() ==> {
            let d = #[trigger] new_deps[k];
            &&& d.ident == old_deps[k].ident
            &&& d.literal == old_deps[k].literal
            &&& d.resolved_version == old_deps[k].resolved_version
            &&& (d.cranko_requirement matches DepRequirement::Manual(t) && t@ == render_version(
                dev_value(old_ps[old_deps[k].ident as int].version_view()),
            ))
        }
}

/// Resets every project, in topological order, to its development version
/// and gives each internal dependency an exact requirement on the
/// development version of the project depended on. Returns the versions the
/// projects had, in that order.
pub fn bootstrap_reset(graph: &mut ProjectGraph) -> (res: BootstrapConfiguration)
    ensures
        final(graph).projects_view().len() == old(graph).projects_view().len(),
        final(graph).names_view() == old(graph).names_view(),
        final(graph).order_view() == old(graph).order_view(),
        forall|i: int|
            0 <= i < old(graph).projects_view().len() ==> {
                let p = #[trigger] final(graph).projects_view()[i];
                let o = old(graph).projects_view()[i];
                &&& same_frame(p, o)
                &&& p.version_view() == dev_value(o.version_view())
                &&& dev_requirements(p.deps_view(), o.deps_view(), old(graph).projects_view())
            },
        res.project@.len() == old(graph).order_view().len(),
        forall|j: int|
            0 <= j < res.project@.len() ==> {
                let info = #[trigger] res.project@[j];
                let o = old(graph).projects_view()[old(graph).order_view()[j] as int];
                &&& names_view(info.qnames@) == o.qnames_view()
                &&& info.version@ == render_version(o.version_view())
                &&& info.release_commit is None
            },
{
    let ghost ps0 = graph.projects_view();
    let order: Vec<ProjectId> = graph.toposorted_ids();
    let n = graph.len();
    // Record the versions as they are, in topological order.
    let mut cfg = BootstrapConfiguration { project: Vec::new() };
    let mut j: usize = 0;
    while j < order.len()
        invariant
            order@ == old(graph).order_view(),
            forall|k: int| 0 <= k < order@.len() ==> #[trigger] order@[k] < n,
            n == ps0.len(),
            ps0 == graph.projects_view(),
            ps0 == old(graph).projects_view(),
            cfg.project@.len() == j,
            j <= order@.len(),
            forall|x: int|
                0 <= x < j ==> {
                    let info = #[trigger] cfg.project@[x];
                    let o = ps0[order@[x] as int];
                    &&& names_view(info.qnames@) == o.qnames_view()
                    &&& info.version@ == render_version(o.version_view())
                    &&& info.release_commit is None
                },
        decreases order.len() - j,
    {
        let proj = graph.lookup(order[j]);
        cfg.project.push(
            BootstrapProjectInfo {
                qnames: proj.qualified_names().clone(),
                version: proj.version().to_string(),
                release_commit: None,
            },
        );
        j = j + 1;
    }
    // Reset every project. A project depended on may be reset already; its
    // development value is the same either way.
    let mut i: usize = 0;
    while i < n
        invariant
            i <= n,
            n == ps0.len(),
            ps0 == old(graph).projects_view(),
            graph.projects_view().len() == n,
            graph.names_view() == old(graph).names_view(),
            graph.order_view() == old(graph).order_view(),
            forall|x: int| i <= x < n ==> #[trigger] graph.projects_view()[x] == ps0[x],
            forall|x: int|
                0 <= x < i ==> {
                    let p = #[trigger] graph.projects_view()[x];
                    let o = ps0[x];
                    &&& same_frame(p, o)
                    &&& p.version_view() == dev_value(o.version_view())
                    &&& dev_requirements(p.deps_view(), o.deps_view(), ps0)
                },
        decreases n - i,
    {
        let proj = graph.lookup(i);
        let mut dv = proj.version().duplicate();
        dv.set_to_dev_value();
        let nd = proj.deps().len();
        proof {
            lemma_dev_value_wf(ps0[i as int].version_view());
            assert(graph.projects_view()[i as int] == ps0[i as int]);
        }
        graph.set_version(i, dv);
        let mut k: usize = 0;
        while k < nd
            invariant
                k <= nd,
                i < n,
                n == ps0.len(),
                graph.projects_view().len() == n,
                nd == ps0[i as int].deps_view().len(),
                graph.names_view() == old(graph).names_view(),
                graph.order_view() == old(graph).order_view(),
                forall|x: int| i < x < n ==> #[trigger] graph.projects_view()[x] == ps0[x],
                forall|x: int|
                    0 <= x < i ==> {
                        let p = #[trigger] graph.projects_view()[x];
                        let o = ps0[x];
                        &&& same_frame(p, o)
                        &&& p.version_view() == dev_value(o.version_view())
                        &&& dev_requirements(p.deps_view(), o.deps_view(), ps0)
                    },
                same_frame(graph.projects_view()[i as int], ps0[i as int]),
                graph.projects_view()[i as int].version_view() == dev_value(ps0[i as int].version_view()),
                graph.projects_view()[i as int].deps_view().len() == nd,
                forall|m: int|
                    0 <= m < nd ==> {
                        let d = #[trigger] graph.projects_view()[i as int].deps_view()[m];
                        let od = ps0[i as int].deps_view()[m];
                        &&& d.ident == od.ident
                        &&& d.literal == od.literal
                        &&& d.resolved_version == od.resolved_version
                        &&& (m < k ==> (d.cranko_requirement matches DepRequirement::Manual(t) && t@
                            == render_version(dev_value(ps0[od.ident as int].version_view()))))
                    },
            decreases nd - k,
        {
            let target = graph.lookup(i).deps()[k].ident;
            let ghost tg = target as int;
            proof {
                assert(graph.projects_view()[i as int].deps_view()[k as int].ident == ps0[i as int].deps_view()[k as int].ident);
                assert(graph.projects_view()[tg].version_view() == ps0[tg].version_view()
                    || graph.projects_view()[tg].version_view() == dev_value(ps0[tg].version_view())) by {
                    if tg < i {
                        assert(same_frame(graph.projects_view()[tg], ps0[tg]));
                    } else if tg > i {
                        assert(graph.projects_view()[tg] == ps0[tg]);
                    }
                }
                lemma_dev_value_idempotent(ps0[tg].version_view());
                lemma_dev_value_wf(ps0[tg].version_view());
            }
            let mut tv = graph.lookup(target).version().duplicate();
            tv.set_to_dev_value();
            let text = tv.to_string();
            let ghost before = graph.projects_view();
            graph.set_dep_requirement(i, k, DepRequirement::Manual(text));
            proof {
                assert forall|m: int| 0 <= m < nd implies {
                    let d = #[trigger] graph.projects_view()[i as int].deps_view()[m];
                    let od = ps0[i as int].deps_view()[m];
                    &&& d.ident == od.ident
                    &&& d.literal == od.literal
                    &&& d.resolved_version == od.resolved_version
                    &&& (m < k + 1 ==> (d.cranko_requirement matches DepRequirement::Manual(t) && t@
                        == render_version(dev_value(ps0[od.ident as int].version_view()))))
                } by {
                    if m != k {
                        assert(graph.projects_view()[i as int].deps_view()[m] == before[i as int].deps_view()[m]);
                    }
                }
            }
            k = k + 1;
        }
        proof {
            assert(dev_requirements(graph.projects_view()[i as int].deps_view(), ps0[i as int].deps_view(), ps0));
        }
        i = i + 1;
    }
    cfg
}

/// Gives every internal dependency a manual requirement equal to its literal
/// expression, so that the requirements stated before bootstrapping are
/// recorded.
pub fn restore_literal_requirements(graph: &mut ProjectGraph)
    ensures
        final(graph).projects_view().len() == old(graph).projects_view().len(),
        final(graph).names_view() == old(graph).names_view(),
        final(graph).order_view() == old(graph).order_view(),
        forall|i: int|
            0 <= i < old(graph).projects_view().len() ==> {
                let p = #[trigger] final(graph).projects_view()[i];
                let o = old(graph).projects_view()[i];
                &&& same_frame(p, o)
                &&& p.version_view() == o.version_view()
                &&& p.deps_view().len() == o.deps_view().len()
                &&& forall|k: int|
                    0 <= k < p.deps_view().len() ==> (#[trigger] p.deps_view()[k]).ident == o.deps_view()[k].ident
                        && p.deps_view()[k].literal == o.deps_view()[k].literal
                        && p.deps_view()[k].resolved_version == o.deps_view()[k].resolved_version
                        && p.deps_view()[k].cranko_requirement == DepRequirement::Manual(o.deps_view()[k].literal)
            },
{
    let ghost ps0 = graph.projects_view();
    let n = graph.len();
    let mut i: usize = 0;
    while i < n
        invariant
            i <= n,
            n == ps0.len(),
            ps0 == old(graph).projects_view(),
            graph.projects_view().len() == n,
            graph.names_view() == old(graph).names_view(),
            graph.order_view() == old(graph).order_view(),
            forall|x: int| i <= x < n ==> #[trigger] graph.projects_view()[x] == ps0[x],
            forall|x: int|
                0 <= x < i ==> {
                    let p = #[trigger] graph.projects_view()[x];
                    let o = ps0[x];
                    &&& same_frame(p, o)
                    &&& p.version_view() == o.version_view()
                    &&& p.deps_view().len() == o.deps_view().len()
                    &&& forall|k: int|
                        0 <= k < p.deps_view().len() ==> (#[trigger] p.deps_view()[k]).ident == o.deps_view()[k].ident
                            && p.deps_view()[k].literal == o.deps_view()[k].literal
                            && p.deps_view()[k].resolved_version == o.deps_view()[k].resolved_version
                            && p.deps_view()[k].cranko_requirement == DepRequirement::Manual(
                            o.deps_view()[k].literal,
                        )
                },
        decreases n - i,
    {
        let nd = graph.lookup(i).deps().len();
        let mut k: usize = 0;
        while k < nd
            invariant
                k <= nd,
                i < n,
                n == ps0.len(),
                graph.projects_view().len() == n,
                nd == ps0[i as int].deps_view().len(),
                graph.names_view() == old(graph).names_view(),
                graph.order_view() == old(graph).order_view(),
                forall|x: int| i < x < n ==> #[trigger] graph.projects_view()[x] == ps0[x],
                forall|x: int|
                    0 <= x < i ==> {
                        let p = #[trigger] graph.projects_view()[x];
                        let o = ps0[x];
                        &&& same_frame(p, o)
                        &&& p.version_view() == o.version_view()
                        &&& p.deps_view().len() == o.deps_view().len()
                        &&& forall|kk: int|
                            0 <= kk < p.deps_view().len() ==> (#[trigger] p.deps_view()[kk]).ident == o.deps_view()[kk].ident
                                && p.deps_view()[kk].literal == o.deps_view()[kk].literal
                                && p.deps_view()[kk].resolved_version == o.deps_view()[kk].resolved_version
                                && p.deps_view()[kk].cranko_requirement == DepRequirement::Manual(
                                o.deps_view()[kk].literal,
                            )
                    },
                same_frame(graph.projects_view()[i as int], ps0[i as int]),
                graph.projects_view()[i as int].version_view() == ps0[i as int].version_view(),
                graph.projects_view()[i as int].deps_view().len() == nd,
                forall|m: int| 0 <= m < nd ==> (#[trigger] graph.projects_view()[i as int].deps_view()[m]).ident
                    == ps0[i as int].deps_view()[m].ident && graph.projects_view()[i as int].deps_view()[m].literal
                    == ps0[i as int].deps_view()[m].literal
                    && graph.projects_view()[i as int].deps_view()[m].resolved_version
                    == ps0[i as int].deps_view()[m].resolved_version,
                forall|m: int| 0 <= m < k ==> (#[trigger] graph.projects_view()[i as int].deps_view()[m]).cranko_requirement
                    == DepRequirement::Manual(ps0[i as int].deps_view()[m].literal),
                forall|m: int| k <= m < nd ==> (#[trigger] graph.projects_view()[i as int].deps_view()[m])
                    == ps0[i as int].deps_view()[m],
            decreases nd - k,
        {
            let lit = graph.lookup(i).deps()[k].literal.clone();
            graph.set_dep_requirement(i, k, DepRequirement::Manual(lit));
            k = k + 1;
        }
        i = i + 1;
    }
}

} // verus!
