//! Cargo projects.
//!
//! Cargo projects are described by `cargo metadata`, run on the top-level
//! `Cargo.toml` of the repository. Their `Cargo.toml` files are rewritten
//! with new versions and internal dependency requirements on release.

use vstd::prelude::*;

use crate::config::{config_ignores, ProjectConfiguration};
use crate::errors::Error;
use crate::graph::{full_name, index_limit, ProjectGraph, ProjectGraphBuilder};
use crate::project::{DepRequirement, Dependency, Project, ProjectBuilder, ProjectId, Rewriter};
use crate::version::semantic::SemverVersion;
use crate::repository::{
    basename_start, is_prefix, hex_digit, hex_value, names_view, nibble, oid_hex, spec_commit_ref, spec_parse_oid, CommitRef, RepoPath,
    RepoPathBuf,
};
use crate::text::{append_chars, chars_to_string, occurs_at, owned, str_to_chars};
use crate::version::{render_version, Version, VersionModel};
use vstd::string::StringSliceAdditionalSpecFns;

verus! {

// ---------------------------------------------------------------------------
// Discovering projects

/// The length of the longest common prefix of two byte strings, from
/// position `i` on.
pub open spec fn common_prefix_from(a: Seq<u8>, b: Seq<u8>, i: int) -> int
    decreases a.len() - i,
{
    if i < 0 || i >= a.len() || i >= b.len() || a[i] != b[i] {
        i
    } else {
        common_prefix_from(a, b, i + 1)
    }
}

/// The length of the longest common prefix of two byte strings.
pub open spec fn common_prefix_len(a: Seq<u8>, b: Seq<u8>) -> int {
    common_prefix_from(a, b, 0)
}

proof fn lemma_common_prefix_from(a: Seq<u8>, b: Seq<u8>, i: int)
    requires
        0 <= i <= a.len(),
        i <= b.len(),
    ensures
        i <= common_prefix_from(a, b, i) <= a.len(),
        common_prefix_from(a, b, i) <= b.len(),
    decreases a.len() - i,
{
    if i < a.len() && i < b.len() && a[i] == b[i] {
        lemma_common_prefix_from(a, b, i + 1);
    }
}

/// Framework for auto-loading Cargo projects from the repository contents.
/// All it records is the directory of the top-level `Cargo.toml`: the
/// longest common prefix of the directories of all `Cargo.toml` files.
#[derive(Debug)]
pub struct CargoLoader {
    shortest_toml_dirname: Option<RepoPathBuf>,
}

impl CargoLoader {
    pub closed spec fn dirname_view(&self) -> Option<Seq<u8>> {
        match self.shortest_toml_dirname {
            Some(d) => Some(d@),
            None => None,
        }
    }

    /// A loader that has seen nothing yet.
    pub fn new() -> (res: CargoLoader)
        ensures
            res.dirname_view() is None,
    {
        CargoLoader { shortest_toml_dirname: None }
    }

    /// Processes one entry of the repository index: each `Cargo.toml` file
    /// shortens the recorded directory to what it has in common with the
    /// file's directory.
    pub fn process_index_item(&mut self, dirname: &RepoPath, basename: &RepoPath)
        ensures
            final(self).dirname_view() == if basename@ != "Cargo.toml".spec_bytes() {
                old(self).dirname_view()
            } else {
                match old(self).dirname_view() {
                    Some(p) => Some(p.take(common_prefix_len(p, dirname@))),
                    None => Some(dirname@),
                }
            },
            final(self).dirname_view() == toml_dir_after(old(self).dirname_view(), seq![(dirname@, basename@)]),
    {
        proof {
            lemma_toml_dir_one(self.dirname_view(), (dirname@, basename@));
        }
        if !crate::repository::bytes_equal(basename.as_bytes(), "Cargo.toml".as_bytes()) {
            return;
        }
        match &mut self.shortest_toml_dirname {
            Some(prev) => {
                let ghost pv = prev@;
                let bytes0 = ((prev.0).0).as_slice();
                let bytes1 = dirname.as_bytes();
                let mut len: usize = 0;
                while len < bytes0.len() && len < bytes1.len() && bytes0[len] == bytes1[len]
                    invariant
                        len <= bytes0@.len(),
                        len <= bytes1@.len(),
                        bytes0@ == pv,
                        bytes1@ == dirname@,
                        common_prefix_len(pv, dirname@) == common_prefix_from(pv, dirname@, len as int),
                    decreases bytes0.len() - len,
                {
                    len = len + 1;
                }
                proof {
                    lemma_common_prefix_from(pv, dirname@, len as int);
                    assert(pv.subrange(0, len as int) =~= pv.take(len as int));
                }
                prev.truncate(len);
            },
            None => {
                self.shortest_toml_dirname = Some(dirname.to_owned());
            },
        }
    }

    /// The directory of the top-level `Cargo.toml`, if any was found.
    pub fn shortest_toml_dirname(&self) -> (res: Option<&RepoPathBuf>)
        ensures
            match res {
                Some(d) => self.dirname_view() == Some(d@),
                None => self.dirname_view() is None,
            },
    {
        match &self.shortest_toml_dirname {
            Some(d) => Some(d),
            None => None,
        }
    }
}

/// The directory that the indexer records after the index entries
/// `(directory, base name)`, starting from `start`.
pub open spec fn toml_dir_after(start: Option<Seq<u8>>, items: Seq<(Seq<u8>, Seq<u8>)>) -> Option<Seq<u8>>
    decreases items.len(),
{
    if items.len() == 0 {
        start
    } else {
        let prev = toml_dir_after(start, items.drop_last());
        let (d, b) = items.last();
        if b != "Cargo.toml".spec_bytes() {
            prev
        } else {
            match prev {
                Some(p) => Some(p.take(common_prefix_len(p, d))),
                None => Some(d),
            }
        }
    }
}

proof fn lemma_common_prefix_agrees(a: Seq<u8>, b: Seq<u8>, i: int)
    requires
        0 <= i <= a.len(),
        i <= b.len(),
        forall|j: int| 0 <= j < i ==> a[j] == b[j],
    ensures
        forall|j: int| 0 <= j < common_prefix_from(a, b, i) ==> a[j] == b[j],
        i <= common_prefix_from(a, b, i) <= a.len(),
        common_prefix_from(a, b, i) <= b.len(),
    decreases a.len() - i,
{
    if i < a.len() && i < b.len() && a[i] == b[i] {
        lemma_common_prefix_agrees(a, b, i + 1);
    }
}

/// Indexing one entry after others is indexing the longer list.
proof fn lemma_toml_dir_step(start: Option<Seq<u8>>, items: Seq<(Seq<u8>, Seq<u8>)>, x: (Seq<u8>, Seq<u8>))
    ensures
        toml_dir_after(toml_dir_after(start, items), seq![x]) == toml_dir_after(start, items.push(x)),
{
    lemma_toml_dir_one(toml_dir_after(start, items), x);
    assert(items.push(x).drop_last() =~= items);
    assert(items.push(x).last() == x);
}

/// Indexing a single entry.
proof fn lemma_toml_dir_one(start: Option<Seq<u8>>, x: (Seq<u8>, Seq<u8>))
    ensures
        toml_dir_after(start, seq![x]) == if x.1 != "Cargo.toml".spec_bytes() {
            start
        } else {
            match start {
                Some(p) => Some(p.take(common_prefix_len(p, x.0))),
                None => Some(x.0),
            }
        },
{
    let one = seq![x];
    assert(one.drop_last() =~= Seq::<(Seq<u8>, Seq<u8>)>::empty());
    assert(toml_dir_after(start, Seq::<(Seq<u8>, Seq<u8>)>::empty()) == start);
    assert(one.last() == x);
}

proof fn lemma_series_prefix(states: Seq<Option<Seq<u8>>>, items: Seq<(Seq<u8>, Seq<u8>)>, k: int)
    requires
        0 <= k <= items.len(),
        states.len() == items.len() + 1,
        states[0] is None,
        forall|j: int|
            0 <= j < items.len() ==> states[j + 1] == toml_dir_after(#[trigger] states[j], seq![items[j]]),
    ensures
        states[k] == toml_dir_after(None, items.take(k)),
    decreases k,
{
    if k == 0 {
        assert(items.take(0) =~= Seq::<(Seq<u8>, Seq<u8>)>::empty());
    } else {
        lemma_series_prefix(states, items, k - 1);
        lemma_toml_dir_step(None, items.take(k - 1), items[k - 1]);
        assert(items.take(k - 1).push(items[k - 1]) =~= items.take(k));
        assert(states[(k - 1) + 1] == toml_dir_after(states[k - 1], seq![items[k - 1]]));
    }
}

/// A loader that starts empty and is handed the index entries one by one,
/// each call of `process_index_item` taking `states[k]` to `states[k + 1]`,
/// ends with no directory exactly when no entry is a `Cargo.toml`, and
/// otherwise with the longest common prefix of the directories of all the
/// `Cargo.toml` entries: a prefix of each of them, and one that any prefix
/// `q` shared by all of them is a prefix of.
pub proof fn law_index_series_gives_longest_common_prefix(
    states: Seq<Option<Seq<u8>>>,
    items: Seq<(Seq<u8>, Seq<u8>)>,
    q: Seq<u8>,
)
    requires
        states.len() == items.len() + 1,
        states[0] is None,
        forall|k: int|
            0 <= k < items.len() ==> states[k + 1] == toml_dir_after(#[trigger] states[k], seq![items[k]]),
    ensures
        states.last() == toml_dir_after(None, items),
        states.last() is None <==> forall|k: int|
            0 <= k < items.len() ==> (#[trigger] items[k]).1 != "Cargo.toml".spec_bytes(),
        forall|k: int|
            0 <= k < items.len() && (#[trigger] items[k]).1 == "Cargo.toml".spec_bytes() ==> (states.last() matches Some(
                p,
            ) && is_prefix(p, items[k].0)),
        (forall|k: int|
            0 <= k < items.len() && (#[trigger] items[k]).1 == "Cargo.toml".spec_bytes() ==> is_prefix(
                q,
                items[k].0,
            )) ==> (states.last() matches Some(p) ==> is_prefix(q, p)),
{
    lemma_series_prefix(states, items, items.len() as int);
    assert(items.take(items.len() as int) =~= items);
    law_toml_dir_is_common_prefix(items);
    if forall|k: int|
        0 <= k < items.len() && (#[trigger] items[k]).1 == "Cargo.toml".spec_bytes() ==> is_prefix(q, items[k].0) {
        law_toml_dir_is_longest_common_prefix(items, q);
    }
}

/// A common prefix of two byte strings is no longer than their longest one.
proof fn lemma_common_prefix_bounds(q: Seq<u8>, a: Seq<u8>, b: Seq<u8>, i: int)
    requires
        is_prefix(q, a),
        is_prefix(q, b),
        0 <= i <= q.len(),
    ensures
        q.len() <= common_prefix_from(a, b, i),
    decreases a.len() - i,
{
    if i < q.len() {
        assert(a[i] == a.subrange(0, q.len() as int)[i]);
        assert(b[i] == b.subrange(0, q.len() as int)[i]);
        lemma_common_prefix_bounds(q, a, b, i + 1);
    } else {
        lemma_common_prefix_from(a, b, i);
    }
}

/// No prefix shared by every `Cargo.toml` directory is longer than the
/// directory that the indexer records: together with
/// `law_toml_dir_is_common_prefix`, the recorded directory is the longest
/// common prefix of those directories.
pub proof fn law_toml_dir_is_longest_common_prefix(items: Seq<(Seq<u8>, Seq<u8>)>, q: Seq<u8>)
    requires
        forall|k: int|
            0 <= k < items.len() && (#[trigger] items[k]).1 == "Cargo.toml".spec_bytes() ==> is_prefix(q, items[k].0),
    ensures
        toml_dir_after(None, items) matches Some(p) ==> is_prefix(q, p),
    decreases items.len(),
{
    if items.len() > 0 {
        let init = items.drop_last();
        assert forall|k: int|
            0 <= k < init.len() && (#[trigger] init[k]).1 == "Cargo.toml".spec_bytes() implies is_prefix(
            q,
            init[k].0,
        ) by {
            assert(init[k] == items[k]);
        }
        law_toml_dir_is_longest_common_prefix(init, q);
        let (d, b) = items.last();
        if b == "Cargo.toml".spec_bytes() {
            assert(items[items.len() - 1] == (d, b));
            if let Some(p) = toml_dir_after(None, init) {
                lemma_common_prefix_bounds(q, p, d, 0);
                lemma_common_prefix_from(p, d, 0);
                let np = p.take(common_prefix_len(p, d));
                assert(np.subrange(0, q.len() as int) =~= p.subrange(0, q.len() as int));
            }
        }
    }
}

/// The directory that the Cargo indexer records is a prefix of the
/// directory of every `Cargo.toml` in the index, and there is one exactly
/// when the index holds a `Cargo.toml`.
pub proof fn law_toml_dir_is_common_prefix(items: Seq<(Seq<u8>, Seq<u8>)>)
    ensures
        forall|k: int|
            0 <= k < items.len() && (#[trigger] items[k]).1 == "Cargo.toml".spec_bytes() ==> (toml_dir_after(
                None,
                items,
            ) matches Some(p) && is_prefix(p, items[k].0)),
        toml_dir_after(None, items) is None <==> forall|k: int|
            0 <= k < items.len() ==> (#[trigger] items[k]).1 != "Cargo.toml".spec_bytes(),
    decreases items.len(),
{
    if items.len() > 0 {
        let init = items.drop_last();
        law_toml_dir_is_common_prefix(init);
        let (d, b) = items.last();
        let prev = toml_dir_after(None, init);
        assert forall|k: int| 0 <= k < init.len() implies init[k] == items[k] by {}
        if b == "Cargo.toml".spec_bytes() {
            if let Some(p) = prev {
                lemma_common_prefix_agrees(p, d, 0);
                let c = common_prefix_len(p, d);
                let np = p.take(c);
                assert forall|k: int|
                    0 <= k < items.len() && (#[trigger] items[k]).1 == "Cargo.toml".spec_bytes() implies is_prefix(
                    np,
                    items[k].0,
                ) by {
                    if k < init.len() {
                        assert(init[k] == items[k]);
                        assert(is_prefix(p, items[k].0));
                        assert(items[k].0.subrange(0, np.len() as int) =~= np) by {
                            assert forall|j: int| 0 <= j < np.len() implies items[k].0[j] == np[j] by {
                                assert(items[k].0.subrange(0, p.len() as int)[j] == p[j]);
                            }
                        }
                    } else {
                        assert(items[k] == (d, b));
                        assert(d.subrange(0, np.len() as int) =~= np);
                    }
                }
            } else {
                assert forall|k: int|
                    0 <= k < items.len() && (#[trigger] items[k]).1 == "Cargo.toml".spec_bytes() implies is_prefix(
                    d,
                    items[k].0,
                ) by {
                    if k < init.len() {
                        assert(init[k] == items[k]);
                        assert(init[k].1 != "Cargo.toml".spec_bytes());
                    } else {
                        assert(d.subrange(0, d.len() as int) =~= d);
                    }
                }
            }
        } else {
            assert forall|k: int|
                0 <= k < items.len() && (#[trigger] items[k]).1 == "Cargo.toml".spec_bytes() implies (toml_dir_after(
                None,
                items,
            ) matches Some(p) && is_prefix(p, items[k].0)) by {
                if k < init.len() {
                    assert(init[k] == items[k]);
                }
            }
            if prev is None {
                assert forall|k: int| 0 <= k < items.len() implies (#[trigger] items[k]).1 != "Cargo.toml".spec_bytes() by {
                    if k < init.len() {
                        assert(init[k] == items[k]);
                    }
                }
            }
        }
    }
}

// ---------------------------------------------------------------------------
// Rewriting

/// Rewrites `Cargo.toml` to include real version numbers.
#[derive(Debug)]
pub struct CargoRewriter {
    proj_id: ProjectId,
    toml_path: RepoPathBuf,
}

impl CargoRewriter {
    pub closed spec fn proj_view(&self) -> ProjectId {
        self.proj_id
    }

    pub closed spec fn path_view(&self) -> Seq<u8> {
        self.toml_path@
    }

    /// Creates a new `Cargo.toml` rewriter.
    pub fn new(proj_id: ProjectId, toml_path: RepoPathBuf) -> (res: Self)
        ensures
            res.proj_view() == proj_id,
            res.path_view() == toml_path@,
    {
        CargoRewriter { proj_id, toml_path }
    }

    /// The project whose version is written.
    pub fn proj_id(&self) -> (res: ProjectId)
        ensures
            res == self.proj_view(),
    {
        self.proj_id
    }

    /// The file that is rewritten.
    pub fn toml_path(&self) -> (res: &RepoPathBuf)
        ensures
            res@ == self.path_view(),
    {
        &self.toml_path
    }
}

/// The Cargo requirement written for an internal dependency: the manual text,
/// or for a commit requirement the resolved version as a caret requirement.
/// Before 1.0, where semver makes minor versions incompatible, a range up to
/// 1.0 is written instead. `None` when there is nothing to write.
pub open spec fn cargo_req_text(req: DepRequirement, resolved: Option<VersionModel>) -> Option<Seq<char>> {
    match req {
        DepRequirement::Manual(t) => Some(t@),
        DepRequirement::Commit(_) => match resolved {
            Some(v) => {
                let vt = render_version(v);
                if occurs_at(vt, "0."@, 0) {
                    Some(">="@ + vt + ",<1"@)
                } else {
                    Some("^"@ + vt)
                }
            },
            None => None,
        },
        DepRequirement::Unavailable => None,
    }
}

pub open spec fn opt_version_view(v: Option<Version>) -> Option<VersionModel> {
    match v {
        Some(x) => Some(x@),
        None => None,
    }
}

/// Computes the Cargo requirement text of an internal dependency.
pub fn cargo_requirement(dep: &Dependency) -> (res: Option<String>)
    requires
        dep.resolved_version matches Some(v) ==> v@.wf(),
    ensures
        match cargo_req_text(dep.cranko_requirement, opt_version_view(dep.resolved_version)) {
            Some(t) => res matches Some(r) && r@ == t,
            None => res is None,
        },
{
    match &dep.cranko_requirement {
        DepRequirement::Manual(t) => Some(t.clone()),
        DepRequirement::Commit(_) => match &dep.resolved_version {
            Some(v) => {
                let vt = str_to_chars(v.to_string().as_str());
                let zero_dot = str_to_chars("0.");
                let mut out: Vec<char>;
                if crate::text::starts_with(&vt, &zero_dot) {
                    out = str_to_chars(">=");
                    append_chars(&mut out, &vt);
                    append_chars(&mut out, &str_to_chars(",<1"));
                } else {
                    out = str_to_chars("^");
                    append_chars(&mut out, &vt);
                }
                Some(chars_to_string(&out))
            },
            None => None,
        },
        DepRequirement::Unavailable => None,
    }
}

/// The text that records a requirement in `Cargo.toml`'s
/// `package.metadata.internal_dep_versions` table: the commit's hex ID, or
/// `manual:` and the manual text. `None` for an unavailable requirement.
pub open spec fn cranko_req_text(req: DepRequirement) -> Option<Seq<char>> {
    match req {
        DepRequirement::Commit(c) => Some(oid_hex(c.0@)),
        DepRequirement::Manual(t) => Some("manual:"@ + t@),
        DepRequirement::Unavailable => None,
    }
}

/// Computes the recorded form of a requirement.
pub fn cranko_requirement(req: &DepRequirement) -> (res: Option<String>)
    ensures
        match cranko_req_text(*req) {
            Some(t) => res matches Some(r) && r@ == t,
            None => res is None,
        },
{
    match req {
        DepRequirement::Commit(c) => Some(c.to_hex()),
        DepRequirement::Manual(t) => {
            let mut out = str_to_chars("manual:");
            append_chars(&mut out, &str_to_chars(t.as_str()));
            Some(chars_to_string(&out))
        },
        DepRequirement::Unavailable => None,
    }
}

/// How a dependency is written in a dependency table of `Cargo.toml`.
#[derive(Debug, Clone, Copy, PartialEq, Eq, Structural)]
pub enum DepItemKind {
    /// A `[dependencies.name]` table.
    Table,
    /// An inline table, `name = { ... }`.
    InlineTable,
    /// Anything else, such as a bare version string.
    Other,
}

/// What to write for a dependency table entry: the requirement to put in its
/// `version` key when it is an internal dependency. An internal dependency
/// written other than as a table is an error.
pub fn dep_version_edit(reqs: &Vec<(String, String)>, dep: &String, kind: DepItemKind) -> (res: Result<
    Option<String>,
    Error,
>)
    ensures
        match crate::text::table_lookup(crate::text::pairs_view(reqs@), dep@) {
            None => res matches Ok(None),
            Some(t) => if kind == DepItemKind::Other {
                res matches Err(Error::UnexpectedDependencyItem(d)) && d@ == dep@
            } else {
                res matches Ok(Some(r)) && r@ == t
            },
        },
{
    match crate::text::table_get(reqs, dep) {
        None => Ok(None),
        Some(t) => if kind == DepItemKind::Other {
            Err(Error::UnexpectedDependencyItem(dep.clone()))
        } else {
            Ok(Some(t.clone()))
        },
    }
}

// ---------------------------------------------------------------------------
// Loading projects from `cargo metadata`

/// A dependency as a package's manifest declares it.
#[derive(Debug)]
pub struct CargoDepDecl {
    /// The package depended on.
    pub name: String,
    /// The name it is used under, when renamed.
    pub rename: Option<String>,
    /// The version requirement, as text.
    pub req: String,
}

/// A package that `cargo metadata` reports.
#[derive(Debug)]
pub struct CargoPackage {
    /// Cargo's unique identifier of the package.
    pub id: String,
    pub name: String,
    pub version: SemverVersion,
    /// The package's `Cargo.toml`, as a repository path.
    pub manifest_path: RepoPathBuf,
    /// Whether the package comes from outside the repository (a registry or
    /// a git source).
    pub is_external: bool,
    /// The string entries of the package's
    /// `package.metadata.internal_dep_versions` table.
    pub internal_dep_versions: Vec<(String, String)>,
    /// The dependencies that the manifest declares.
    pub dependencies: Vec<CargoDepDecl>,
}

/// A dependency edge of the resolved dependency graph.
#[derive(Debug)]
pub struct CargoNodeDep {
    /// The identifier of the package depended on.
    pub pkg: String,
    /// The name under which it is depended on.
    pub name: String,
}

/// A package of the resolved dependency graph, with its dependencies.
#[derive(Debug)]
pub struct CargoNode {
    pub id: String,
    pub deps: Vec<CargoNodeDep>,
}

/// What Cranko uses of the output of `cargo metadata`.
#[derive(Debug)]
pub struct CargoMetadata {
    pub packages: Vec<CargoPackage>,
    pub nodes: Vec<CargoNode>,
}

/// An internal dependency found while loading, whose Cranko requirement
/// text still has to be resolved against the repository history.
#[derive(Debug)]
pub struct PendingDep {
    pub depender: ProjectId,
    pub dependee: ProjectId,
    /// The requirement as the manifest states it.
    pub literal: String,
    /// The Cranko requirement text, when the manifest records one.
    pub req_text: Option<String>,
    /// The file in which the requirement is recorded.
    pub manifest: RepoPathBuf,
}

pub type PendingModel = (ProjectId, ProjectId, Seq<char>, Option<Seq<char>>, Seq<u8>);

pub open spec fn pending_view(d: PendingDep) -> PendingModel {
    (
        d.depender,
        d.dependee,
        d.literal@,
        match d.req_text {
            Some(t) => Some(t@),
            None => None,
        },
        d.manifest@,
    )
}

/// The qualified names of a Cargo project.
pub open spec fn cargo_qnames(name: Seq<char>) -> Seq<Seq<char>> {
    seq![name, "cargo"@]
}

/// Whether a package becomes a project: it is the repository's own and the
/// configuration does not ignore it.
pub open spec fn package_kept(p: CargoPackage, pconfig: Seq<(String, ProjectConfiguration)>) -> bool {
    !p.is_external && !config_ignores(pconfig, full_name(cargo_qnames(p.name@)))
}

/// The project identifiers given to the packages, as pairs of Cargo
/// identifier and project identifier, when projects are numbered from
/// `base` on.
pub open spec fn cargo_ids(
    pkgs: Seq<CargoPackage>,
    pconfig: Seq<(String, ProjectConfiguration)>,
    base: nat,
) -> Seq<(Seq<char>, ProjectId)>
    decreases pkgs.len(),
{
    if pkgs.len() == 0 {
        Seq::empty()
    } else {
        let prev = cargo_ids(pkgs.drop_last(), pconfig, base);
        if package_kept(pkgs.last(), pconfig) {
            prev.push((pkgs.last().id@, (base + prev.len()) as ProjectId))
        } else {
            prev
        }
    }
}

/// The packages that become projects, in order.
pub open spec fn kept_packages(pkgs: Seq<CargoPackage>, pconfig: Seq<(String, ProjectConfiguration)>) -> Seq<
    CargoPackage,
>
    decreases pkgs.len(),
{
    if pkgs.len() == 0 {
        Seq::empty()
    } else {
        let prev = kept_packages(pkgs.drop_last(), pconfig);
        if package_kept(pkgs.last(), pconfig) {
            prev.push(pkgs.last())
        } else {
            prev
        }
    }
}

/// Whether `p`, with identifier `ident`, is the project registered for the
/// package `pkg`: named after it and qualified as `cargo`, with its version,
/// its manifest's directory as prefix, a rewriter for its manifest, and no
/// dependencies yet.
pub open spec fn cargo_project_ok(p: ProjectBuilder, pkg: CargoPackage, ident: int) -> bool {
    &&& names_view(p.qnames@) == cargo_qnames(pkg.name@)
    &&& p.version matches Some(v) && v@ == VersionModel::Semver(pkg.version@)
    &&& p.prefix matches Some(x) && x@ == pkg.manifest_path@.take(basename_start(pkg.manifest_path@))
    &&& p.rewriters@.len() == 1
    &&& p.rewriters@[0] matches Rewriter::Cargo(r) && r.proj_view() == ident && r.path_view()
        == pkg.manifest_path@
    &&& p.internal_deps@.len() == 0
}

proof fn lemma_kept_len(pkgs: Seq<CargoPackage>, pconfig: Seq<(String, ProjectConfiguration)>, base: nat)
    ensures
        kept_packages(pkgs, pconfig).len() == cargo_ids(pkgs, pconfig, base).len(),
    decreases pkgs.len(),
{
    if pkgs.len() > 0 {
        lemma_kept_len(pkgs.drop_last(), pconfig, base);
    }
}

/// The project of a Cargo identifier; a later entry overrides an earlier one.
pub open spec fn id_lookup(map: Seq<(Seq<char>, ProjectId)>, key: Seq<char>) -> Option<ProjectId>
    decreases map.len(),
{
    if map.len() == 0 {
        None
    } else if map.last().0 == key {
        Some(map.last().1)
    } else {
        id_lookup(map.drop_last(), key)
    }
}

/// The position of the package with a Cargo identifier; a later package
/// overrides an earlier one.
pub open spec fn package_index(pkgs: Seq<CargoPackage>, id: Seq<char>) -> Option<int>
    decreases pkgs.len(),
{
    if pkgs.len() == 0 {
        None
    } else if pkgs.last().id@ == id {
        Some(pkgs.len() - 1)
    } else {
        package_index(pkgs.drop_last(), id)
    }
}

/// The requirement of the first declared dependency used under `name`, or
/// `UNDEFINED`.
pub open spec fn decl_literal(decls: Seq<CargoDepDecl>, name: Seq<char>) -> Seq<char>
    decreases decls.len(),
{
    if decls.len() == 0 {
        "UNDEFINED"@
    } else {
        let d = decls[0];
        let used = match d.rename {
            Some(r) => r@,
            None => d.name@,
        };
        if used == name {
            d.req@
        } else {
            decl_literal(decls.drop_first(), name)
        }
    }
}

/// The internal dependencies of one resolved package.
pub open spec fn node_pending(
    pkg: CargoPackage,
    depender: ProjectId,
    deps: Seq<CargoNodeDep>,
    map: Seq<(Seq<char>, ProjectId)>,
) -> Seq<PendingModel>
    decreases deps.len(),
{
    if deps.len() == 0 {
        Seq::empty()
    } else {
        let prev = node_pending(pkg, depender, deps.drop_last(), map);
        let d = deps.last();
        match id_lookup(map, d.pkg@) {
            Some(dependee) => prev.push(
                (
                    depender,
                    dependee,
                    decl_literal(pkg.dependencies@, d.name@),
                    crate::text::table_lookup(crate::text::pairs_view(pkg.internal_dep_versions@), d.name@),
                    pkg.manifest_path@,
                ),
            ),
            None => prev,
        }
    }
}

/// The internal dependencies of all resolved packages, in order.
pub open spec fn all_pending(
    pkgs: Seq<CargoPackage>,
    nodes: Seq<CargoNode>,
    map: Seq<(Seq<char>, ProjectId)>,
) -> Seq<PendingModel>
    decreases nodes.len(),
{
    if nodes.len() == 0 {
        Seq::empty()
    } else {
        let prev = all_pending(pkgs, nodes.drop_last(), map);
        let n = nodes.last();
        match (id_lookup(map, n.id@), package_index(pkgs, n.id@)) {
            (Some(depender), Some(k)) => prev + node_pending(pkgs[k], depender, n.deps@, map),
            _ => prev,
        }
    }
}

/// Every resolved package is among the packages.
pub open spec fn nodes_known(meta: CargoMetadata) -> bool {
    forall|i: int| 0 <= i < meta.nodes@.len() ==> package_index(meta.packages@, (#[trigger] meta.nodes@[i]).id@) is Some
}

proof fn lemma_package_index(pkgs: Seq<CargoPackage>, id: Seq<char>)
    ensures
        package_index(pkgs, id) matches Some(k) ==> 0 <= k < pkgs.len() && pkgs[k].id@ == id,
    decreases pkgs.len(),
{
    if pkgs.len() > 0 && pkgs.last().id@ != id {
        lemma_package_index(pkgs.drop_last(), id);
    }
}

fn lookup_id(map: &Vec<(String, ProjectId)>, key: &String) -> (res: Option<ProjectId>)
    ensures
        res == id_lookup(map_view(map@), key@),
{
    let ghost all = map_view(map@);
    let mut i: usize = map.len();
    proof {
        assert(all.subrange(0, all.len() as int) =~= all);
    }
    while i > 0
        invariant
            i <= map@.len(),
            all == map_view(map@),
            all.len() == map@.len(),
            id_lookup(all, key@) == id_lookup(all.subrange(0, i as int), key@),
        decreases i,
    {
        proof {
            assert(all.subrange(0, i as int).drop_last() =~= all.subrange(0, i - 1));
            assert(all.subrange(0, i as int).last() == all[i - 1]);
        }
        if map[i - 1].0 == *key {
            return Some(map[i - 1].1);
        }
        i = i - 1;
    }
    None
}

pub open spec fn map_view(m: Seq<(String, ProjectId)>) -> Seq<(Seq<char>, ProjectId)> {
    m.map_values(|e: (String, ProjectId)| (e.0@, e.1))
}

fn find_package(pkgs: &Vec<CargoPackage>, id: &String) -> (res: Option<usize>)
    ensures
        match package_index(pkgs@, id@) {
            Some(k) => res matches Some(r) && r as int == k,
            None => res is None,
        },
{
    let mut i: usize = pkgs.len();
    proof {
        assert(pkgs@.subrange(0, pkgs@.len() as int) =~= pkgs@);
    }
    while i > 0
        invariant
            i <= pkgs@.len(),
            package_index(pkgs@, id@) == package_index(pkgs@.subrange(0, i as int), id@),
        decreases i,
    {
        proof {
            assert(pkgs@.subrange(0, i as int).drop_last() =~= pkgs@.subrange(0, i - 1));
        }
        if pkgs[i - 1].id == *id {
            return Some(i - 1);
        }
        i = i - 1;
    }
    None
}

fn find_literal(decls: &Vec<CargoDepDecl>, name: &String) -> (res: String)
    ensures
        res@ == decl_literal(decls@, name@),
{
    let mut i: usize = 0;
    proof {
        assert(decls@.skip(0) =~= decls@);
    }
    while i < decls.len()
        invariant
            i <= decls@.len(),
            decl_literal(decls@, name@) == decl_literal(decls@.skip(i as int), name@),
        decreases decls.len() - i,
    {
        proof {
            assert(decls@.skip(i as int)[0] == decls@[i as int]);
            assert(decls@.skip(i as int).drop_first() =~= decls@.skip(i + 1));
        }
        let used = match &decls[i].rename {
            Some(r) => r,
            None => &decls[i].name,
        };
        if *used == *name {
            return decls[i].req.clone();
        }
        i = i + 1;
    }
    owned("UNDEFINED")
}

impl CargoLoader {
    /// Registers the repository's Cargo packages as projects, given what
    /// `cargo metadata` reported for the top-level `Cargo.toml`, and returns
    /// the internal dependencies between them, whose requirement texts still
    /// have to be resolved. Each package of the repository that the
    /// configuration does not ignore becomes a project named after it
    /// (qualified as `cargo`), with its version, its manifest's directory as
    /// prefix, and a rewriter for its manifest.
    pub fn finalize(
        self,
        graph: &mut ProjectGraphBuilder,
        pconfig: &Vec<(String, ProjectConfiguration)>,
        meta: &CargoMetadata,
    ) -> (res: Vec<PendingDep>)
        requires
            old(graph).wf(),
            nodes_known(*meta),
            old(graph).projects_view().len() + meta.packages@.len() + 1 < index_limit(),
        ensures
            final(graph).wf(),
            ({
                let base = old(graph).projects_view().len();
                let ids = cargo_ids(meta.packages@, pconfig@, base);
                let ps = final(graph).projects_view();
                &&& ps.len() == base + ids.len()
                &&& ps.subrange(0, base as int) == old(graph).projects_view()
                &&& res@.map_values(|d: PendingDep| pending_view(d)) == all_pending(
                    meta.packages@,
                    meta.nodes@,
                    ids,
                )
                &&& kept_packages(meta.packages@, pconfig@).len() == ids.len()
                &&& forall|k: int|
                    0 <= k < ids.len() ==> cargo_project_ok(
                        #[trigger] ps[base + k],
                        kept_packages(meta.packages@, pconfig@)[k],
                        base + k,
                    )
            }),
    {
        let ghost base = graph.projects_view().len();
        let ghost g0 = graph.projects_view();
        let mut cargo_to_graph: Vec<(String, ProjectId)> = Vec::new();
        let mut i: usize = 0;
        proof {
            assert(meta.packages@.take(0) =~= Seq::<CargoPackage>::empty());
            assert(map_view(cargo_to_graph@) =~= Seq::<(Seq<char>, ProjectId)>::empty());
            assert(graph.projects_view().subrange(0, base as int) =~= g0);
        }
        while i < meta.packages.len()
            invariant
                i <= meta.packages@.len(),
                graph.wf(),
                base + meta.packages@.len() + 1 < index_limit(),
                map_view(cargo_to_graph@) == cargo_ids(meta.packages@.take(i as int), pconfig@, base),
                graph.projects_view().len() == base + cargo_to_graph@.len(),
                cargo_to_graph@.len() <= i,
                graph.projects_view().subrange(0, base as int) == g0,
                kept_packages(meta.packages@.take(i as int), pconfig@).len() == cargo_to_graph@.len(),
                forall|k: int|
                    0 <= k < cargo_to_graph@.len() ==> cargo_project_ok(
                        #[trigger] graph.projects_view()[base + k],
                        kept_packages(meta.packages@.take(i as int), pconfig@)[k],
                        base + k,
                    ),
            decreases meta.packages.len() - i,
        {
            let pkg = &meta.packages[i];
            proof {
                assert(meta.packages@.take(i + 1).drop_last() =~= meta.packages@.take(i as int));
                assert(meta.packages@.take(i + 1).last() == *pkg);
            }
            let ghost kp = kept_packages(meta.packages@.take(i as int), pconfig@);
            let ghost g_before = graph.projects_view();
            if !pkg.is_external {
                let mut qnames: Vec<String> = Vec::new();
                qnames.push(pkg.name.clone());
                qnames.push(owned("cargo"));
                proof {
                    assert(names_view(qnames@) =~= cargo_qnames(pkg.name@));
                }
                let ghost before = graph.projects_view();
                match graph.try_add_project(qnames, pconfig) {
                    None => {},
                    Some(ident) => {
                        let ghost pa = graph.projects_view();
                        let (prefix, _) = pkg.manifest_path.as_repo_path().split_basename();
                        graph.set_version(
                            ident,
                            Version::Semver(
                                SemverVersion {
                                    major: pkg.version.major,
                                    minor: pkg.version.minor,
                                    patch: pkg.version.patch,
                                    pre: pkg.version.pre.clone(),
                                    build: pkg.version.build.clone(),
                                },
                            ),
                        );
                        graph.set_prefix(ident, prefix.to_owned());
                        graph.add_rewriter(
                            ident,
                            Rewriter::Cargo(CargoRewriter::new(ident, pkg.manifest_path.copy())),
                        );
                        let ghost mv = map_view(cargo_to_graph@);
                        cargo_to_graph.push((pkg.id.clone(), ident));
                        proof {
                            assert(map_view(cargo_to_graph@) =~= mv.push((pkg.id@, ident)));
                            assert(prefix@ =~= pkg.manifest_path@.take(basename_start(pkg.manifest_path@)));
                            let ps2 = graph.projects_view();
                            assert(ps2[ident as int].rewriters@ =~= seq![ps2[ident as int].rewriters@[0]]);
                            assert(cargo_project_ok(ps2[ident as int], *pkg, ident as int));
                            assert forall|k: int| 0 <= k < cargo_to_graph@.len() - 1 implies cargo_project_ok(
                                #[trigger] ps2[base + k],
                                kp[k],
                                base + k,
                            ) by {
                                assert(ps2[base + k] == g_before[base + k]);
                            }
                            let ps = graph.projects_view();
                            assert(ps.subrange(0, base as int) =~= g0) by {
                                assert forall|x: int| 0 <= x < base implies ps[x] == before[x] by {}
                                assert(before.subrange(0, base as int) == g0);
                            }
                        }
                    },
                }
            }
            i = i + 1;
        }
        proof {
            assert(meta.packages@.take(meta.packages@.len() as int) =~= meta.packages@);
        }
        let ghost ids = map_view(cargo_to_graph@);
        let ghost g_fin = graph.projects_view();
        let mut pending: Vec<PendingDep> = Vec::new();
        let mut j: usize = 0;
        proof {
            assert(meta.nodes@.take(0) =~= Seq::<CargoNode>::empty());
            assert(pending@.map_values(|d: PendingDep| pending_view(d)) =~= Seq::<PendingModel>::empty());
        }
        while j < meta.nodes.len()
            invariant
                j <= meta.nodes@.len(),
                nodes_known(*meta),
                ids == map_view(cargo_to_graph@),
                pending@.map_values(|d: PendingDep| pending_view(d)) == all_pending(
                    meta.packages@,
                    meta.nodes@.take(j as int),
                    ids,
                ),
            decreases meta.nodes.len() - j,
        {
            let node = &meta.nodes[j];
            proof {
                assert(meta.nodes@.take(j + 1).drop_last() =~= meta.nodes@.take(j as int));
                assert(meta.nodes@.take(j + 1).last() == *node);
                assert(package_index(meta.packages@, node.id@) is Some);
                lemma_package_index(meta.packages@, node.id@);
            }
            let k = match find_package(&meta.packages, &node.id) {
                Some(k) => k,
                None => {
                    j = j + 1;
                    continue;
                },
            };
            let pkg = &meta.packages[k];
            let ghost prev_all = all_pending(meta.packages@, meta.nodes@.take(j as int), ids);
            proof {
                assert(all_pending(meta.packages@, meta.nodes@.take(j + 1), ids) == match (
                    id_lookup(ids, node.id@),
                    package_index(meta.packages@, node.id@),
                ) {
                    (Some(dd), Some(kk)) => prev_all + node_pending(meta.packages@[kk], dd, node.deps@, ids),
                    _ => prev_all,
                });
            }
            match lookup_id(&cargo_to_graph, &node.id) {
                None => {},
                Some(depender) => {
                    let ghost before = pending@.map_values(|d: PendingDep| pending_view(d));
                    let mut m: usize = 0;
                    proof {
                        assert(node.deps@.take(0) =~= Seq::<CargoNodeDep>::empty());
                        assert(before + node_pending(*pkg, depender, node.deps@.take(0), ids) =~= before);
                    }
                    while m < node.deps.len()
                        invariant
                            m <= node.deps@.len(),
                            ids == map_view(cargo_to_graph@),
                            pending@.map_values(|d: PendingDep| pending_view(d)) == before
                                + node_pending(*pkg, depender, node.deps@.take(m as int), ids),
                        decreases node.deps.len() - m,
                    {
                        let d = &node.deps[m];
                        proof {
                            assert(node.deps@.take(m + 1).drop_last() =~= node.deps@.take(m as int));
                            assert(node.deps@.take(m + 1).last() == *d);
                        }
                        match lookup_id(&cargo_to_graph, &d.pkg) {
                            None => {},
                            Some(dependee) => {
                                let literal = find_literal(&pkg.dependencies, &d.name);
                                let req_text = match crate::text::table_get(&pkg.internal_dep_versions, &d.name) {
                                    Some(t) => Some(t.clone()),
                                    None => None,
                                };
                                let pd = PendingDep {
                                    depender,
                                    dependee,
                                    literal,
                                    req_text,
                                    manifest: pkg.manifest_path.copy(),
                                };
                                let ghost pv = pending@.map_values(|d: PendingDep| pending_view(d));
                                pending.push(pd);
                                proof {
                                    assert(pending@.map_values(|d: PendingDep| pending_view(d)) =~= pv.push(
                                        pending_view(pd),
                                    ));
                                }
                            },
                        }
                        m = m + 1;
                    }
                    proof {
                        assert(node.deps@.take(node.deps@.len() as int) =~= node.deps@);
                        assert(meta.packages@[k as int] == *pkg);
                        let kk = package_index(meta.packages@, node.id@).unwrap();
                        assert(0 <= kk < meta.packages@.len());
                        assert(k as int == kk);
                        assert(id_lookup(ids, node.id@) == Some(depender));
                        assert(pending@.map_values(|d: PendingDep| pending_view(d)) =~= prev_all + node_pending(meta.packages@[kk], depender, node.deps@, ids));
                        assert(pending@.map_values(|d: PendingDep| pending_view(d)) == all_pending(
                            meta.packages@,
                            meta.nodes@.take(j + 1),
                            ids,
                        ));
                    }
                },
            }
            j = j + 1;
        }
        proof {
            assert(meta.nodes@.take(meta.nodes@.len() as int) =~= meta.nodes@);
        }
        pending
    }
}

/// The requirement texts of a project's internal dependencies, keyed by the
/// narrowest qualified name of the project depended on, for one project of
/// a graph and a way of writing requirements.
pub open spec fn dep_table(
    g: ProjectGraph,
    deps: Seq<Dependency>,
    text: spec_fn(Dependency) -> Option<Seq<char>>,
) -> Seq<(Seq<char>, Seq<char>)>
    decreases deps.len(),
{
    if deps.len() == 0 {
        Seq::empty()
    } else {
        let prev = dep_table(g, deps.drop_last(), text);
        match text(deps.last()) {
            Some(t) => prev.push((g.projects_view()[deps.last().ident as int].qnames_view()[0], t)),
            None => prev,
        }
    }
}

impl CargoRewriter {
    /// The requirements to write for the project's internal dependencies,
    /// keyed by the Cargo package name (the narrowest qualified name) of the
    /// project depended on.
    pub fn internal_reqs(&self, graph: &ProjectGraph) -> (res: Vec<(String, String)>)
        requires
            self.proj_view() < graph.projects_view().len(),
        ensures
            crate::text::pairs_view(res@) == dep_table(
                *graph,
                graph.projects_view()[self.proj_view() as int].deps_view(),
                |d: Dependency| cargo_req_text(d.cranko_requirement, opt_version_view(d.resolved_version)),
            ),
    {
        let proj = graph.lookup(self.proj_id);
        let ghost deps = proj.deps_view();
        let pdeps = proj.deps();
        let mut out: Vec<(String, String)> = Vec::new();
        let mut i: usize = 0;
        proof {
            assert(deps.take(0) =~= Seq::<Dependency>::empty());
            assert(crate::text::pairs_view(out@) =~= Seq::<(Seq<char>, Seq<char>)>::empty());
        }
        while i < pdeps.len()
            invariant
                i <= deps.len(),
                deps == proj.deps_view(),
                deps == pdeps@,
                *proj == graph.projects_view()[self.proj_view() as int],
                forall|k: int|
                    0 <= k < deps.len() ==> (#[trigger] deps[k]).ident < graph.projects_view().len() && (
                    deps[k].resolved_version matches Some(v) ==> v@.wf()),
                crate::text::pairs_view(out@) == dep_table(
                    *graph,
                    deps.take(i as int),
                    |d: Dependency| cargo_req_text(d.cranko_requirement, opt_version_view(d.resolved_version)),
                ),
            decreases deps.len() - i,
        {
            let dep = &pdeps[i];
            proof {
                assert(deps.take(i + 1).drop_last() =~= deps.take(i as int));
                assert(deps.take(i + 1).last() == *dep);
                assert(deps[i as int] == *dep);
            }
            match cargo_requirement(dep) {
                Some(t) => {
                    let target = graph.lookup(dep.ident);
                    let qn = target.qualified_names();
                    let key = qn[0].clone();
                    proof {
                        assert(names_view(qn@)[0] == qn@[0]@);
                    }
                    let ghost pv = crate::text::pairs_view(out@);
                    out.push((key, t));
                    proof {
                        assert(crate::text::pairs_view(out@) =~= pv.push((key@, t@)));
                    }
                },
                None => {},
            }
            i = i + 1;
        }
        proof {
            assert(deps.take(deps.len() as int) =~= deps);
        }
        out
    }

    /// The entries of the `package.metadata.internal_dep_versions` table:
    /// for each internal dependency with a requirement, the Cargo package
    /// name of the project depended on and the recorded requirement.
    pub fn cranko_requirement_entries(&self, graph: &ProjectGraph) -> (res: Vec<(String, String)>)
        requires
            self.proj_view() < graph.projects_view().len(),
        ensures
            crate::text::pairs_view(res@) == dep_table(
                *graph,
                graph.projects_view()[self.proj_view() as int].deps_view(),
                |d: Dependency| cranko_req_text(d.cranko_requirement),
            ),
    {
        let proj = graph.lookup(self.proj_id);
        let ghost deps = proj.deps_view();
        let pdeps = proj.deps();
        let mut out: Vec<(String, String)> = Vec::new();
        let mut i: usize = 0;
        proof {
            assert(deps.take(0) =~= Seq::<Dependency>::empty());
            assert(crate::text::pairs_view(out@) =~= Seq::<(Seq<char>, Seq<char>)>::empty());
        }
        while i < pdeps.len()
            invariant
                i <= deps.len(),
                deps == proj.deps_view(),
                deps == pdeps@,
                *proj == graph.projects_view()[self.proj_view() as int],
                forall|k: int| 0 <= k < deps.len() ==> (#[trigger] deps[k]).ident < graph.projects_view().len(),
                crate::text::pairs_view(out@) == dep_table(
                    *graph,
                    deps.take(i as int),
                    |d: Dependency| cranko_req_text(d.cranko_requirement),
                ),
            decreases deps.len() - i,
        {
            let dep = &pdeps[i];
            proof {
                assert(deps.take(i + 1).drop_last() =~= deps.take(i as int));
                assert(deps.take(i + 1).last() == *dep);
                assert(deps[i as int] == *dep);
            }
            match cranko_requirement(&dep.cranko_requirement) {
                Some(t) => {
                    let target = graph.lookup(dep.ident);
                    let qn = target.qualified_names();
                    let key = qn[0].clone();
                    proof {
                        assert(names_view(qn@)[0] == qn@[0]@);
                    }
                    let ghost pv = crate::text::pairs_view(out@);
                    out.push((key, t));
                    proof {
                        assert(crate::text::pairs_view(out@) =~= pv.push((key@, t@)));
                    }
                },
                None => {},
            }
            i = i + 1;
        }
        proof {
            assert(deps.take(deps.len() as int) =~= deps);
        }
        out
    }
}

// ---------------------------------------------------------------------------
// Reading recorded requirements

/// A Cranko requirement as recorded in project metadata: a manual
/// requirement, or a reference to a commit.
#[derive(Debug)]
pub enum RequirementText {
    Manual(String),
    Ref(CommitRef),
}

/// Reads a recorded requirement: `manual:` and the requirement's text, or a
/// commit reference.
pub fn parse_requirement_text(text: &str) -> (res: Result<RequirementText, Error>)
    ensures
        if occurs_at(text@, "manual:"@, 0) {
            res matches Ok(RequirementText::Manual(t)) && t@ == text@.skip(7)
        } else {
            match spec_commit_ref(text@) {
                Some(Ok(id)) => res matches Ok(RequirementText::Ref(CommitRef::Id(c))) && c.0@ == id,
                Some(Err(salt)) => res matches Ok(RequirementText::Ref(CommitRef::ThisCommit { salt: s }))
                    && s@ == salt,
                None => res matches Err(Error::InvalidCommitReference(t)) && t@ == text@,
            }
        },
{
    let t = str_to_chars(text);
    let prefix = str_to_chars("manual:");
    if crate::text::starts_with(&t, &prefix) {
        proof {
            reveal_strlit("manual:");
        }
        let rest = crate::text::slice_chars(&t, 7, t.len());
        proof {
            assert(rest@ =~= t@.skip(7));
        }
        return Ok(RequirementText::Manual(chars_to_string(&rest)));
    }
    match crate::repository::parse_commit_ref(text) {
        Ok(r) => Ok(RequirementText::Ref(r)),
        Err(e) => Err(e),
    }
}

proof fn lemma_hex_digit_value(n: u8)
    requires
        n < 16,
    ensures
        hex_value(hex_digit(n)) == Some(n),
{
}

/// Reading the hexadecimal form of an object ID gives the ID back.
pub proof fn lemma_oid_hex_roundtrip(id: Seq<u8>)
    requires
        id.len() == 20,
    ensures
        spec_parse_oid(oid_hex(id)) == Some(id),
{
    let t = oid_hex(id);
    assert forall|i: int| 0 <= i < t.len() implies #[trigger] hex_value(t[i]) is Some by {
        let n: u8 = if i % 2 == 0 {
            id[i / 2] / 16
        } else {
            id[i / 2] % 16
        };
        lemma_hex_digit_value(n);
    }
    assert forall|k: int| 0 <= k < 20 implies (nibble(t, 2 * k) * 16 + nibble(t, 2 * k + 1)) as u8 == id[k] by {
        lemma_hex_digit_value(id[k] / 16);
        lemma_hex_digit_value(id[k] % 16);
        assert(nibble(t, 2 * k) == id[k] / 16);
        assert(nibble(t, 2 * k + 1) == id[k] % 16);
        assert((id[k] / 16) as int * 16 + (id[k] % 16) as int == id[k] as int) by (nonlinear_arith);
    }
    assert(Seq::new(20, |k: int| (nibble(t, 2 * k) * 16 + nibble(t, 2 * k + 1)) as u8) =~= id);
}

/// A requirement recorded in project metadata reads back as the same
/// requirement: `manual:` texts as manual requirements, commit IDs as
/// references to the same commit.
pub proof fn law_recorded_requirement_roundtrip(req: DepRequirement)
    requires
        !(req is Unavailable),
    ensures
        cranko_req_text(req) matches Some(text) && match req {
            DepRequirement::Manual(t) => occurs_at(text, "manual:"@, 0) && text.skip(7) == t@,
            DepRequirement::Commit(c) => !occurs_at(text, "manual:"@, 0) && spec_commit_ref(text)
                == Some(Ok::<Seq<u8>, Seq<char>>(c.0@)),
            DepRequirement::Unavailable => false,
        },
{
    reveal_strlit("manual:");
    match req {
        DepRequirement::Manual(t) => {
            let text = "manual:"@ + t@;
            assert(text.subrange(0, 7) =~= "manual:"@);
            assert(text.skip(7) =~= t@);
        },
        DepRequirement::Commit(c) => {
            let text = oid_hex(c.0@);
            lemma_oid_hex_roundtrip(c.0@);
            lemma_hex_digit_value(c.0@[0] / 16);
            assert(hex_value(text[0]) is Some);
            assert(hex_value('m') is None);
            if occurs_at(text, "manual:"@, 0) {
                assert(text.subrange(0, 7)[0] == text[0]);
                assert("manual:"@[0] == 'm');
                assert(text[0] == 'm');
            }
        },
        DepRequirement::Unavailable => {},
    }
}

/// The 1-based number of the first line that holds `salt`, which `git
/// blame` is asked about to find the commit that introduced a
/// `thiscommit:` reference.
pub fn salt_line(lines: &Vec<String>, salt: &str) -> (res: Option<usize>)
    ensures
        match res {
            Some(n) => 1 <= n <= lines@.len() && crate::text::contains_seq(lines@[n - 1]@, salt@) && forall|
                k: int,
            | 0 <= k < n - 1 ==> !crate::text::contains_seq(#[trigger] lines@[k]@, salt@),
            None => forall|k: int| 0 <= k < lines@.len() ==> !crate::text::contains_seq(#[trigger] lines@[k]@, salt@),
        },
{
    let s = str_to_chars(salt);
    let mut i: usize = 0;
    while i < lines.len()
        invariant
            i <= lines@.len(),
            s@ == salt@,
            forall|k: int| 0 <= k < i ==> !crate::text::contains_seq(#[trigger] lines@[k]@, salt@),
        decreases lines.len() - i,
    {
        if crate::text::contains(&str_to_chars(lines[i].as_str()), &s) {
            return Some(i + 1);
        }
        i = i + 1;
    }
    None
}

// ---------------------------------------------------------------------------
// Archives of released binaries

/// What `target_lexicon` reads of a target triple: its text as
/// `target_lexicon` writes it, and whether its operating system is Windows.
#[derive(Debug)]
pub struct TargetTriple {
    pub text: String,
    pub windows: bool,
}

/// The text that `target_lexicon` writes for the triple it reads from a
/// text, and whether that triple's operating system is Windows; `None`
/// where it cannot read the text.
pub uninterp spec fn triple_reading(text: Seq<char>) -> Option<(Seq<char>, bool)>;

/// Parses a target triple with `target_lexicon::Triple`'s `FromStr` and
/// gives the `Display` text of the result and whether its
/// `operating_system` is `OperatingSystem::Windows`; the result is named
/// `triple_reading`.
#[verifier::external_body]
fn read_triple(text: &str) -> (res: Option<TargetTriple>)
    ensures
        match res {
            Some(t) => triple_reading(text@) == Some((t.text@, t.windows)),
            None => triple_reading(text@) is None,
        },
{
    let t: target_lexicon::Triple = text.parse().ok()?;
    let windows = t.operating_system == target_lexicon::OperatingSystem::Windows;
    Some(TargetTriple { text: t.to_string(), windows })
}

/// Reads the target triple of `cargo package-released-binaries`.
pub fn parse_target(text: &str) -> (res: Result<TargetTriple, Error>)
    ensures
        match triple_reading(text@) {
            Some((t, w)) => res matches Ok(x) && x.text@ == t && x.windows == w,
            None => res matches Err(Error::TargetTriple(x)) && x@ == text@,
        },
{
    match read_triple(text) {
        Some(t) => Ok(t),
        None => Err(Error::TargetTriple(owned(text))),
    }
}

/// How released binaries are archived.
#[derive(Debug, Clone, Copy, PartialEq, Eq, Structural)]
pub enum BinaryArchiveMode {
    /// A gzipped tar file.
    Tarball,
    /// A Zip file.
    Zipball,
}

impl BinaryArchiveMode {
    /// The archive mode for a target: Zip files for Windows, tarballs
    /// otherwise.
    pub fn from_target(t: &TargetTriple) -> (res: BinaryArchiveMode)
        ensures
            res == (if t.windows {
                BinaryArchiveMode::Zipball
            } else {
                BinaryArchiveMode::Tarball
            }),
    {
        if t.windows {
            BinaryArchiveMode::Zipball
        } else {
            BinaryArchiveMode::Tarball
        }
    }
}

/// The file name of the archive of a project's binaries: the project's
/// narrowest name, its version and the target, joined by hyphens, with the
/// archive's extension.
pub open spec fn spec_archive_name(mode: BinaryArchiveMode, name: Seq<char>, version: Seq<char>, target: Seq<char>) -> Seq<
    char,
> {
    name + "-"@ + version + "-"@ + target + match mode {
        BinaryArchiveMode::Zipball => ".zip"@,
        BinaryArchiveMode::Tarball => ".tar.gz"@,
    }
}

/// Names the archive of a project's binaries.
pub fn archive_name(mode: BinaryArchiveMode, proj: &Project, target: &TargetTriple) -> (res: String)
    requires
        proj.qnames_view().len() > 0,
        proj.version_view().wf(),
    ensures
        res@ == spec_archive_name(mode, proj.qnames_view()[0], render_version(proj.version_view()), target.text@),
{
    let mut v = str_to_chars(proj.qualified_names()[0].as_str());
    v.push('-');
    append_chars(&mut v, &str_to_chars(proj.version().to_string().as_str()));
    v.push('-');
    append_chars(&mut v, &str_to_chars(target.text.as_str()));
    match mode {
        BinaryArchiveMode::Zipball => append_chars(&mut v, &str_to_chars(".zip")),
        BinaryArchiveMode::Tarball => append_chars(&mut v, &str_to_chars(".tar.gz")),
    }
    proof {
        reveal_strlit("-");
        assert(v@ =~= spec_archive_name(mode, proj.qnames_view()[0], render_version(proj.version_view()), target.text@));
    }
    chars_to_string(&v)
}

/// The argument that selects a project's package in a Cargo command:
/// `--package=` and the project's narrowest name.
pub fn package_arg(proj: &Project) -> (res: String)
    requires
        proj.qnames_view().len() > 0,
    ensures
        res@ == "--package="@ + proj.qnames_view()[0],
{
    let mut v = str_to_chars("--package=");
    append_chars(&mut v, &str_to_chars(proj.qualified_names()[0].as_str()));
    chars_to_string(&v)
}

} // verus!
