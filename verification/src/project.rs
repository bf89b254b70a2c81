//! Information about a single project within the repository.
//!
//! A project is something that is assigned version numbers. A repository may
//! hold many, with internal dependencies between them; the `graph` module
//! puts them together.

use vstd::prelude::*;

use crate::cargo::CargoRewriter;
use crate::csproj::{AssemblyInfoCsRewriter, VdprojRewriter};
use crate::generic::GenericRewriter;
use crate::errors::Error;
use crate::pypa::PythonRewriter;
use crate::repository::{names_view, CommitId, PathMatcher, RepoPathBuf, TermModel};
use crate::text::owned;
use crate::version::{Version, VersionModel};

verus! {

/// An internal, unique identifier for a project in this app session: its
/// index in the project graph.
pub type ProjectId = usize;

/// A step that rewrites one of a project's metadata files with its new
/// version and requirements when a release commit is made.
#[derive(Debug)]
pub enum Rewriter {
    Cargo(CargoRewriter),
    Python(PythonRewriter),
    AssemblyInfoCs(AssemblyInfoCsRewriter),
    Vdproj(VdprojRewriter),
    Generic(GenericRewriter),
}

/// How a dependency on another project of the repository is expressed in
/// Cranko's own terms.
#[derive(Debug)]
pub enum DepRequirement {
    /// A version of the dependee later than the given commit is required.
    Commit(CommitId),
    /// A version requirement stated by hand, in the packaging system's own
    /// syntax.
    Manual(String),
    /// Cranko's metadata for this dependency are missing.
    Unavailable,
}

impl DepRequirement {
    /// A copy of this requirement.
    pub fn duplicate(&self) -> (res: DepRequirement)
        ensures
            match (self, res) {
                (DepRequirement::Commit(a), DepRequirement::Commit(b)) => a == b,
                (DepRequirement::Manual(a), DepRequirement::Manual(b)) => a@ == b@,
                (DepRequirement::Unavailable, DepRequirement::Unavailable) => true,
                _ => false,
            },
    {
        match self {
            DepRequirement::Commit(c) => DepRequirement::Commit(*c),
            DepRequirement::Manual(t) => DepRequirement::Manual(t.clone()),
            DepRequirement::Unavailable => DepRequirement::Unavailable,
        }
    }

    /// How the requirement is described to users: the commit or the manual
    /// text, with its kind, or `(unavailable)`.
    pub fn describe(&self) -> (res: String)
        ensures
            match self {
                DepRequirement::Commit(c) => res@ == crate::repository::oid_hex(c.0@) + " (commit)"@,
                DepRequirement::Manual(t) => res@ == t@ + " (manual)"@,
                DepRequirement::Unavailable => res@ == "(unavailable)"@,
            },
    {
        match self {
            DepRequirement::Commit(c) => {
                let mut v = crate::text::str_to_chars(c.to_hex().as_str());
                crate::text::append_chars(&mut v, &crate::text::str_to_chars(" (commit)"));
                crate::text::chars_to_string(&v)
            },
            DepRequirement::Manual(t) => {
                let mut v = crate::text::str_to_chars(t.as_str());
                crate::text::append_chars(&mut v, &crate::text::str_to_chars(" (manual)"));
                crate::text::chars_to_string(&v)
            },
            DepRequirement::Unavailable => owned("(unavailable)"),
        }
    }
}

/// The target of a dependency that is being built up.
#[derive(Debug)]
pub enum DependencyTarget {
    /// A user-facing project name, resolved once all names are known. Use
    /// this for dependencies that may refer to any packaging system.
    Text(String),
    /// A known project, usually one of the same packaging system.
    Ident(ProjectId),
}

/// An internal dependency whose target may not be resolved yet.
#[derive(Debug)]
pub struct DependencyBuilder {
    pub target: DependencyTarget,
    pub literal: String,
    pub cranko_requirement: DepRequirement,
    pub resolved_version: Option<Version>,
}

/// Metadata about an internal dependency between projects.
#[derive(Debug)]
pub struct Dependency {
    /// The project that is depended upon.
    pub ident: ProjectId,
    /// The current expression of the requirement in the project's metadata
    /// files.
    pub literal: String,
    /// The requirement in Cranko's terms.
    pub cranko_requirement: DepRequirement,
    /// The dependee's version that satisfies a commit requirement, once
    /// resolved.
    pub resolved_version: Option<Version>,
}

/// A project as it is being loaded, before the graph is complete.
#[derive(Debug)]
pub struct ProjectBuilder {
    pub qnames: Vec<String>,
    pub version: Option<Version>,
    pub prefix: Option<RepoPathBuf>,
    pub rewriters: Vec<Rewriter>,
    pub internal_deps: Vec<DependencyBuilder>,
}

impl ProjectBuilder {
    /// The qualified names, narrowest first.
    pub open spec fn qnames_view(&self) -> Seq<Seq<char>> {
        names_view(self.qnames@)
    }

    /// A builder with the given qualified names and nothing else known.
    pub fn new(qnames: Vec<String>) -> (res: ProjectBuilder)
        ensures
            res.qnames == qnames,
            res.version is None,
            res.prefix is None,
            res.rewriters@.len() == 0,
            res.internal_deps@.len() == 0,
    {
        ProjectBuilder {
            qnames,
            version: None,
            prefix: None,
            rewriters: Vec::new(),
            internal_deps: Vec::new(),
        }
    }

    /// Completes the project: its version and directory prefix must be known.
    /// The project's paths are those under its prefix.
    pub fn finalize(self, ident: ProjectId, user_facing_name: String, internal_deps: Vec<Dependency>) -> (res:
        Result<Project, Error>)
        ensures
            match res {
                Ok(p) => self.qnames@.len() > 0 && match (self.version, self.prefix) {
                    (Some(v), Some(pre)) => p.ident_view() == ident && p.qnames_view() == names_view(
                        self.qnames@,
                    ) && p.name_view() == user_facing_name@ && p.version_view() == v@
                        && p.prefix_view() == pre@ && p.paths_view() == seq![
                        TermModel::Include(pre@),
                    ] && p.rewriters_view() == self.rewriters@ && p.deps_view() == internal_deps@,
                    _ => false,
                },
                Err(e) => if self.qnames@.len() == 0 {
                    e matches Error::IncompleteProject(n, what) && n@ == user_facing_name@ && what@
                        == "naming"@
                } else if self.version is None {
                    e matches Error::IncompleteProject(n, what) && n@ == user_facing_name@ && what@
                        == "version"@
                } else {
                    self.prefix is None && (e matches Error::IncompleteProject(n, what) && n@
                        == user_facing_name@ && what@ == "directory prefix"@)
                },
            },
    {
        if self.qnames.len() == 0 {
            return Err(Error::IncompleteProject(user_facing_name, owned("naming")));
        }
        let version = match self.version {
            Some(v) => v,
            None => return Err(Error::IncompleteProject(user_facing_name, owned("version"))),
        };
        let prefix = match self.prefix {
            Some(p) => p,
            None => return Err(Error::IncompleteProject(user_facing_name, owned("directory prefix"))),
        };
        let repo_paths = PathMatcher::new_include(prefix.copy());
        Ok(
            Project {
                ident,
                qnames: self.qnames,
                user_facing_name,
                version,
                rewriters: self.rewriters,
                prefix,
                repo_paths,
                internal_deps,
            },
        )
    }
}

/// A project of the repository.
#[derive(Debug)]
pub struct Project {
    ident: ProjectId,
    /// Qualified names: the package name first, then more and more general
    /// qualifiers (such as the packaging system).
    qnames: Vec<String>,
    /// The unique name by which users refer to the project.
    pub user_facing_name: String,
    /// The project's version.
    pub version: Version,
    /// Steps that rewrite the project's metadata files on release.
    pub rewriters: Vec<Rewriter>,
    /// The project's directory in the repository: empty for the root,
    /// otherwise ending with a separator.
    prefix: RepoPathBuf,
    /// The paths that affect this project.
    pub repo_paths: PathMatcher,
    /// This project's internal dependencies.
    pub internal_deps: Vec<Dependency>,
}

impl Project {
    pub closed spec fn ident_view(&self) -> ProjectId {
        self.ident
    }

    pub closed spec fn qnames_view(&self) -> Seq<Seq<char>> {
        names_view(self.qnames@)
    }

    pub closed spec fn prefix_view(&self) -> Seq<u8> {
        self.prefix@
    }

    pub closed spec fn name_view(&self) -> Seq<char> {
        self.user_facing_name@
    }

    pub closed spec fn version_view(&self) -> VersionModel {
        self.version@
    }

    pub closed spec fn paths_view(&self) -> Seq<TermModel> {
        self.repo_paths.terms_view()
    }

    pub closed spec fn rewriters_view(&self) -> Seq<Rewriter> {
        self.rewriters@
    }

    pub closed spec fn deps_view(&self) -> Seq<Dependency> {
        self.internal_deps@
    }

    /// The project's user-facing name.
    pub fn name(&self) -> (res: &String)
        ensures
            res@ == self.name_view(),
    {
        &self.user_facing_name
    }

    /// Whether a repository path belongs to the project.
    pub fn path_matches(&self, p: &crate::repository::RepoPath) -> (res: bool)
        ensures
            res == crate::repository::terms_match(self.paths_view(), p@),
    {
        self.repo_paths.repo_path_matches(p)
    }

    /// The project's internal dependencies.
    pub fn deps(&self) -> (res: &Vec<Dependency>)
        ensures
            res@ == self.deps_view(),
    {
        &self.internal_deps
    }

    /// The project's version.
    pub fn version(&self) -> (res: &Version)
        ensures
            res@ == self.version_view(),
    {
        &self.version
    }

    /// Gives the project a new version.
    pub fn set_version(&mut self, v: Version)
        ensures
            final(self).version_view() == v@,
            final(self).ident_view() == old(self).ident_view(),
            final(self).qnames_view() == old(self).qnames_view(),
            final(self).name_view() == old(self).name_view(),
            final(self).prefix_view() == old(self).prefix_view(),
            final(self).paths_view() == old(self).paths_view(),
            final(self).rewriters_view() == old(self).rewriters_view(),
            final(self).deps_view() == old(self).deps_view(),
    {
        self.version = v;
    }

    /// Changes the Cranko requirement of one internal dependency.
    pub fn set_dep_requirement(&mut self, k: usize, req: DepRequirement)
        requires
            k < old(self).deps_view().len(),
        ensures
            final(self).deps_view().len() == old(self).deps_view().len(),
            forall|j: int|
                0 <= j < old(self).deps_view().len() && j != k ==> final(self).deps_view()[j]
                    == old(self).deps_view()[j],
            final(self).deps_view()[k as int].ident == old(self).deps_view()[k as int].ident,
            final(self).deps_view()[k as int].literal == old(self).deps_view()[k as int].literal,
            final(self).deps_view()[k as int].resolved_version == old(self).deps_view()[k as int].resolved_version,
            final(self).deps_view()[k as int].cranko_requirement == req,
            final(self).version_view() == old(self).version_view(),
            final(self).ident_view() == old(self).ident_view(),
            final(self).qnames_view() == old(self).qnames_view(),
            final(self).name_view() == old(self).name_view(),
            final(self).prefix_view() == old(self).prefix_view(),
            final(self).paths_view() == old(self).paths_view(),
            final(self).rewriters_view() == old(self).rewriters_view(),
    {
        let mut d = self.internal_deps.remove(k);
        d.cranko_requirement = req;
        self.internal_deps.insert(k, d);
    }

    /// Records the version that satisfies one internal dependency.
    pub fn set_dep_resolved_version(&mut self, k: usize, v: Option<Version>)
        requires
            k < old(self).deps_view().len(),
        ensures
            final(self).deps_view().len() == old(self).deps_view().len(),
            forall|j: int|
                0 <= j < old(self).deps_view().len() && j != k ==> final(self).deps_view()[j]
                    == old(self).deps_view()[j],
            final(self).deps_view()[k as int].ident == old(self).deps_view()[k as int].ident,
            final(self).deps_view()[k as int].literal == old(self).deps_view()[k as int].literal,
            final(self).deps_view()[k as int].cranko_requirement == old(self).deps_view()[k as int].cranko_requirement,
            final(self).deps_view()[k as int].resolved_version == v,
            final(self).version_view() == old(self).version_view(),
            final(self).ident_view() == old(self).ident_view(),
            final(self).qnames_view() == old(self).qnames_view(),
            final(self).name_view() == old(self).name_view(),
            final(self).prefix_view() == old(self).prefix_view(),
            final(self).paths_view() == old(self).paths_view(),
            final(self).rewriters_view() == old(self).rewriters_view(),
    {
        let mut d = self.internal_deps.remove(k);
        d.resolved_version = v;
        self.internal_deps.insert(k, d);
    }

    /// Exchanges the project's path matcher with another.
    pub fn swap_repo_paths(&mut self, m: &mut PathMatcher)
        ensures
            final(self).paths_view() == old(m).terms_view(),
            final(m).terms_view() == old(self).paths_view(),
            same_but_paths(*final(self), *old(self)),
    {
        core::mem::swap(&mut self.repo_paths, m);
    }

    /// The project's identifier in this session.
    pub fn ident(&self) -> (res: ProjectId)
        ensures
            res == self.ident_view(),
    {
        self.ident
    }

    /// The project's qualified names.
    pub fn qualified_names(&self) -> (res: &Vec<String>)
        ensures
            names_view(res@) == self.qnames_view(),
    {
        &self.qnames
    }

    /// The project's directory prefix in the repository.
    pub fn prefix(&self) -> (res: &RepoPathBuf)
        ensures
            res@ == self.prefix_view(),
    {
        &self.prefix
    }
}

/// Two projects that differ at most in their path matchers.
pub open spec fn same_but_paths(a: Project, b: Project) -> bool {
    &&& a.ident_view() == b.ident_view()
    &&& a.qnames_view() == b.qnames_view()
    &&& a.name_view() == b.name_view()
    &&& a.version_view() == b.version_view()
    &&& a.prefix_view() == b.prefix_view()
    &&& a.rewriters_view() == b.rewriters_view()
    &&& a.deps_view() == b.deps_view()
}

} // verus!
