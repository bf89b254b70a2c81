//! The Cranko configuration file.
//!
//! All configuration is per-repository, so that the same repository gives the
//! same results whoever runs Cranko on it. The file is TOML; reading and
//! writing it happens outside this crate, which holds the structures and the
//! rules that use them.

use vstd::prelude::*;

use crate::text::pairs_view;

verus! {

/// The top-level (per-repository) configuration structure, as serialized.
#[derive(Debug)]
pub struct SerializedConfiguration {
    /// General per-repository configuration.
    pub repo: RepoConfiguration,
    /// NPM integration configuration.
    pub npm: NpmConfiguration,
    /// Centralized per-project configuration, keyed by the project's full
    /// qualified name.
    pub projects: Vec<(String, ProjectConfiguration)>,
}

/// Configuration relating to the backing repository.
#[derive(Debug, Default)]
pub struct RepoConfiguration {
    /// Git URLs that the upstream remote might be using.
    pub upstream_urls: Vec<String>,
    /// The name of the `rc`-like branch.
    pub rc_name: Option<String>,
    /// The name of the `release`-like branch.
    pub release_name: Option<String>,
    /// The format for release tag names.
    pub release_tag_name_format: Option<String>,
}

/// Configuration related to the NPM integration.
#[derive(Debug, Default)]
pub struct NpmConfiguration {
    /// A custom "resolution protocol" to use for internal dependencies.
    pub internal_dep_protocol: Option<String>,
}

/// Configuration relating to individual projects.
#[derive(Clone, Copy, Debug, Default, PartialEq, Eq, Structural)]
pub struct ProjectConfiguration {
    /// Ignore this project if/when it is automatically detected.
    pub ignore: bool,
}

/// The runtime form of the configuration file.
#[derive(Debug)]
pub struct ConfigurationFile {
    pub repo: RepoConfiguration,
    pub npm: NpmConfiguration,
    pub projects: Vec<(String, ProjectConfiguration)>,
}

/// The names in a table of project configurations.
pub open spec fn config_keys(t: Seq<(String, ProjectConfiguration)>) -> Seq<Seq<char>> {
    t.map_values(|p: (String, ProjectConfiguration)| p.0@)
}

/// Whether the configuration asks for the project with this full name to be
/// ignored. A later entry for a name overrides an earlier one.
pub open spec fn config_ignores(t: Seq<(String, ProjectConfiguration)>, name: Seq<char>) -> bool
    decreases t.len(),
{
    if t.len() == 0 {
        false
    } else if t.last().0@ == name {
        t.last().1.ignore
    } else {
        config_ignores(t.drop_last(), name)
    }
}

/// Whether the configuration table asks for a project to be ignored.
pub fn is_ignored(t: &Vec<(String, ProjectConfiguration)>, name: &String) -> (res: bool)
    ensures
        res == config_ignores(t@, name@),
{
    let mut i: usize = t.len();
    proof {
        assert(t@.subrange(0, t@.len() as int) =~= t@);
    }
    while i > 0
        invariant
            i <= t@.len(),
            config_ignores(t@, name@) == config_ignores(t@.subrange(0, i as int), name@),
        decreases i,
    {
        proof {
            assert(t@.subrange(0, i as int).drop_last() =~= t@.subrange(0, i - 1));
        }
        if t[i - 1].0 == *name {
            return t[i - 1].1.ignore;
        }
        i = i - 1;
    }
    false
}

impl ConfigurationFile {
    /// The configuration used when a repository has no configuration file:
    /// no upstream URLs, default branch names and tag format, and no
    /// per-project settings.
    pub fn new() -> (res: ConfigurationFile)
        ensures
            res.repo.upstream_urls@.len() == 0,
            res.repo.rc_name is None,
            res.repo.release_name is None,
            res.repo.release_tag_name_format is None,
            res.npm.internal_dep_protocol is None,
            res.projects@.len() == 0,
    {
        ConfigurationFile {
            repo: RepoConfiguration {
                upstream_urls: Vec::new(),
                rc_name: None,
                release_name: None,
                release_tag_name_format: None,
            },
            npm: NpmConfiguration { internal_dep_protocol: None },
            projects: Vec::new(),
        }
    }

    /// The configuration as it is serialized.
    pub fn into_serialized(self) -> (res: SerializedConfiguration)
        ensures
            res.repo == self.repo,
            res.npm == self.npm,
            res.projects == self.projects,
    {
        SerializedConfiguration { repo: self.repo, npm: self.npm, projects: self.projects }
    }

    /// The runtime form of a serialized configuration.
    pub fn from_serialized(s: SerializedConfiguration) -> (res: ConfigurationFile)
        ensures
            res.repo == s.repo,
            res.npm == s.npm,
            res.projects == s.projects,
    {
        ConfigurationFile { repo: s.repo, npm: s.npm, projects: s.projects }
    }
}

} // verus!
