use cranko::config::ProjectConfiguration;
use cranko::errors::Error;
use cranko::graph::{GraphQueryBuilder, ProjectGraphBuilder};
use cranko::project::DependencyTarget;
use cranko::project::DepRequirement;
use cranko::repository::{RcCommitInfo, RcProjectInfo, ReleaseCommitInfo, ReleasedProjectInfo, RepoPathBuf};
use cranko::session::assign_version_at;
use cranko::version::bump::LocalTime;
use cranko::session::{ensure_ci_rc_mode, ensure_ci_release_mode, ensure_not_ci, ExecutionEnvironment};
use cranko::version::semantic::SemverVersion;
use cranko::version::Version;

fn zero_semver() -> Version {
    Version::Semver(SemverVersion {
        major: 0,
        minor: 0,
        patch: 0,
        pre: String::new(),
        build: String::new(),
    })
}

fn do_name_assignment_test(spec: &[(&[&str], &str)]) -> Result<(), Error> {
    let mut graph = ProjectGraphBuilder::new();
    let mut ids = Vec::new();
    let empty_config: Vec<(String, ProjectConfiguration)> = Vec::new();

    for (qnames, user_facing) in spec {
        let qnames = qnames.iter().map(|s| (*s).to_owned()).collect();
        let projid = graph.try_add_project(qnames, &empty_config).unwrap();
        graph.set_version(projid, zero_semver());
        graph.set_prefix(projid, RepoPathBuf::new(b""));
        ids.push((projid, *user_facing));
    }

    let graph = graph.complete_loading()?;

    for (projid, user_facing) in ids {
        assert_eq!(graph.lookup(projid).name(), user_facing);
    }

    Ok(())
}

#[test]
fn name_assignment_1() {
    do_name_assignment_test(&[(&["A", "B"], "A")]).unwrap();
}

#[test]
fn name_assignment_2() {
    do_name_assignment_test(&[(&["A", "B"], "B:A"), (&["A", "C"], "C:A")]).unwrap();
}

#[test]
fn name_assignment_3() {
    do_name_assignment_test(&[
        (&["A", "B"], "B:A"),
        (&["A", "C"], "C:A"),
        (&["D", "B"], "D"),
        (&["E"], "E"),
    ])
    .unwrap();
}

#[test]
fn name_assignment_4() {
    do_name_assignment_test(&[(&["A", "A"], "A:A"), (&["A"], "A")]).unwrap();
}

#[test]
fn name_assignment_5() {
    do_name_assignment_test(&[
        (&["A"], "A"),
        (&["A", "B"], "B:A"),
        (&["A", "B", "C"], "C:B:A"),
        (&["A", "B", "C", "D"], "D:C:B:A"),
    ])
    .unwrap();
}

#[test]
fn identical_qualified_names_clash() {
    let r = do_name_assignment_test(&[(&["A", "B"], "B:A"), (&["A", "B"], "B:A")]);
    assert!(matches!(r, Err(Error::NamingClash(_))));
}

#[test]
fn ignored_project_is_not_added() {
    let mut graph = ProjectGraphBuilder::new();
    let config = vec![("cargo:foo".to_owned(), ProjectConfiguration { ignore: true })];
    assert!(graph
        .try_add_project(vec!["foo".to_owned(), "cargo".to_owned()], &config)
        .is_none());
    assert_eq!(
        graph.try_add_project(vec!["bar".to_owned(), "cargo".to_owned()], &config),
        Some(0)
    );
}

#[test]
fn missing_version_is_reported() {
    let mut graph = ProjectGraphBuilder::new();
    let empty: Vec<(String, ProjectConfiguration)> = Vec::new();
    let id = graph.try_add_project(vec!["a".to_owned()], &empty).unwrap();
    graph.set_prefix(id, RepoPathBuf::new(b""));
    assert!(matches!(
        graph.complete_loading(),
        Err(Error::IncompleteProject(_, _))
    ));
}

fn two_projects() -> ProjectGraphBuilder {
    let mut graph = ProjectGraphBuilder::new();
    let empty: Vec<(String, ProjectConfiguration)> = Vec::new();
    for (name, prefix) in [("top", &b""[..]), ("sub", &b"sub/"[..])] {
        let id = graph
            .try_add_project(vec![name.to_owned(), "cargo".to_owned()], &empty)
            .unwrap();
        graph.set_version(id, zero_semver());
        graph.set_prefix(id, RepoPathBuf::new(prefix));
    }
    graph
}

#[test]
fn dependencies_order_the_graph() {
    let mut graph = two_projects();
    graph.add_dependency(
        0,
        DependencyTarget::Text("sub".to_owned()),
        "*".to_owned(),
        DepRequirement::Unavailable,
    );
    let graph = graph.complete_loading().unwrap();
    assert_eq!(graph.toposorted(), &[1, 0]);
    assert_eq!(graph.lookup(0).internal_deps[0].ident, 1);
}

#[test]
fn dependency_cycle_is_reported() {
    let mut graph = two_projects();
    graph.add_dependency(0, DependencyTarget::Ident(1), "*".to_owned(), DepRequirement::Unavailable);
    graph.add_dependency(1, DependencyTarget::Ident(0), "*".to_owned(), DepRequirement::Unavailable);
    assert!(matches!(
        graph.complete_loading(),
        Err(Error::DependencyCycle(_))
    ));
}

#[test]
fn unknown_dependency_is_reported() {
    let mut graph = two_projects();
    graph.add_dependency(
        0,
        DependencyTarget::Text("nope".to_owned()),
        "*".to_owned(),
        DepRequirement::Unavailable,
    );
    match graph.complete_loading() {
        Err(Error::UnknownDependency(p, d)) => {
            assert_eq!(p, "top");
            assert_eq!(d, "nope");
        }
        _ => panic!("expected an unknown-dependency error"),
    }
}

#[test]
fn subproject_paths_are_excluded() {
    let graph = two_projects().complete_loading().unwrap();
    let top = &graph.lookup(0).repo_paths;
    let sub = &graph.lookup(1).repo_paths;
    let in_sub = RepoPathBuf::new(b"sub/file.rs");
    let in_top = RepoPathBuf::new(b"file.rs");
    assert!(!top.repo_path_matches(in_sub.as_repo_path()));
    assert!(top.repo_path_matches(in_top.as_repo_path()));
    assert!(sub.repo_path_matches(in_sub.as_repo_path()));
    assert!(!sub.repo_path_matches(in_top.as_repo_path()));
}

#[test]
fn query_filters_and_names() {
    let graph = two_projects().complete_loading().unwrap();
    let mut q = GraphQueryBuilder::new();
    q.names(vec!["sub".to_owned(), "top".to_owned(), "sub".to_owned()]);
    assert_eq!(graph.query(q).unwrap(), vec![1, 0]);

    let mut q = GraphQueryBuilder::new();
    q.names(vec!["nope".to_owned()]);
    assert!(matches!(graph.query(q), Err(Error::NoSuchProject(n)) if n == "nope"));

    let mut q = GraphQueryBuilder::new();
    q.only_project_type("pypa".to_owned());
    assert_eq!(graph.query(q).unwrap(), Vec::<usize>::new());
}

#[test]
fn environment_checks() {

    let graph = two_projects().complete_loading().unwrap();
    assert!(ensure_not_ci(&ExecutionEnvironment::NotCi, false).is_ok());
    let rc = || ExecutionEnvironment::CiRcMode(false, RcCommitInfo { commit: None, projects: Vec::new() });
    assert!(matches!(ensure_not_ci(&rc(), false), Err(Error::RefusedWithoutForce)));
    assert!(ensure_not_ci(&rc(), true).is_ok());

    let (dev, info) = ensure_ci_rc_mode(rc(), false, &graph).unwrap();
    assert!(!dev);
    assert!(info.projects.is_empty());
    assert!(matches!(
        ensure_ci_rc_mode(ExecutionEnvironment::NotCi, false, &graph),
        Err(Error::RefusedWithoutForce)
    ));
    let (dev, info) = ensure_ci_rc_mode(ExecutionEnvironment::NotCi, true, &graph).unwrap();
    assert!(dev);
    assert_eq!(info.projects.len(), 2);
    assert_eq!(info.projects[1].bump_spec, "dev-datecode");
    assert_eq!(info.projects[1].qnames, vec!["sub".to_owned(), "cargo".to_owned()]);

    let rel = ExecutionEnvironment::CiReleaseMode(true, ReleaseCommitInfo { commit: None, projects: Vec::new() });
    let (dev, info) = ensure_ci_release_mode(rel).unwrap();
    assert!(dev);
    assert!(info.commit.is_none());
    assert!(matches!(
        ensure_ci_release_mode(ExecutionEnvironment::NotCi),
        Err(Error::NoReleaseInformation)
    ));
}

#[test]
fn versions_are_assigned_from_latest_release() {
    let now = LocalTime { year: 2021, month: 5, day: 6, timestamp: 1_620_259_200 };
    let names = |n: &str| vec![n.to_owned(), "cargo".to_owned()];
    let latest = ReleaseCommitInfo {
        commit: None,
        projects: vec![ReleasedProjectInfo { qnames: names("top"), version: "1.2.3".to_owned(), age: 0 }],
    };
    let rc = RcCommitInfo {
        commit: None,
        projects: vec![
            RcProjectInfo { qnames: names("top"), bump_spec: "minor bump".to_owned() },
            RcProjectInfo { qnames: names("sub"), bump_spec: "sideways bump".to_owned() },
        ],
    };

    let mut graph = two_projects().complete_loading().unwrap();
    assert_eq!(assign_version_at(&mut graph, 0, &latest, &rc, &now).unwrap(), true);
    assert_eq!(graph.lookup(0).version().to_string(), "1.3.0");
    assert!(matches!(
        assign_version_at(&mut graph, 1, &latest, &rc, &now),
        Err(Error::UnsupportedBumpScheme(t)) if t == "sideways bump"
    ));

    let quiet = RcCommitInfo { commit: None, projects: Vec::new() };
    let mut graph = two_projects().complete_loading().unwrap();
    assert_eq!(assign_version_at(&mut graph, 0, &latest, &quiet, &now).unwrap(), false);
    assert_eq!(graph.lookup(0).version().to_string(), "1.2.3");
    assert_eq!(assign_version_at(&mut graph, 1, &latest, &quiet, &now).unwrap(), false);
    assert_eq!(graph.lookup(1).version().to_string(), "0.0.0");
}

#[test]
fn python_projects_resolve_text_dependencies() {
    let mut graph = ProjectGraphBuilder::new();
    let empty_config: Vec<(String, ProjectConfiguration)> = Vec::new();
    let a = graph
        .try_add_project(vec!["alpha".to_owned(), "pypa".to_owned()], &empty_config)
        .unwrap();
    let b = graph
        .try_add_project(vec!["beta".to_owned(), "pypa".to_owned()], &empty_config)
        .unwrap();
    for (id, prefix) in [(a, &b"alpha/"[..]), (b, &b"beta/"[..])] {
        graph.set_version(id, zero_semver());
        graph.set_prefix(id, RepoPathBuf::new(prefix));
    }
    graph.add_dependency(
        b,
        DependencyTarget::Text("alpha".to_owned()),
        "0.1".to_owned(),
        DepRequirement::Unavailable,
    );
    let graph = graph.complete_loading().unwrap();
    assert_eq!(graph.lookup(a).name(), "alpha");
    assert_eq!(graph.lookup(b).name(), "beta");
    assert_eq!(graph.toposorted(), vec![a, b]);
}
