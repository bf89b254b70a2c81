use cranko::cargo::{archive_name, package_arg, parse_target, BinaryArchiveMode};
use cranko::config::ProjectConfiguration;
use cranko::errors::Error;
use cranko::graph::{ProjectGraph, ProjectGraphBuilder};
use cranko::project::{DepRequirement, Dependency};
use cranko::repository::{CommitId, PathMatcher, ReleaseCommitInfo, ReleasedProjectInfo, RepoPath, RepoPathBuf};
use cranko::version::bump::LocalTime;
use cranko::version::semantic::SemverVersion;
use cranko::version::Version;
use cranko::workflow::{
    confirm_version_at, first_dirty_path, is_dirty_entry, rc_scan_entry, requirement_text, should_stage, stage_summary,
    status_line, RcScanVerdict, StatusFlags,
};

fn semver(major: u64, minor: u64, patch: u64) -> Version {
    Version::Semver(SemverVersion { major, minor, patch, pre: String::new(), build: String::new() })
}

fn graph() -> ProjectGraph {
    let mut graph = ProjectGraphBuilder::new();
    let empty: Vec<(String, ProjectConfiguration)> = Vec::new();
    for (name, prefix) in [("top", &b""[..]), ("sub", &b"sub/"[..])] {
        let id = graph.try_add_project(vec![name.to_owned(), "cargo".to_owned()], &empty).unwrap();
        graph.set_version(id, semver(0, 4, 0));
        graph.set_prefix(id, RepoPathBuf::new(prefix));
    }
    graph.complete_loading().unwrap()
}

fn flags() -> StatusFlags {
    StatusFlags {
        current: false,
        conflicted: false,
        index_new: false,
        index_modified: false,
        wt_new: false,
        wt_modified: false,
        ignored: false,
    }
}

#[test]
fn staging_decisions() {
    assert!(should_stage(false, false, 3));
    assert!(!should_stage(false, false, 0));
    assert!(should_stage(false, true, 0));
    assert!(!should_stage(true, true, 0));
    assert_eq!(stage_summary(true, 0, 4).unwrap(), "nothing further to stage at this time");
    assert_eq!(stage_summary(true, 2, 4).unwrap(), "2 of 4 projects staged");
    assert_eq!(stage_summary(true, 1, 4).unwrap(), "1 of 4 selected projects staged");
    assert!(stage_summary(true, 1, 1).is_none());
    assert_eq!(stage_summary(false, 1, 3).unwrap(), "1 of 3 selected projects staged");
    assert!(stage_summary(false, 3, 3).is_none());
}

#[test]
fn status_lines() {
    let rel = |age| ReleasedProjectInfo { qnames: vec![], version: "1.0.0".to_owned(), age };
    let l = status_line("foo", 0, Some(&rel(0)));
    assert_eq!((l.head.as_str(), l.count, l.tail.as_str()), ("foo: no relevant commits since 1.0.0", None, ""));
    let l = status_line("foo", 3, Some(&rel(0)));
    assert_eq!((l.head.as_str(), l.count, l.tail.as_str()), ("foo: ", Some(3), " relevant commit(s) since 1.0.0"));
    let l = status_line("foo", 3, Some(&rel(2)));
    assert_eq!(l.head, "foo: no more than ");
    assert_eq!(l.tail, " relevant commit(s) since 1.0.0 (unable to track in detail)");
    let l = status_line("foo", 12, None);
    assert_eq!(l.head, "foo: 12 relevant commit(s) since start of history (no releases on record)");
    assert!(l.count.is_none());
}

#[test]
fn requirement_descriptions() {
    let dep = |req, resolved| Dependency { ident: 0, literal: String::new(), cranko_requirement: req, resolved_version: resolved };
    let d = dep(DepRequirement::Commit(CommitId([0u8; 20])), Some(semver(1, 2, 0)));
    assert_eq!(requirement_text(&d), ">= 1.2.0");
    let d = dep(DepRequirement::Manual("^1".to_owned()), None);
    assert_eq!(requirement_text(&d), "^1 (manual)");
    let d = dep(DepRequirement::Unavailable, None);
    assert_eq!(requirement_text(&d), "** version requirement unavailable **");
}

#[test]
fn dirty_paths() {
    let matchers = vec![PathMatcher::new_include(RepoPathBuf::new(b"CHANGELOG.md"))];
    assert!(!is_dirty_entry(&matchers, &RepoPath::new(b"CHANGELOG.md"), false));
    assert!(is_dirty_entry(&matchers, &RepoPath::new(b"src/lib.rs"), false));
    assert!(!is_dirty_entry(&matchers, &RepoPath::new(b"src/lib.rs"), true));
    assert!(is_dirty_entry(&Vec::new(), &RepoPath::new(b"x"), false));
    let entries = vec![
        (RepoPathBuf::new(b"CHANGELOG.md"), false),
        (RepoPathBuf::new(b"a b.rs"), true),
        (RepoPathBuf::new(b"src/main.rs"), false),
        (RepoPathBuf::new(b"src/lib.rs"), false),
    ];
    assert_eq!(first_dirty_path(&matchers, &entries), Some("src/main.rs".to_owned()));
    let clean = vec![(RepoPathBuf::new(b"CHANGELOG.md"), false), (RepoPathBuf::new(b"a b.rs"), true)];
    assert_eq!(first_dirty_path(&matchers, &clean), None);
}

#[test]
fn release_request_scanning() {
    let g = graph();
    let sub = g.lookup(1);
    let changelog = PathMatcher::new_include(RepoPathBuf::new(b"sub/CHANGELOG.md"));
    let modified = StatusFlags { wt_modified: true, ..flags() };
    let p = |b: &'static [u8]| RepoPath::new(b);
    assert_eq!(rc_scan_entry(sub, &changelog, &p(b"sub/CHANGELOG.md"), &modified, false), RcScanVerdict::Changelog);
    let conflicted = StatusFlags { conflicted: true, ..flags() };
    assert_eq!(rc_scan_entry(sub, &changelog, &p(b"sub/CHANGELOG.md"), &conflicted, true), RcScanVerdict::Dirty);
    assert_eq!(rc_scan_entry(sub, &changelog, &p(b"sub/lib.rs"), &modified, false), RcScanVerdict::Dirty);
    assert_eq!(rc_scan_entry(sub, &changelog, &p(b"sub/lib.rs"), &modified, true), RcScanVerdict::Skip);
    let untracked = StatusFlags { wt_new: true, ..flags() };
    assert_eq!(rc_scan_entry(sub, &changelog, &p(b"sub/new.rs"), &untracked, false), RcScanVerdict::Skip);
    assert_eq!(rc_scan_entry(sub, &changelog, &p(b"other/lib.rs"), &modified, false), RcScanVerdict::Skip);
}

#[test]
fn confirmed_versions() {
    let now = LocalTime { year: 2021, month: 5, day: 6, timestamp: 1_620_259_200 };
    let last = ReleaseCommitInfo {
        commit: None,
        projects: vec![ReleasedProjectInfo {
            qnames: vec!["top".to_owned(), "cargo".to_owned()],
            version: "1.2.3".to_owned(),
            age: 0,
        }],
    };
    let mut g = graph();
    assert_eq!(confirm_version_at(&mut g, 0, &last, "micro bump", &now).unwrap(), "1.2.3");
    assert_eq!(g.lookup(0).version().to_string(), "1.2.4");
    assert_eq!(confirm_version_at(&mut g, 1, &last, "major bump", &now).unwrap(), "[no previous releases]");
    assert_eq!(g.lookup(1).version().to_string(), "1.0.0");
    assert!(matches!(
        confirm_version_at(&mut g, 1, &last, "huge bump", &now),
        Err(Error::UnsupportedBumpScheme(t)) if t == "huge bump"
    ));
}

#[test]
fn binary_archives() {
    let g = graph();
    let top = g.lookup(0);
    let linux = parse_target("x86_64-unknown-linux-gnu").unwrap();
    assert!(!linux.windows);
    assert_eq!(BinaryArchiveMode::from_target(&linux), BinaryArchiveMode::Tarball);
    assert_eq!(
        archive_name(BinaryArchiveMode::Tarball, top, &linux),
        "top-0.4.0-x86_64-unknown-linux-gnu.tar.gz"
    );
    let win = parse_target("x86_64-pc-windows-msvc").unwrap();
    assert!(win.windows);
    assert_eq!(BinaryArchiveMode::from_target(&win), BinaryArchiveMode::Zipball);
    assert_eq!(archive_name(BinaryArchiveMode::Zipball, top, &win), "top-0.4.0-x86_64-pc-windows-msvc.zip");
    assert!(matches!(parse_target("not a triple at all"), Err(Error::TargetTriple(t)) if t == "not a triple at all"));
    assert_eq!(package_arg(top), "--package=top");
}

#[test]
fn drafted_changelog_reads_back_as_request() {
    let g = graph();
    let cl = cranko::changelog::MarkdownChangelog::new();
    let section = cl.draft_section(&vec!["Add a feature".to_owned()]).unwrap();
    let mut text = String::new();
    for line in &section {
        text.push_str(line);
        text.push('\n');
    }
    text.push_str("# top 0.3.0 (2020-01-01)\n\n- Earlier work\n");
    let lines: Vec<String> = text.lines().map(|l| l.to_owned()).collect();
    let info = cl.scan_rc_info(g.lookup(0), &lines).unwrap();
    assert_eq!(info.bump_spec, "micro bump");
    assert_eq!(info.qnames, vec!["top".to_owned(), "cargo".to_owned()]);
}
