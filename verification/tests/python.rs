use cranko::errors::Error;
use cranko::pypa::{
    extract_text_from_string_literal, has_commented_marker, internal_req_name,
    replace_text_in_string_literal, replace_tuple_literal, rewrite_python_line,
    scan_python_source, version_from_line, PypaLoader,
};
use cranko::repository::RepoPath;
use cranko::version::pep440::Pep440Version;
use cranko::version::Version;

fn s(x: &str) -> String {
    x.to_owned()
}

#[test]
fn commented_marker_must_follow_hash() {
    assert!(has_commented_marker("version = '1.0'  # cranko project-version", "cranko project-version"));
    assert!(!has_commented_marker("cranko project-version # nothing", "cranko project-version"));
    assert!(!has_commented_marker("version = '1.0'", "cranko project-version"));
}

#[test]
fn string_literal_extraction() {
    assert_eq!(
        extract_text_from_string_literal("version = '1.2.3'  # cranko project-version").unwrap(),
        "1.2.3"
    );
    assert_eq!(
        extract_text_from_string_literal("name = \"foo\" # it's here").unwrap(),
        "foo"
    );
    assert!(matches!(
        extract_text_from_string_literal("no quotes"),
        Err(Error::StringLiteral(_))
    ));
    assert!(matches!(
        extract_text_from_string_literal("only ' one"),
        Err(Error::StringLiteral(_))
    ));
    assert!(matches!(
        extract_text_from_string_literal("x = 'a\\'b'"),
        Err(Error::StringLiteral(_))
    ));
}

#[test]
fn string_literal_replacement_roundtrips() {
    let line = "__version__ = '0.0.0.dev0'  # cranko project-version";
    let replaced = replace_text_in_string_literal(line, "1.2.0").unwrap();
    assert_eq!(replaced, "__version__ = '1.2.0'  # cranko project-version");
    assert_eq!(extract_text_from_string_literal(&replaced).unwrap(), "1.2.0");
}

#[test]
fn tuple_literal_replacement() {
    let line = "version_info = (0, 0, 0, 'dev', 0)  # cranko project-version tuple";
    assert_eq!(
        replace_tuple_literal(line, "(1, 2, 3, 'final', 0)").unwrap(),
        "version_info = (1, 2, 3, 'final', 0)  # cranko project-version tuple"
    );
    assert!(matches!(replace_tuple_literal("x = )(", "()"), Err(Error::TupleLiteral(_))));
}

#[test]
fn versions_from_marked_lines() {
    let v = version_from_line("__version__ = '1.2.3rc1'  # cranko project-version").unwrap();
    assert_eq!(v, "1.2.3rc1".parse::<Pep440Version>().unwrap());
    let t = version_from_line("version_info = (1, 2, 3, 'final', 0)  # cranko project-version tuple")
        .unwrap();
    assert_eq!(t.to_string(), "1.2.3");
}

#[test]
fn internal_requirement_names() {
    assert!(internal_req_name("x = 1").is_none());
    assert_eq!(
        internal_req_name("dep = 'foo>=1'  # cranko internal-req foo").unwrap().unwrap(),
        "foo"
    );
    assert!(matches!(
        internal_req_name("dep = 'foo'  # cranko internal-req"),
        Some(Err(Error::MissingInternalReqName))
    ));
}

#[test]
fn setup_py_scanning() {
    let lines = vec![
        s("from setuptools import setup"),
        s("NAME = 'mypkg'  # cranko project-name"),
        s("VERSION = '0.1.0'  # cranko project-version"),
    ];
    let (name, version) = scan_python_source(&lines, None, None, true, true).unwrap();
    assert_eq!(name.unwrap(), "mypkg");
    assert_eq!(version.unwrap().to_string(), "0.1.0");
    let (name, version) = scan_python_source(&lines, Some(s("given")), None, true, false).unwrap();
    assert_eq!(name.unwrap(), "given");
    assert!(version.is_none());
}

#[test]
fn python_line_rewriting() {
    let v = Version::Pep440("1.4.0".parse().unwrap());
    let reqs = vec![(s("other"), s("^2.0"))];
    let (line, did) =
        rewrite_python_line("__version__ = '0.dev0'  # cranko project-version", &v, &reqs).unwrap();
    assert!(did);
    assert_eq!(line, "__version__ = '1.4.0'  # cranko project-version");
    let (line, did) =
        rewrite_python_line("dep = 'other'  # cranko internal-req other", &v, &reqs).unwrap();
    assert!(did);
    assert_eq!(line, "dep = '^2.0'  # cranko internal-req other");
    let (line, did) = rewrite_python_line("print('hi')", &v, &reqs).unwrap();
    assert!(!did);
    assert_eq!(line, "print('hi')");
    assert!(matches!(
        rewrite_python_line("dep = 'x'  # cranko internal-req nope", &v, &reqs),
        Err(Error::UntracedInternalReq(n)) if n == "nope"
    ));
}

#[test]
fn setup_py_marks_python_directories() {
    let mut loader = PypaLoader::new();
    loader.process_index_item(&RepoPath::new(b"py/"), &RepoPath::new(b"setup.py"));
    loader.process_index_item(&RepoPath::new(b"py/"), &RepoPath::new(b"setup.py"));
    loader.process_index_item(&RepoPath::new(b"other/"), &RepoPath::new(b"pyproject.toml"));
    let dirs = loader.dirs_of_interest();
    assert_eq!(dirs.len(), 1);
    assert_eq!(dirs[0].as_repo_path().as_bytes(), b"py/");
}
