use cranko::errors::Error;
use cranko::manifest::{record_cranko_requirements, rewrite_cargo_toml};
use cranko::version::semantic::SemverVersion;
use cranko::version::Version;

fn v(text: &str) -> Version {
    Version::Semver(SemverVersion::parse(text).unwrap())
}

fn reqs() -> Vec<(String, String)> {
    vec![("core".to_owned(), "^1.2.0".to_owned()), ("util".to_owned(), ">=0.3.0,<1".to_owned())]
}

#[test]
fn cargo_manifest_is_rewritten() {
    let text = r#"[package]
name = "app"
version = "0.0.0-dev.0"

[dependencies]
core = { path = "../core", version = "0.0.0-dev.0" }
serde = "1"

[dev-dependencies.util]
path = "../util"
version = "0.0.0-dev.0"

[target.'cfg(unix)'.dependencies]
[target.'cfg(windows)']
core = { path = "../core" }
"#;
    let out = rewrite_cargo_toml(text, &v("1.4.0"), &reqs()).unwrap();
    let doc: toml_edit::Document = out.parse().unwrap();
    assert_eq!(doc["package"]["version"].as_str(), Some("1.4.0"));
    assert_eq!(doc["package"]["name"].as_str(), Some("app"));
    assert_eq!(doc["dependencies"]["core"]["version"].as_str(), Some("^1.2.0"));
    assert_eq!(doc["dependencies"]["core"]["path"].as_str(), Some("../core"));
    assert_eq!(doc["dependencies"]["serde"].as_str(), Some("1"));
    assert_eq!(doc["dev-dependencies"]["util"]["version"].as_str(), Some(">=0.3.0,<1"));
    assert_eq!(doc["target"]["cfg(windows)"]["core"]["version"].as_str(), Some("^1.2.0"));
}

#[test]
fn cargo_manifest_errors() {
    assert!(matches!(rewrite_cargo_toml("[dependencies]\n", &v("1.0.0"), &reqs()), Err(Error::NoPackageSection)));
    assert!(matches!(rewrite_cargo_toml("[package\n", &v("1.0.0"), &reqs()), Err(Error::TomlSyntax)));
    let text = "[package]\nname = \"a\"\nversion = \"0.1.0\"\n[dependencies]\ncore = \"1\"\n";
    assert!(matches!(
        rewrite_cargo_toml(text, &v("1.0.0"), &reqs()),
        Err(Error::UnexpectedDependencyItem(k)) if k == "core"
    ));
}

#[test]
fn cranko_requirements_are_recorded() {
    let text = "[package]\nname = \"a\"\nversion = \"0.1.0\"\n";
    let entries = vec![("core".to_owned(), "thiscommit:2021-01-01:abc".to_owned())];
    let out = record_cranko_requirements(text, &entries).unwrap();
    let doc: toml_edit::Document = out.parse().unwrap();
    assert_eq!(
        doc["package"]["metadata"]["internal_dep_versions"]["core"].as_str(),
        Some("thiscommit:2021-01-01:abc")
    );
    let bad = "[package]\nname = \"a\"\nmetadata = 3\n";
    assert!(matches!(
        record_cranko_requirements(bad, &entries),
        Err(Error::NotATable(t)) if t == "package.metadata"
    ));
}
