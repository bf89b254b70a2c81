use cranko::cargo::{cranko_requirement, dep_version_edit, CargoLoader, DepItemKind};
use cranko::commands::{decode_env_value, format_tc_tag, new_tc_tag, EnvDecodingMode};
use cranko::github::{assets_named, release_name, release_summary, upload_base, GitHubInformation};
use cranko::repository::{parse_commit_ref, CommitRef};
use cranko::changelog::MarkdownChangelog;
use cranko::env::{maybe_var, require_var};
use cranko::errors::Error;
use cranko::generic::replace_all_chars;
use cranko::config::RepoConfiguration;
use cranko::history::{choose_upstream, release_walk_continues, RepoSettings};
use cranko::project::DepRequirement;
use cranko::repository::{CommitId, RepoPath};
use cranko::session::{execution_environment, EnvironmentKind, UnsatisfiedInternalRequirementError};
use cranko::zenodo::{
    UtcDate,
    doi_rewrites, plan_preregistration, record_new_concept, rewrite_doi_line, PreregStep,
    ZenodoMetadata,
};

fn s(x: &str) -> String {
    x.to_owned()
}

fn chars(x: &str) -> Vec<char> {
    x.chars().collect()
}

#[test]
fn environment_variables() {
    assert!(matches!(maybe_var("K", None), Ok(None)));
    assert!(matches!(maybe_var("K", Some(Some(s("")))), Ok(None)));
    assert_eq!(maybe_var("K", Some(Some(s("v")))).unwrap().unwrap(), "v");
    assert!(matches!(maybe_var("K", Some(None)), Err(Error::EnvVarNotUnicode(k)) if k == "K"));
    assert!(matches!(require_var("K", None), Err(Error::MissingEnvVar(k)) if k == "K"));
    assert!(matches!(require_var("K", Some(Some(s("")))), Err(Error::MissingEnvVar(_))));
    assert_eq!(require_var("K", Some(Some(s("tok")))).unwrap(), "tok");
}

#[test]
fn placeholder_replacement() {
    let out = replace_all_chars(&chars("v=@V@ and @V@!"), &chars("@V@"), &chars("1.0"));
    assert_eq!(out.iter().collect::<String>(), "v=1.0 and 1.0!");
    let out = replace_all_chars(&chars("aaa"), &chars("aa"), &chars("b"));
    assert_eq!(out.iter().collect::<String>(), "ba");
    let out = replace_all_chars(&chars("ab"), &chars(""), &chars("-"));
    assert_eq!(out.iter().collect::<String>(), "-a-b-");
}

#[test]
fn cargo_toml_directory_is_common_prefix() {
    let mut loader = CargoLoader::new();
    loader.process_index_item(&RepoPath::new(b"a/b/"), &RepoPath::new(b"Cargo.toml"));
    loader.process_index_item(&RepoPath::new(b"a/c/"), &RepoPath::new(b"Cargo.toml"));
    loader.process_index_item(&RepoPath::new(b"zzz/"), &RepoPath::new(b"README.md"));
    assert_eq!(loader.shortest_toml_dirname().unwrap().as_repo_path().as_bytes(), b"a/");
}

#[test]
fn cargo_requirement_texts() {
    assert_eq!(
        cranko_requirement(&DepRequirement::Manual(s("^1.2"))).unwrap(),
        "manual:^1.2"
    );
    assert_eq!(
        cranko_requirement(&DepRequirement::Commit(CommitId([0xab; 20]))).unwrap(),
        "abababababababababababababababababababab"
    );
    assert!(cranko_requirement(&DepRequirement::Unavailable).is_none());
    let reqs = vec![(s("foo"), s(">=0.3.0,<1"))];
    assert_eq!(
        dep_version_edit(&reqs, &s("foo"), DepItemKind::Table).unwrap().unwrap(),
        ">=0.3.0,<1"
    );
    assert!(dep_version_edit(&reqs, &s("bar"), DepItemKind::Other).unwrap().is_none());
    assert!(matches!(
        dep_version_edit(&reqs, &s("foo"), DepItemKind::Other),
        Err(Error::UnexpectedDependencyItem(d)) if d == "foo"
    ));
}

#[test]
fn curly_templates_and_wrapping() {
    let cl = MarkdownChangelog::new();
    let long = "word ".repeat(20);
    let section = cl.draft_section(&vec![s("Fix a bug"), s(long.trim())]).unwrap();
    assert_eq!(section[0], "# rc: micro bump\n");
    assert_eq!(section[1], "- Fix a bug");
    assert_eq!(section[2], format!("- {}", "word ".repeat(15).trim()));
    assert_eq!(section[3], format!("  {}", "word ".repeat(5).trim()));
    assert_eq!(section[4], "");
    assert_eq!(section.len(), 5);
}

#[test]
fn changelog_scanning() {
    let cl = MarkdownChangelog::new();
    let lines = vec![s("# foo 1.0.0 (2020-01-01)"), s(""), s("- a"), s("# foo 0.9.0"), s("- b")];
    assert_eq!(cl.scan_changelog(&lines), "# foo 1.0.0 (2020-01-01)\n\n- a\n");
    assert_eq!(cl.scan_changelog(&vec![s("no header")]), "");
}

#[test]
fn zenodo_preregistration() {
    let mut md = ZenodoMetadata {
        concept_rec_id: s("new-for:1.0.0"),
        concept_doi: s(""),
        version_rec_id: s(""),
        version_doi: s(""),
        bucket_link: s(""),
    };
    assert!(md.check_for_prereg().is_ok());
    assert!(matches!(md.check_for_deployment(), Err(Error::ZenodoMissingDoi)));
    assert!(matches!(plan_preregistration(&mut md, false, "pkg", "1.0.0"), Ok(PreregStep::NewConcept)));
    assert!(matches!(
        plan_preregistration(&mut md, false, "pkg", "2.0.0"),
        Err(Error::ZenodoConceptVersion(t, v)) if t == "1.0.0" && v == "2.0.0"
    ));
    record_new_concept(&mut md, Some(s("123")), Some(s("456")), Some(s("10.5281/zenodo.456")), Some(s("http://b"))).unwrap();
    assert_eq!(md.concept_doi, "10.5281/zenodo.123");
    assert!(matches!(
        record_new_concept(&mut md, Some(s("1")), None, None, None),
        Err(Error::ZenodoResponseField(f)) if f == "record_id"
    ));
    let mut dev = ZenodoMetadata {
        concept_rec_id: s("99"),
        concept_doi: s(""),
        version_rec_id: s(""),
        version_doi: s(""),
        bucket_link: s(""),
    };
    assert!(matches!(plan_preregistration(&mut dev, true, "pkg", "1.0.0"), Ok(PreregStep::Faked)));
    assert_eq!(dev.version_doi, "xx.xxxx/dev-build.pkg.v1.0.0");
    let rw = doi_rewrites("pkg", &md);
    let (line, did) = rewrite_doi_line("doi = 'xx.xxxx/dev-build.pkg.concept'", &rw);
    assert!(did);
    assert_eq!(line, "doi = '10.5281/zenodo.123'");
}

#[test]
fn environment_decisions() {
    let rc = s("rc");
    let rel = s("release");
    assert_eq!(execution_environment(false, None, &None, &rc, &rel, false), EnvironmentKind::NotCi);
    assert_eq!(
        execution_environment(true, Some(true), &Some(s("rc")), &rc, &rel, false),
        EnvironmentKind::NotCi
    );
    assert_eq!(
        execution_environment(true, None, &Some(s("rc")), &rc, &rel, false),
        EnvironmentKind::CiRcMode(false)
    );
    assert_eq!(
        execution_environment(true, None, &Some(s("main")), &rc, &rel, false),
        EnvironmentKind::CiRcMode(true)
    );
    assert_eq!(
        execution_environment(true, None, &Some(s("rc")), &rc, &rel, true),
        EnvironmentKind::CiReleaseMode(false)
    );
    assert_eq!(
        execution_environment(true, None, &Some(s("release")), &rc, &rel, true),
        EnvironmentKind::NotCi
    );
}

#[test]
fn upstream_remote_choice() {
    assert_eq!(choose_upstream(&vec![Some(s("up"))]).unwrap(), "up");
    assert_eq!(choose_upstream(&vec![Some(s("fork")), Some(s("origin"))]).unwrap(), "origin");
    assert!(matches!(choose_upstream(&vec![Some(s("a")), Some(s("b"))]), Err(Error::NoUpstreamRemote)));
    assert!(matches!(choose_upstream(&vec![None]), Err(Error::NoUpstreamRemote)));
    assert!(release_walk_continues(1, 2, 2));
    assert!(!release_walk_continues(2, 2, 2));
    assert!(!release_walk_continues(1, 2, 1));
}

#[test]
fn unsatisfied_requirement_message() {
    let e = UnsatisfiedInternalRequirementError(s("a"), s("b, c"));
    assert_eq!(e.message(), "unsatisfied internal requirement: `a` needs newer `b, c`");
}

#[test]
fn env_decoding_modes() {
    assert_eq!(EnvDecodingMode::from_str("text").unwrap(), EnvDecodingMode::Text);
    assert_eq!(EnvDecodingMode::from_str("base64").unwrap(), EnvDecodingMode::Base64);
    assert!(matches!(EnvDecodingMode::from_str("hex"), Err(Error::UnknownEncodingMode(m)) if m == "hex"));
    assert_eq!(decode_env_value(EnvDecodingMode::Text, "V", "héllo").unwrap(), "héllo".as_bytes());
    assert_eq!(decode_env_value(EnvDecodingMode::Base64, "V", "aGVsbG8=").unwrap(), b"hello");
    assert!(matches!(
        decode_env_value(EnvDecodingMode::Base64, "V", "not base64!"),
        Err(Error::Base64Value(n)) if n == "V"
    ));
}

#[test]
fn this_commit_tags() {
    let d = UtcDate { year: 2021, month: 3, day: 7 };
    let salt: Vec<char> = "aB3dE5g".chars().collect();
    let tag = format_tc_tag(&d, &salt);
    assert_eq!(tag, "thiscommit:2021-03-07:aB3dE5g");
    assert!(matches!(parse_commit_ref(&tag), Ok(CommitRef::ThisCommit { salt }) if salt == "2021-03-07:aB3dE5g"));

    let fresh = new_tc_tag();
    assert!(fresh.starts_with("thiscommit:"));
    assert_eq!(fresh.len(), "thiscommit:YYYY-MM-DD:".len() + 7);
    assert!(fresh[fresh.len() - 7..].chars().all(|c| c.is_ascii_alphanumeric()));
    assert!(matches!(parse_commit_ref(&fresh), Ok(CommitRef::ThisCommit { .. })));
}

#[test]
fn github_information() {
    let tok = Some(Some(s("secret")));
    let info = GitHubInformation::new(tok.clone(), "git@github.com:pkgw/cranko.git").unwrap();
    assert_eq!(info.slug, "pkgw/cranko");
    assert_eq!(info.token, "secret");
    let info = GitHubInformation::new(tok.clone(), "https://github.com/pkgw/cranko").unwrap();
    assert_eq!(info.slug, "pkgw/cranko");
    assert_eq!(info.api_url("releases"), "https://api.github.com/repos/pkgw/cranko/releases");
    assert!(matches!(GitHubInformation::new(None, "https://github.com/a/b"), Err(Error::MissingEnvVar(_))));
    assert!(matches!(
        GitHubInformation::new(tok, "/local/path"),
        Err(Error::UpstreamUrl(u)) if u == "/local/path"
    ));
    assert_eq!(release_name("cranko", "0.1.0"), "cranko 0.1.0");
}

#[test]
fn info_block_roundtrip() {
    let body = "[[projects]]\nqnames = [\"a\", \"cargo\"]\nbump_spec = \"micro bump\"\n";
    let msg = cranko::repository::info_commit_message(
        "Release request commit created with Cranko.",
        "+++ cranko-rc-info-v1",
        body,
    );
    assert_eq!(
        msg,
        format!("Release request commit created with Cranko.\n\n+++ cranko-rc-info-v1\n{}\n+++\n", body)
    );
    let (data, unterminated) = cranko::repository::extract_info_block(&msg, "+++ cranko-rc-info-v1").unwrap();
    assert_eq!(data, format!("{}\n", body));
    assert!(!unterminated);
}

#[test]
fn github_release_helpers() {
    assert_eq!(
        upload_base("https://uploads.github.com/repos/o/r/releases/1/assets{?name,label}"),
        "https://uploads.github.com/repos/o/r/releases/1/assets"
    );
    assert_eq!(upload_base("https://example.com/x"), "https://example.com/x");
    let assets = vec![(s("a.zip"), s("1")), (s("b.zip"), s("2")), (s("a.zip"), s("3"))];
    assert_eq!(assets_named(&assets, "a.zip"), vec![s("1"), s("3")]);
    assert!(assets_named(&assets, "c.zip").is_empty());
    assert_eq!(release_summary(true, 2, 3).unwrap(), (s("created GitHub releases for 2 of 3 projects"), false));
    assert_eq!(release_summary(false, 1, 2).unwrap(), (s("created GitHub releases for 1 of 2 selected projects"), true));
    assert!(release_summary(false, 2, 2).is_none());
    assert!(release_summary(true, 1, 1).is_none());
}

#[test]
fn zenodo_service_helpers() {
    assert_eq!(cranko::zenodo::percent_encode_name("my file-1.tar.gz"), "my%20file%2D1%2Etar%2Egz");
    assert_eq!(cranko::zenodo::percent_encode_name("é"), "%C3%A9");
    assert_eq!(cranko::zenodo::percent_encode_name("abcXYZ019"), "abcXYZ019");
    assert_eq!(cranko::zenodo::zenodo_api_url("deposit/depositions"), "https://zenodo.org/api/deposit/depositions");
    assert_eq!(cranko::zenodo::publish_endpoint("123"), "deposit/depositions/123/actions/publish");
    assert!(matches!(cranko::zenodo::check_deposit_mode(false, false), Ok(false)));
    assert!(matches!(cranko::zenodo::check_deposit_mode(true, true), Ok(true)));
    assert!(matches!(cranko::zenodo::check_deposit_mode(true, false), Err(Error::RefusedWithoutForce)));
    let date = cranko::zenodo::publication_date();
    assert_eq!(date.len(), 10);
    assert_eq!(&date[4..5], "-");
}

#[test]
fn repository_settings_from_remotes() {
    let rs = RepoSettings::from_remotes(&vec![Some(s("fork")), Some(s("origin"))]).unwrap();
    assert_eq!(rs.upstream_name, "origin");
    assert_eq!(rs.rc_name, "rc");
    assert_eq!(rs.release_name, "release");
    assert_eq!(rs.tag_format, "{project_slug}@{version}");
    let rs = RepoSettings::from_remotes(&vec![Some(s("upstream"))]).unwrap();
    assert_eq!(rs.upstream_name, "upstream");
    assert!(matches!(RepoSettings::from_remotes(&Vec::new()), Err(Error::NoUpstreamRemote)));
    assert!(matches!(
        GitHubInformation::new(Some(Some(s("t"))), "ssh://é:\\\\"),
        Err(Error::UpstreamUrl(_))
    ));
}

#[test]
fn ssh_upstream_urls() {
    let tok = Some(Some(s("t")));
    assert!(matches!(GitHubInformation::new(tok.clone(), "ssh://github.com"), Err(Error::UpstreamUrl(_))));
    let info = GitHubInformation::new(tok.clone(), "ssh://git@github.com/pkgw/cranko.git").unwrap();
    assert_eq!(info.slug, "pkgw/cranko");
    let info = GitHubInformation::new(tok.clone(), "git@github.com:pkgw/cranko.git").unwrap();
    assert_eq!(info.slug, "pkgw/cranko");
    let info = GitHubInformation::new(tok, "ssh://git@github.com:22/pkgw/cranko.git").unwrap();
    assert_eq!(info.slug, "pkgw/cranko");
}

#[test]
fn upstream_remote_from_configured_url() {
    let remotes = vec![
        (s("mine"), Some(s("git@github.com:me/proj.git"))),
        (s("odd"), None),
        (s("up"), Some(s("https://github.com/org/proj.git"))),
        (s("up2"), Some(s("git@github.com:org/proj.git"))),
    ];
    let mut rs = RepoSettings::from_remotes(&vec![Some(s("origin"))]).unwrap();
    let cfg = RepoConfiguration {
        upstream_urls: vec![s("git@github.com:org/proj.git"), s("https://github.com/org/proj.git")],
        rc_name: Some(s("staging")),
        release_name: None,
        release_tag_name_format: Some(s("v{version}")),
    };
    rs.apply_config(&cfg, &remotes).unwrap();
    assert_eq!(rs.upstream_name, "up");
    assert_eq!(rs.rc_name, "staging");
    assert_eq!(rs.release_name, "release");
    assert_eq!(rs.tag_format, "v{version}");

    let none = RepoConfiguration {
        upstream_urls: Vec::new(),
        rc_name: None,
        release_name: Some(s("published")),
        release_tag_name_format: None,
    };
    rs.apply_config(&none, &remotes).unwrap();
    assert_eq!(rs.upstream_name, "up");
    assert_eq!(rs.release_name, "published");

    let missing = RepoConfiguration {
        upstream_urls: vec![s("https://example.com/other.git")],
        rc_name: Some(s("never")),
        release_name: None,
        release_tag_name_format: None,
    };
    assert!(matches!(rs.apply_config(&missing, &remotes), Err(Error::NoUpstreamRemote)));
    assert_eq!(rs.upstream_name, "up");
    assert_eq!(rs.rc_name, "staging");
}
