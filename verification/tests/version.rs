use cranko::version::dotnet::DotNetVersion;
use cranko::version::pep440::{Pep440Prerelease, Pep440Version};
use cranko::version::semantic::SemverVersion;
use cranko::version::Version;
use cranko::version::VersionBumpScheme;

fn pep(text: &str) -> Pep440Version {
    text.parse::<Pep440Version>().unwrap()
}

fn cvers(
    epoch: usize,
    segments: &[usize],
    pre: Option<Pep440Prerelease>,
    post: Option<usize>,
    dev: Option<usize>,
    local: Option<&str>,
) -> Pep440Version {
    Pep440Version {
        epoch,
        segments: segments.to_vec(),
        pre_release: pre,
        post_release: post,
        dev_release: dev,
        local_identifier: local.map(|s| s.to_owned()),
    }
}

#[test]
fn version_greater_less() {
    const DOTNET_CASES: &[(&str, &str)] = &[
        ("0.0.0.9999", "0.0.1.0"),
        ("0.0.0.9999", "0.1.0.0"),
        ("0.0.0.9999", "1.0.0.0"),
        ("1.0.0.0", "1.0.0.1"),
    ];

    for (l_text, g_text) in DOTNET_CASES {
        let lesser = l_text.parse::<DotNetVersion>().unwrap();
        let greater = g_text.parse::<DotNetVersion>().unwrap();
        assert!(lesser < greater);
        assert!(greater > lesser);
    }

    const PEP440_CASES: &[(&str, &str)] = &[
        ("1.0", "1.1"),
        ("1.0.dev.0", "1.0"),
        ("1.0.dev.0", "1.0a0"),
        ("1.0.alpha.0", "1.0b0"),
        ("1.0-b-0", "1.0c0"),
        ("1.0rc0", "1.0"),
        ("1.0", "1.0.post.0"),
        ("1.0", "1.0-0"),
        ("1.0a0.dev0", "1.0a0"),
        ("1.0a0", "1.0a0.post0"),
        ("1.0b0.dev0", "1.0b0"),
        ("1.0b0", "1.0b0.post0"),
        ("1.0rc0.dev0", "1.0rc0"),
        ("1.0rc0", "1.0rc0.post0"),
        ("1.0.post0.dev0", "1.0.post0"),
        ("1.0rc0", "1.0rc0.post0"),
        ("1.0.b0.post0.dev0", "1.0.b0.post0"),
        ("2020.99", "1!0"),
    ];

    for (l_text, g_text) in PEP440_CASES {
        let lesser = pep(l_text);
        let greater = pep(g_text);
        assert!(lesser < greater);
        assert!(greater > lesser);
    }
}

#[test]
fn parse() {
    let cases: Vec<(&str, Pep440Version)> = vec![
        ("0", cvers(0, &[0], None, None, None, None)),
        ("1.010", cvers(0, &[1, 10], None, None, None, None)),
        ("1.0.dev456", cvers(0, &[1, 0], None, None, Some(456), None)),
        ("1.0a12.dev456", cvers(0, &[1, 0], Some(Pep440Prerelease::Alpha(12)), None, Some(456), None)),
        ("1.0b2.post345.dev456", cvers(0, &[1, 0], Some(Pep440Prerelease::Beta(2)), Some(345), Some(456), None)),
        ("1.0rc1.dev456", cvers(0, &[1, 0], Some(Pep440Prerelease::Rc(1)), None, Some(456), None)),
        ("1.0+abc.5", cvers(0, &[1, 0], None, None, None, Some("abc.5"))),
        ("1.0+5", cvers(0, &[1, 0], None, None, None, Some("5"))),
        ("1!1", cvers(1, &[1], None, None, None, None)),
        ("1RC1", cvers(0, &[1], Some(Pep440Prerelease::Rc(1)), None, None, None)),
        ("1.RC.1", cvers(0, &[1], Some(Pep440Prerelease::Rc(1)), None, None, None)),
        ("1-RC-1", cvers(0, &[1], Some(Pep440Prerelease::Rc(1)), None, None, None)),
        ("1_RC_1", cvers(0, &[1], Some(Pep440Prerelease::Rc(1)), None, None, None)),
        ("  v1_RC_1   ", cvers(0, &[1], Some(Pep440Prerelease::Rc(1)), None, None, None)),
        ("  1_RC_1   ", cvers(0, &[1], Some(Pep440Prerelease::Rc(1)), None, None, None)),
        ("1.0a0", cvers(0, &[1, 0], Some(Pep440Prerelease::Alpha(0)), None, None, None)),
        ("1.0alpha0", cvers(0, &[1, 0], Some(Pep440Prerelease::Alpha(0)), None, None, None)),
        ("1.0b0", cvers(0, &[1, 0], Some(Pep440Prerelease::Beta(0)), None, None, None)),
        ("1.0beta0", cvers(0, &[1, 0], Some(Pep440Prerelease::Beta(0)), None, None, None)),
        ("1.0pre0", cvers(0, &[1, 0], Some(Pep440Prerelease::Rc(0)), None, None, None)),
        ("1.0preview0", cvers(0, &[1, 0], Some(Pep440Prerelease::Rc(0)), None, None, None)),
    ];

    for (text, expected) in cases {
        let observed = text.parse::<Pep440Version>().unwrap();
        assert_eq!(expected, observed);
    }
}

#[test]
fn bad_versions() {
    const BAD_CASES: &[&str] = &["-1", "bad!1.0", "1.dev0.pre0"];

    for text in BAD_CASES {
        assert!(text.parse::<Pep440Version>().is_err());
    }
}

#[test]
fn eq() {
    const CASES: &[(&str, &str)] = &[
        ("1.0", "1"),
        ("1.0.0.0.0", "1"),
        ("1.0+something", "1"),
        ("0!1.0", "1"),
        ("1.0a0", "1.0.alpha.0"),
        ("1.0b0", "1.0-beta-0"),
        ("1.0c0", "1.0rc"),
        ("1.0c0", "1.0pre0"),
        ("1.0c0", "1.0preview"),
        ("1.0-10", "1.0.post_10"),
    ];

    for (l_text, r_text) in CASES {
        let left = pep(l_text);
        let right = pep(r_text);
        assert_eq!(left, right);
    }
}

#[test]
fn display_roundtrip() {
    const CASES: &[&str] = &["0!0", "1.0.0.0.0.0", "1RC0", "1.0+SOME_TEXT", "1.0-0"];

    for text in CASES {
        let orig = pep(text);
        let roundtripped = orig.to_string().parse().unwrap();
        assert_eq!(orig, roundtripped);
    }
}

#[test]
fn version_precedence_across_schemes() {
    let sv = |t: &str| Version::Semver(SemverVersion::parse(t).unwrap());
    assert_eq!(sv("1.0.0").precedes(&sv("1.1.0")), Some(true));
    assert_eq!(sv("1.1.0").precedes(&sv("1.0.0")), Some(false));
    assert_eq!(sv("1.0.0-alpha").precedes(&sv("1.0.0")), Some(true));
    assert_eq!(sv("1.0.0").precedes(&sv("1.0.0")), Some(false));
    let p = |t: &str| Version::Pep440(pep(t));
    assert_eq!(p("1.0a1").precedes(&p("1.0")), Some(true));
    assert_eq!(p("1.0.post1").precedes(&p("1.0")), Some(false));
    let d = |t: &str| Version::DotNet(DotNetVersion::parse(t).unwrap());
    assert_eq!(d("1.2.3.4").precedes(&d("1.2.4.0")), Some(true));
    assert_eq!(sv("9.0.0").precedes(&p("1.0")), Some(true));
    assert_eq!(d("0.0.0.0").precedes(&p("1.0")), Some(false));
    let odd = SemverVersion { major: 1, minor: 0, patch: 0, pre: "!!".to_owned(), build: String::new() };
    assert_eq!(Version::Semver(odd).precedes(&sv("1.0.0")), None);
}

#[test]
fn pep440_serial_before_dev_marker() {
    assert!(pep("1.0a1") < pep("1.0a2.dev0"));
    assert!(pep("1.0.post1") < pep("1.0.post2.dev0"));
    assert!(pep("1.0a2.dev0") < pep("1.0a2"));
    assert!(pep("1.0.dev5") < pep("1.0a0"));
    let v = pep("1.0.rev2");
    assert_eq!(v.segments, vec![1, 0]);
    assert_eq!(v.post_release, Some(2));
    assert!(v.pre_release.is_none());
    assert!(v.dev_release.is_none());
}

#[test]
fn tuple_literal_round_trip() {
    for text in ["1.2.3", "1.2", "0.9a1", "2.0rc4", "3.1.4.dev7", "5b2"] {
        let v = pep(text);
        let lit = v.as_tuple_literal().unwrap();
        let back = Pep440Version::parse_from_tuple_literal(&lit).unwrap();
        assert_eq!(back, v, "{} -> {}", text, lit);
        assert_eq!(back.segments.len(), 3);
    }
    assert!(pep("1.0.post1").as_tuple_literal().is_err());
}

#[test]
fn bumps_give_newer_versions() {
    let sv = |t: &str| Version::Semver(SemverVersion::parse(t).unwrap());
    let p = |t: &str| Version::Pep440(pep(t));
    let d = |t: &str| Version::DotNet(DotNetVersion::parse(t).unwrap());
    for scheme in [VersionBumpScheme::MicroBump, VersionBumpScheme::MinorBump, VersionBumpScheme::MajorBump] {
        for old in [sv("1.2.3-beta.1+b7"), p("1!2.3rc1.post2.dev3+local"), d("1.2.3.4")] {
            let mut v = old.duplicate();
            scheme.apply(&mut v).unwrap();
            assert_eq!(old.precedes(&v), Some(true));
            assert_eq!(v.precedes(&old), Some(false));
        }
    }
    let mut v = sv("0.9.9");
    VersionBumpScheme::MinorBump.apply(&mut v).unwrap();
    assert_eq!(v.to_string(), "0.10.0");
}
