//! Semantic versions, read by the `semver` crate and held as plain values.

use vstd::prelude::*;

use crate::errors::Error;
use crate::text::{append_chars, chars_to_string, decimal, owned, str_to_chars, usize_to_chars};

verus! {

/// A version following the semantic versioning specification:
/// `{major}.{minor}.{patch}[-{pre}][+{build}]`. Empty `pre` or `build` text
/// means that part is absent.
#[derive(Debug)]
pub struct SemverVersion {
    pub major: u64,
    pub minor: u64,
    pub patch: u64,
    pub pre: String,
    pub build: String,
}

pub struct SemverModel {
    pub major: u64,
    pub minor: u64,
    pub patch: u64,
    pub pre: Seq<char>,
    pub build: Seq<char>,
}

impl View for SemverVersion {
    type V = SemverModel;

    open spec fn view(&self) -> SemverModel {
        SemverModel {
            major: self.major,
            minor: self.minor,
            patch: self.patch,
            pre: self.pre@,
            build: self.build@,
        }
    }
}

/// What `semver::Version::parse` makes of some text: the numbers and the
/// pre-release and build texts, or nothing when it rejects the text.
pub uninterp spec fn semver_parsed(text: Seq<char>) -> Option<(u64, u64, u64, Seq<char>, Seq<char>)>;

/// Calls `semver::Version::parse` and hands back its parts as plain values.
/// The grammar it enforces is not restated; its answer is `semver_parsed`.
#[verifier::external_body]
fn semver_parse(text: &str) -> (res: Option<(u64, u64, u64, String, String)>)
    ensures
        match res {
            Some((a, b, c, p, m)) => semver_parsed(text@) == Some((a, b, c, p@, m@)),
            None => semver_parsed(text@) is None,
        },
{
    match ::semver::Version::parse(text) {
        Ok(v) => Some((v.major, v.minor, v.patch, v.pre.as_str().to_owned(), v.build.as_str().to_owned())),
        Err(_) => None,
    }
}

/// Whether `semver::Version`'s order puts one version before another, or
/// `None` where `semver` does not accept a pre-release or build text.
pub uninterp spec fn semver_before(a: SemverModel, b: SemverModel) -> Option<bool>;

/// Whether the `(major, minor, patch)` triple of one version is
/// lexicographically below that of another.
pub open spec fn triple_before(a: SemverModel, b: SemverModel) -> bool {
    a.major < b.major || (a.major == b.major && a.minor < b.minor) || (a.major == b.major && a.minor == b.minor
        && a.patch < b.patch)
}

/// Rebuilds the two versions as `semver::Version` values, their
/// pre-release and build texts through `semver::Prerelease::new` and
/// `semver::BuildMetadata::new`, and compares them with `<`; the result is
/// named `semver_before`. `semver::Version` derives its order from its
/// fields in the order `major`, `minor`, `patch`, `pre`, `build`, so where
/// both versions are accepted and their number triples differ, the triples
/// decide; how pre-release and build texts are ordered is not restated.
#[verifier::external_body]
fn semver_less(a: &SemverVersion, b: &SemverVersion) -> (res: Option<bool>)
    ensures
        res == semver_before(a@, b@),
        triple_before(a@, b@) ==> (res matches Some(lt) ==> lt),
        triple_before(b@, a@) ==> (res matches Some(lt) ==> !lt),
{
    let x = ::semver::Version {
        major: a.major,
        minor: a.minor,
        patch: a.patch,
        pre: ::semver::Prerelease::new(&a.pre).ok()?,
        build: ::semver::BuildMetadata::new(&a.build).ok()?,
    };
    let y = ::semver::Version {
        major: b.major,
        minor: b.minor,
        patch: b.patch,
        pre: ::semver::Prerelease::new(&b.pre).ok()?,
        build: ::semver::BuildMetadata::new(&b.build).ok()?,
    };
    Some(x < y)
}

/// The text of a semantic version.
pub open spec fn render_semver(v: SemverModel) -> Seq<char> {
    decimal(v.major as nat) + seq!['.'] + decimal(v.minor as nat) + seq!['.'] + decimal(
        v.patch as nat,
    ) + (if v.pre.len() > 0 {
        seq!['-'] + v.pre
    } else {
        Seq::empty()
    }) + (if v.build.len() > 0 {
        seq!['+'] + v.build
    } else {
        Seq::empty()
    })
}

impl SemverVersion {
    /// Whether this version comes before another in `semver`'s order;
    /// `None` where `semver` does not accept a pre-release or build text.
    pub fn precedes(&self, other: &SemverVersion) -> (res: Option<bool>)
        ensures
            res == semver_before(self@, other@),
            triple_before(self@, other@) ==> (res matches Some(lt) ==> lt),
            triple_before(other@, self@) ==> (res matches Some(lt) ==> !lt),
    {
        semver_less(self, other)
    }

    /// Parses semantic-version text.
    pub fn parse(text: &str) -> (res: Result<SemverVersion, Error>)
        ensures
            match res {
                Ok(v) => semver_parsed(text@) == Some(
                    (v.major, v.minor, v.patch, v.pre@, v.build@),
                ),
                Err(e) => semver_parsed(text@) is None && (e matches Error::SemverSyntax(t) && t@
                    == text@),
            },
    {
        match semver_parse(text) {
            Some((major, minor, patch, pre, build)) => Ok(
                SemverVersion { major, minor, patch, pre, build },
            ),
            None => Err(Error::SemverSyntax(owned(text))),
        }
    }

    /// The version `0.0.0`.
    pub fn zero() -> (res: SemverVersion)
        ensures
            res@ == (SemverModel {
                major: 0,
                minor: 0,
                patch: 0,
                pre: Seq::empty(),
                build: Seq::empty(),
            }),
    {
        SemverVersion { major: 0, minor: 0, patch: 0, pre: String::new(), build: String::new() }
    }

    /// The version's text.
    pub fn to_string(&self) -> (res: String)
        ensures
            res@ == render_semver(self@),
    {
        let mut out = usize_to_chars_u64(self.major);
        out.push('.');
        let t = usize_to_chars_u64(self.minor);
        append_chars(&mut out, &t);
        out.push('.');
        let t = usize_to_chars_u64(self.patch);
        append_chars(&mut out, &t);
        let ghost a = out@;
        let pre = str_to_chars(self.pre.as_str());
        if pre.len() > 0 {
            out.push('-');
            append_chars(&mut out, &pre);
        }
        let ghost b = out@;
        let build = str_to_chars(self.build.as_str());
        if build.len() > 0 {
            out.push('+');
            append_chars(&mut out, &build);
        }
        assert(out@ =~= render_semver(self@));
        chars_to_string(&out)
    }

    /// A copy of this version.
    pub fn duplicate(&self) -> (res: SemverVersion)
        ensures
            res@ == self@,
    {
        SemverVersion {
            major: self.major,
            minor: self.minor,
            patch: self.patch,
            pre: self.pre.clone(),
            build: self.build.clone(),
        }
    }
}

/// Decimal text of a `u64`.
fn usize_to_chars_u64(n: u64) -> (res: Vec<char>)
    ensures
        res@ == decimal(n as nat),
{
    let mut rev: Vec<char> = Vec::new();
    let mut m: u64 = n;
    while m >= 10
        invariant
            m <= n,
            decimal(n as nat) == decimal(m as nat) + rev@.reverse(),
        decreases m,
    {
        let c: char = crate::text::char_of_digit((m % 10) as usize);
        proof {
            assert(decimal(m as nat) == decimal((m / 10) as nat).push(c));
            assert(rev@.push(c).reverse() =~= seq![c] + rev@.reverse());
            assert(decimal((m / 10) as nat).push(c) + rev@.reverse() =~= decimal(
                (m / 10) as nat,
            ) + rev@.push(c).reverse());
        }
        rev.push(c);
        m = m / 10;
    }
    let c: char = crate::text::char_of_digit(m as usize);
    proof {
        assert(decimal(m as nat) =~= seq![c]);
        assert(rev@.push(c).reverse() =~= seq![c] + rev@.reverse());
    }
    rev.push(c);
    let mut res: Vec<char> = Vec::new();
    let mut i: usize = rev.len();
    while i > 0
        invariant
            i <= rev.len(),
            res@ =~= rev@.subrange(i as int, rev@.len() as int).reverse(),
        decreases i,
    {
        i = i - 1;
        res.push(rev[i]);
        assert(rev@.subrange(i as int, rev@.len() as int).reverse() =~= rev@.subrange(
            (i + 1) as int,
            rev@.len() as int,
        ).reverse().push(rev@[i as int]));
    }
    assert(rev@.subrange(0, rev@.len() as int) =~= rev@);
    res
}

} // verus!
