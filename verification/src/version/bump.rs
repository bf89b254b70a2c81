//! Applying version-bump schemes.

use vstd::prelude::*;

use chrono::{Datelike, Local};

use crate::errors::Error;
use crate::text::{append_chars, chars_to_string, decimal, usize_to_chars};
use crate::version::dotnet::{dotnet_order, DotNetVersion};
use crate::version::pep440::{compare_segments_from, pep440_order, seg_at, Pep440Model, Pep440Version};
use crate::version::semantic::{triple_before, SemverModel, SemverVersion};
use crate::version::{spec_parse_like, BumpModel, Version, VersionBumpScheme, VersionModel};

verus! {

/// The local date and time at which a bump is applied.
#[derive(Clone, Copy, Debug)]
pub struct LocalTime {
    pub year: i32,
    pub month: u32,
    pub day: u32,
    /// Seconds since 1970-01-01T00:00:00Z.
    pub timestamp: i64,
}

/// Reads the local clock with `chrono::Local::now()` and returns its calendar
/// date and Unix timestamp. The documentation of `Datelike` promises months
/// 1 to 12 and days 1 to 31; nothing is claimed about which moment is read.
#[verifier::external_body]
pub(crate) fn local_now() -> (t: LocalTime)
    ensures
        1 <= t.month <= 12,
        1 <= t.day <= 31,
{
    let now = Local::now();
    LocalTime { year: now.year(), month: now.month(), day: now.day(), timestamp: now.timestamp() }
}

pub open spec fn zeros(n: nat) -> Seq<char> {
    Seq::new(n, |i: int| '0')
}

/// Left-pads digits with zeros to width `w`.
pub open spec fn pad_digits(d: Seq<char>, w: nat) -> Seq<char> {
    if d.len() >= w {
        d
    } else {
        zeros((w - d.len()) as nat) + d
    }
}

/// A number formatted as Rust's `{:0w}` does: sign first, then zeros.
pub open spec fn zero_padded(n: int, w: nat) -> Seq<char> {
    if n < 0 {
        seq!['-'] + pad_digits(decimal((-n) as nat), (if w > 0 {
            w - 1
        } else {
            0
        }) as nat)
    } else {
        pad_digits(decimal(n as nat), w)
    }
}

/// The `YYYYMMDD` date code of a semantic version's build metadata.
pub open spec fn date_code(t: LocalTime) -> Seq<char> {
    zero_padded(t.year as int, 4) + zero_padded(t.month as int, 2) + zero_padded(t.day as int, 2)
}

/// The PEP-440 dev-series number `YYYYMMDD`, when it fits a `usize`.
pub open spec fn dev_number(t: LocalTime) -> Option<usize> {
    let n = 10000 * (t.year as int) + 100 * (t.month as int) + t.day as int;
    if t.year >= 0 && n <= usize::MAX {
        Some(n as usize)
    } else {
        None
    }
}

/// Whole days since 1970, truncated toward zero, as a .NET revision (wrapping
/// into `i32` as the `as` conversion does).
pub open spec fn day_number(t: LocalTime) -> i32 {
    let q: int = if t.timestamp >= 0 {
        t.timestamp / 86400
    } else {
        -((-(t.timestamp as int)) / 86400)
    };
    q as i32
}

/// Pads release segments with zeros to at least three entries.
pub open spec fn pad3(s: Seq<usize>) -> Seq<usize> {
    if s.len() >= 3 {
        s
    } else if s.len() == 2 {
        s.push(0)
    } else if s.len() == 1 {
        s.push(0).push(0)
    } else {
        seq![0usize, 0usize, 0usize]
    }
}

pub open spec fn pep_release(v: Pep440Model, segments: Seq<usize>) -> Pep440Model {
    Pep440Model {
        epoch: v.epoch,
        segments,
        pre_release: None,
        post_release: None,
        dev_release: None,
        local_identifier: None,
    }
}

/// The result of a micro, minor (`level` 1) or major (`level` 0) bump, with
/// micro being `level` 2.
pub open spec fn bumped(v: VersionModel, level: int) -> VersionModel {
    match v {
        VersionModel::Semver(s) => VersionModel::Semver(
            if level == 2 {
                SemverModel { patch: (s.patch + 1) as u64, pre: Seq::empty(), build: Seq::empty(), ..s }
            } else if level == 1 {
                SemverModel {
                    minor: (s.minor + 1) as u64,
                    patch: 0,
                    pre: Seq::empty(),
                    build: Seq::empty(),
                    ..s
                }
            } else {
                SemverModel {
                    major: (s.major + 1) as u64,
                    minor: 0,
                    patch: 0,
                    pre: Seq::empty(),
                    build: Seq::empty(),
                }
            },
        ),
        VersionModel::Pep440(p) => {
            let s = pad3(p.segments);
            VersionModel::Pep440(
                pep_release(
                    p,
                    if level == 2 {
                        seq![s[0], s[1], (s[2] + 1) as usize]
                    } else if level == 1 {
                        seq![s[0], (s[1] + 1) as usize, 0usize]
                    } else {
                        seq![(s[0] + 1) as usize, 0usize, 0usize]
                    },
                ),
            )
        },
        VersionModel::DotNet(d) => VersionModel::DotNet(
            if level == 2 {
                DotNetVersion { build: (d.build + 1) as i32, revision: 0, ..d }
            } else if level == 1 {
                DotNetVersion { minor: (d.minor + 1) as i32, build: 0, revision: 0, ..d }
            } else {
                DotNetVersion { major: (d.major + 1) as i32, minor: 0, build: 0, revision: 0 }
            },
        ),
    }
}

/// The number that a bump increments does not overflow.
pub open spec fn bump_fits(v: VersionModel, level: int) -> bool {
    match v {
        VersionModel::Semver(s) => if level == 2 {
            s.patch < u64::MAX
        } else if level == 1 {
            s.minor < u64::MAX
        } else {
            s.major < u64::MAX
        },
        VersionModel::Pep440(p) => pad3(p.segments)[level] < usize::MAX,
        VersionModel::DotNet(d) => if level == 2 {
            d.build < i32::MAX
        } else if level == 1 {
            d.minor < i32::MAX
        } else {
            d.major < i32::MAX
        },
    }
}

/// The result of a dev-datecode bump at time `t`, if the code fits.
pub open spec fn datecoded(v: VersionModel, t: LocalTime) -> Option<VersionModel> {
    match v {
        VersionModel::Semver(s) => Some(VersionModel::Semver(SemverModel { build: date_code(t), ..s })),
        VersionModel::Pep440(p) => match dev_number(t) {
            Some(n) => Some(VersionModel::Pep440(Pep440Model { dev_release: Some(n), ..p })),
            None => None,
        },
        VersionModel::DotNet(d) => Some(VersionModel::DotNet(DotNetVersion { revision: day_number(t), ..d })),
    }
}

pub open spec fn bump_level(b: BumpModel) -> int {
    match b {
        BumpModel::MicroBump => 2,
        BumpModel::MinorBump => 1,
        _ => 0,
    }
}

/// What applying a bump at time `t` yields: the new version, or `None` when
/// the bump fails (a forced text that does not parse, or a date code that
/// does not fit).
pub open spec fn spec_apply(b: BumpModel, v: VersionModel, t: LocalTime) -> Option<VersionModel> {
    match b {
        BumpModel::DevDatecode => datecoded(v, t),
        BumpModel::Force(text) => spec_parse_like(v, text),
        _ => Some(bumped(v, bump_level(b))),
    }
}

/// The bump can be computed without overflowing a number.
pub open spec fn apply_fits(b: BumpModel, v: VersionModel) -> bool {
    match b {
        BumpModel::MicroBump | BumpModel::MinorBump | BumpModel::MajorBump => bump_fits(
            v,
            bump_level(b),
        ),
        _ => true,
    }
}

fn pad_zeros(d: &Vec<char>, w: usize) -> (res: Vec<char>)
    ensures
        res@ == pad_digits(d@, w as nat),
{
    if d.len() >= w {
        return d.clone();
    }
    let mut out: Vec<char> = Vec::new();
    let mut i: usize = 0;
    while i < w - d.len()
        invariant
            d.len() < w,
            i <= w - d.len(),
            out@ =~= zeros(i as nat),
        decreases w - d.len() - i,
    {
        out.push('0');
        i = i + 1;
    }
    append_chars(&mut out, d);
    out
}

pub fn zero_padded_i64(n: i64, w: usize) -> (res: Vec<char>)
    requires
        n > i64::MIN,
    ensures
        res@ == zero_padded(n as int, w as nat),
{
    if n < 0 {
        let m: u64 = (-n) as u64;
        let d = usize_to_chars_wide(m);
        let p = pad_zeros(&d, if w > 0 {
            w - 1
        } else {
            0
        });
        let mut out: Vec<char> = Vec::new();
        out.push('-');
        append_chars(&mut out, &p);
        assert(out@ =~= zero_padded(n as int, w as nat));
        out
    } else {
        let d = usize_to_chars_wide(n as u64);
        pad_zeros(&d, w)
    }
}

fn usize_to_chars_wide(n: u64) -> (res: Vec<char>)
    ensures
        res@ == decimal(n as nat),
{
    let mut rev: Vec<char> = Vec::new();
    let mut m: u64 = n;
    while m >= 10
        invariant
            m <= n,
            decimal(n as nat) == decimal(m as nat) + rev@.reverse(),
        decreases m,
    {
        let c: char = crate::text::char_of_digit((m % 10) as usize);
        proof {
            assert(decimal(m as nat) == decimal((m / 10) as nat).push(c));
            assert(rev@.push(c).reverse() =~= seq![c] + rev@.reverse());
            assert(decimal((m / 10) as nat).push(c) + rev@.reverse() =~= decimal(
                (m / 10) as nat,
            ) + rev@.push(c).reverse());
        }
        rev.push(c);
        m = m / 10;
    }
    let c: char = crate::text::char_of_digit(m as usize);
    proof {
        assert(decimal(m as nat) =~= seq![c]);
        assert(rev@.push(c).reverse() =~= seq![c] + rev@.reverse());
    }
    rev.push(c);
    let mut res: Vec<char> = Vec::new();
    let mut i: usize = rev.len();
    while i > 0
        invariant
            i <= rev.len(),
            res@ =~= rev@.subrange(i as int, rev@.len() as int).reverse(),
        decreases i,
    {
        i = i - 1;
        res.push(rev[i]);
        assert(rev@.subrange(i as int, rev@.len() as int).reverse() =~= rev@.subrange(
            (i + 1) as int,
            rev@.len() as int,
        ).reverse().push(rev@[i as int]));
    }
    assert(rev@.subrange(0, rev@.len() as int) =~= rev@);
    res
}

fn date_code_chars(t: &LocalTime) -> (res: Vec<char>)
    ensures
        res@ == date_code(*t),
{
    let mut out = zero_padded_i64(t.year as i64, 4);
    let m = zero_padded_i64(t.month as i64, 2);
    append_chars(&mut out, &m);
    let d = zero_padded_i64(t.day as i64, 2);
    append_chars(&mut out, &d);
    out
}

fn dev_number_exec(t: &LocalTime) -> (res: Option<usize>)
    ensures
        res == dev_number(*t),
{
    if t.year < 0 {
        return None;
    }
    let y = t.year as usize;
    let a = y.checked_mul(10000)?;
    let b = (t.month as usize).checked_mul(100)?;
    let c = a.checked_add(b)?;
    let r = c.checked_add(t.day as usize);
    r
}

fn day_number_exec(t: &LocalTime) -> (r: i32)
    ensures
        r == day_number(*t),
{
    let q: i64 = if t.timestamp >= 0 {
        t.timestamp / 86400
    } else {
        let m: u64 = if t.timestamp == i64::MIN {
            9223372036854775808u64
        } else {
            (-t.timestamp) as u64
        };
        -((m / 86400) as i64)
    };
    #[verifier::truncate]
    (q as i32)
}

fn pad3_exec(segments: &mut Vec<usize>)
    ensures
        final(segments)@ == pad3(old(segments)@),
{
    while segments.len() < 3
        invariant
            pad3(segments@) == pad3(old(segments)@),
            segments@.len() >= old(segments)@.len(),
            segments@.len() <= 3 || segments@ == old(segments)@,
        decreases 3 - segments.len(),
    {
        let ghost before = segments@;
        segments.push(0);
        proof {
            if before.len() == 0 {
                assert(pad3(segments@) =~= pad3(before));
            } else if before.len() == 1 {
                assert(pad3(segments@) =~= pad3(before));
            } else {
                assert(pad3(segments@) =~= pad3(before));
            }
        }
    }
}

fn bump_pep(v: &mut Pep440Version, level: usize)
    requires
        level <= 2,
        pad3(old(v).segments@)[level as int] < usize::MAX,
    ensures
        final(v)@ == match bumped(VersionModel::Pep440(old(v)@), level as int) {
            VersionModel::Pep440(p) => p,
            _ => old(v)@,
        },
{
    pad3_exec(&mut v.segments);
    v.pre_release = None;
    v.post_release = None;
    v.dev_release = None;
    v.local_identifier = None;
    let s0 = v.segments[0];
    let s1 = v.segments[1];
    let s2 = v.segments[2];
    let mut segments: Vec<usize> = Vec::new();
    if level == 2 {
        segments.push(s0);
        segments.push(s1);
        segments.push(s2 + 1);
    } else if level == 1 {
        segments.push(s0);
        segments.push(s1 + 1);
        segments.push(0);
    } else {
        segments.push(s0 + 1);
        segments.push(0);
        segments.push(0);
    }
    v.segments = segments;
    assert(v@.segments =~= match bumped(VersionModel::Pep440(old(v)@), level as int) {
        VersionModel::Pep440(p) => p.segments,
        _ => old(v)@.segments,
    });
}

impl VersionBumpScheme {
    /// Whether this bump can be applied to a version without overflowing a
    /// version component.
    pub fn fits(&self, version: &Version) -> (res: bool)
        ensures
            res == apply_fits(self@, version@),
    {
        let level: usize = match self {
            VersionBumpScheme::MicroBump => 2,
            VersionBumpScheme::MinorBump => 1,
            VersionBumpScheme::MajorBump => 0,
            _ => return true,
        };
        match version {
            Version::Semver(s) => if level == 2 {
                s.patch < u64::MAX
            } else if level == 1 {
                s.minor < u64::MAX
            } else {
                s.major < u64::MAX
            },
            Version::Pep440(p) => {
                let x: usize = if level < p.segments.len() {
                    p.segments[level]
                } else {
                    0
                };
                proof {
                    assert(pad3(p.segments@)[level as int] == x) by {
                        if p.segments@.len() == 2 {
                            assert(pad3(p.segments@) == p.segments@.push(0));
                        } else if p.segments@.len() == 1 {
                            assert(pad3(p.segments@) == p.segments@.push(0).push(0));
                        }
                    }
                }
                x < usize::MAX
            },
            Version::DotNet(d) => if level == 2 {
                d.build < i32::MAX
            } else if level == 1 {
                d.minor < i32::MAX
            } else {
                d.major < i32::MAX
            },
        }
    }

    /// Applies this bump to a version at the given local time.
    ///
    /// On failure the version is left unchanged.
    pub fn apply_at(&self, version: &mut Version, now: &LocalTime) -> (res: Result<(), Error>)
        requires
            apply_fits(self@, old(version)@),
        ensures
            match spec_apply(self@, old(version)@, *now) {
                Some(v) => res is Ok && final(version)@ == v,
                None => res is Err && final(version)@ == old(version)@,
            },
            old(version)@.wf() ==> final(version)@.wf(),
    {
        match self {
            VersionBumpScheme::DevDatecode => {
                match version {
                    Version::Semver(v) => {
                        let code = date_code_chars(now);
                        v.build = chars_to_string(&code);
                    },
                    Version::Pep440(v) => {
                        match dev_number_exec(now) {
                            Some(n) => {
                                v.dev_release = Some(n);
                            },
                            None => {
                                return Err(Error::DatecodeOutOfRange);
                            },
                        }
                    },
                    Version::DotNet(v) => {
                        v.revision = day_number_exec(now);
                    },
                }
                Ok(())
            },
            VersionBumpScheme::Force(text) => {
                let nv = version.parse_like(text.as_str())?;
                *version = nv;
                Ok(())
            },
            _ => {
                let level: usize = match self {
                    VersionBumpScheme::MicroBump => 2,
                    VersionBumpScheme::MinorBump => 1,
                    _ => 0,
                };
                match version {
                    Version::Semver(v) => {
                        v.pre = String::new();
                        v.build = String::new();
                        if level == 2 {
                            v.patch = v.patch + 1;
                        } else if level == 1 {
                            v.patch = 0;
                            v.minor = v.minor + 1;
                        } else {
                            v.patch = 0;
                            v.minor = 0;
                            v.major = v.major + 1;
                        }
                    },
                    Version::Pep440(v) => {
                        bump_pep(v, level);
                    },
                    Version::DotNet(v) => {
                        v.revision = 0;
                        if level == 2 {
                            v.build = v.build + 1;
                        } else if level == 1 {
                            v.build = 0;
                            v.minor = v.minor + 1;
                        } else {
                            v.build = 0;
                            v.minor = 0;
                            v.major = v.major + 1;
                        }
                    },
                }
                Ok(())
            },
        }
    }

    /// Applies this bump to a version, reading the local clock for the
    /// dev-datecode scheme.
    pub fn apply(&self, version: &mut Version) -> (res: Result<(), Error>)
        requires
            apply_fits(self@, old(version)@),
        ensures
            exists|t: LocalTime|
                1 <= t.month <= 12 && 1 <= t.day <= 31 && match #[trigger] spec_apply(self@, old(version)@, t) {
                    Some(v) => res is Ok && final(version)@ == v,
                    None => res is Err && final(version)@ == old(version)@,
                },
            old(version)@.wf() ==> final(version)@.wf(),
    {
        let now = local_now();
        self.apply_at(version, &now)
    }
}

// ---------------------------------------------------------------------------
// Laws

/// A micro, minor or major bump of a PEP-440 version yields a newer version.
pub proof fn lemma_pep440_bump_is_newer(p: Pep440Model, level: int)
    requires
        0 <= level <= 2,
        bump_fits(VersionModel::Pep440(p), level),
    ensures
        bumped(VersionModel::Pep440(p), level) matches VersionModel::Pep440(q) && pep440_order(q, p) == 1,
{
    let s = pad3(p.segments);
    let q = match bumped(VersionModel::Pep440(p), level) {
        VersionModel::Pep440(q) => q,
        _ => p,
    };
    assert(seg_at(p.segments, 0) == s[0]);
    assert(seg_at(p.segments, 1) == s[1]);
    assert(seg_at(p.segments, 2) == s[2]);
    if level == 0 {
        assert(compare_segments_from(q.segments, p.segments, 0) == 1);
    } else if level == 1 {
        if s[0] == s[0] {
            assert(compare_segments_from(q.segments, p.segments, 1) == 1);
        }
    } else {
        assert(compare_segments_from(q.segments, p.segments, 2) == 1);
        assert(compare_segments_from(q.segments, p.segments, 1) == 1);
    }
}

/// A micro, minor or major bump of a .NET version yields a newer version.
pub proof fn lemma_dotnet_bump_is_newer(d: DotNetVersion, level: int)
    requires
        0 <= level <= 2,
        bump_fits(VersionModel::DotNet(d), level),
    ensures
        bumped(VersionModel::DotNet(d), level) matches VersionModel::DotNet(e) && dotnet_order(e, d) == 1,
{
}

/// A micro, minor or major bump of a semantic version increases its
/// `(major, minor, patch)` triple lexicographically, which is what decides
/// `semver`'s order between the two (see `SemverVersion::precedes`).
pub proof fn lemma_semver_bump_is_newer(s: SemverModel, level: int)
    requires
        0 <= level <= 2,
        bump_fits(VersionModel::Semver(s), level),
    ensures
        bumped(VersionModel::Semver(s), level) matches VersionModel::Semver(t) && triple_before(s, t),
{
}

} // verus!
