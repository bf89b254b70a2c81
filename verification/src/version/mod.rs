//! Version numbers.
//!
//! A project's version follows one of several schemes; the `Version` type
//! holds one of them. Bump schemes describe how a new version is assigned.

pub mod bump;
pub mod dotnet;
pub mod pep440;
pub mod pep440_parse;
pub mod pep440_laws;
pub mod semantic;

use vstd::prelude::*;

use crate::errors::Error;
use crate::text::{
    append_chars, chars_to_string, decimal, lowercased, occurs_at, owned, str_to_chars,
    usize_to_chars,
};
use dotnet::{render_dotnet, spec_parse_dotnet, DotNetVersion};
use pep440::{render, tuple_text, expressible_as_tuple, Pep440Model, Pep440Version};
use pep440_parse::spec_parse_pep440;
use semantic::{render_semver, semver_before, semver_parsed, triple_before, SemverModel, SemverVersion};

verus! {

/// A version number associated with a project.
#[derive(Debug)]
pub enum Version {
    /// A version compatible with the semantic versioning specification.
    Semver(SemverVersion),
    /// A version compatible with the Python PEP-440 specification.
    Pep440(Pep440Version),
    /// A version compatible with the .NET `System.Version` type.
    DotNet(DotNetVersion),
}

pub enum VersionModel {
    Semver(SemverModel),
    Pep440(Pep440Model),
    DotNet(DotNetVersion),
}

impl View for Version {
    type V = VersionModel;

    open spec fn view(&self) -> VersionModel {
        match self {
            Version::Semver(v) => VersionModel::Semver(v@),
            Version::Pep440(v) => VersionModel::Pep440(v@),
            Version::DotNet(v) => VersionModel::DotNet(*v),
        }
    }
}

/// The rank of a version's scheme in the order of versions of different
/// schemes.
pub open spec fn scheme_rank(v: VersionModel) -> int {
    match v {
        VersionModel::Semver(_) => 0,
        VersionModel::Pep440(_) => 1,
        VersionModel::DotNet(_) => 2,
    }
}

/// Whether one version comes before another: within a scheme by that
/// scheme's order, across schemes by the schemes' ranks. `None` where the
/// versions cannot be compared.
pub open spec fn spec_precedes(a: VersionModel, b: VersionModel) -> Option<bool> {
    match (a, b) {
        (VersionModel::Semver(x), VersionModel::Semver(y)) => semver_before(x, y),
        (VersionModel::Pep440(x), VersionModel::Pep440(y)) => Some(pep440::pep440_order(x, y) < 0),
        (VersionModel::DotNet(x), VersionModel::DotNet(y)) => Some(dotnet::dotnet_order(x, y) < 0),
        _ => Some(scheme_rank(a) < scheme_rank(b)),
    }
}

impl VersionModel {
    /// A version can be rendered when, for PEP-440, it has a release segment.
    pub open spec fn wf(self) -> bool {
        match self {
            VersionModel::Pep440(p) => p.wf(),
            _ => true,
        }
    }
}

/// The text of a version.
pub open spec fn render_version(v: VersionModel) -> Seq<char> {
    match v {
        VersionModel::Semver(s) => render_semver(s),
        VersionModel::Pep440(p) => render(p),
        VersionModel::DotNet(d) => render_dotnet(d),
    }
}

/// The version that `text` denotes under the scheme of `template`.
pub open spec fn spec_parse_like(template: VersionModel, text: Seq<char>) -> Option<VersionModel> {
    match template {
        VersionModel::Semver(_) => match semver_parsed(text) {
            Some((a, b, c, p, m)) => Some(
                VersionModel::Semver(SemverModel { major: a, minor: b, patch: c, pre: p, build: m }),
            ),
            None => None,
        },
        VersionModel::Pep440(_) => match spec_parse_pep440(lowercased(text)) {
            Some(p) => Some(VersionModel::Pep440(p)),
            None => None,
        },
        VersionModel::DotNet(_) => match spec_parse_dotnet(text) {
            Some(d) => Some(VersionModel::DotNet(d)),
            None => None,
        },
    }
}

/// The "zero" version of a scheme.
pub open spec fn zero_model_like(template: VersionModel) -> VersionModel {
    match template {
        VersionModel::Semver(_) => VersionModel::Semver(
            SemverModel { major: 0, minor: 0, patch: 0, pre: Seq::empty(), build: Seq::empty() },
        ),
        VersionModel::Pep440(_) => VersionModel::Pep440(pep440::zero_model()),
        VersionModel::DotNet(_) => VersionModel::DotNet(
            DotNetVersion { major: 0, minor: 0, build: 0, revision: 0 },
        ),
    }
}

/// Cranko's "development mode" value of a version: `0.0.0-dev.0` for semver,
/// `0.dev0` for PEP-440, and minor 99 with zero build and revision for .NET.
pub open spec fn dev_value(v: VersionModel) -> VersionModel {
    match v {
        VersionModel::Semver(_) => VersionModel::Semver(
            SemverModel {
                major: 0,
                minor: 0,
                patch: 0,
                pre: seq!['d', 'e', 'v', '.', '0'],
                build: Seq::empty(),
            },
        ),
        VersionModel::Pep440(_) => VersionModel::Pep440(
            Pep440Model {
                epoch: 0,
                segments: seq![0usize],
                pre_release: None,
                post_release: None,
                dev_release: Some(0),
                local_identifier: None,
            },
        ),
        VersionModel::DotNet(d) => VersionModel::DotNet(
            DotNetVersion { minor: 99, build: 0, revision: 0, ..d },
        ),
    }
}

impl Version {
    /// A copy of this version.
    pub fn duplicate(&self) -> (res: Version)
        ensures
            res@ == self@,
    {
        match self {
            Version::Semver(v) => Version::Semver(v.duplicate()),
            Version::Pep440(v) => Version::Pep440(v.duplicate()),
            Version::DotNet(v) => Version::DotNet(*v),
        }
    }

    /// Whether this version comes before another: see `spec_precedes`.
    pub fn precedes(&self, other: &Version) -> (res: Option<bool>)
        ensures
            res == spec_precedes(self@, other@),
            (self@, other@) matches (VersionModel::Semver(x), VersionModel::Semver(y)) ==> (triple_before(x, y)
                ==> (res matches Some(lt) ==> lt)) && (triple_before(y, x) ==> (res matches Some(lt) ==> !lt)),
    {
        match (self, other) {
            (Version::Semver(x), Version::Semver(y)) => x.precedes(y),
            (Version::Pep440(x), Version::Pep440(y)) => Some(x.compare(y) < 0),
            (Version::DotNet(x), Version::DotNet(y)) => Some(x.compare(y) < 0),
            _ => Some(self.scheme_rank() < other.scheme_rank()),
        }
    }

    fn scheme_rank(&self) -> (r: u8)
        ensures
            r as int == scheme_rank(self@),
    {
        match self {
            Version::Semver(_) => 0,
            Version::Pep440(_) => 1,
            Version::DotNet(_) => 2,
        }
    }

    /// The version's text.
    pub fn to_string(&self) -> (res: String)
        requires
            self@.wf(),
        ensures
            res@ == render_version(self@),
    {
        match self {
            Version::Semver(v) => v.to_string(),
            Version::Pep440(v) => v.to_string(),
            Version::DotNet(v) => v.to_string(),
        }
    }

    /// Given a template version, parses another version of the same scheme.
    pub fn parse_like(&self, text: &str) -> (res: Result<Version, Error>)
        ensures
            match res {
                Ok(v) => spec_parse_like(self@, text@) == Some(v@) && v@.wf(),
                Err(_) => spec_parse_like(self@, text@) is None,
            },
    {
        match self {
            Version::Semver(_) => match SemverVersion::parse(text) {
                Ok(v) => Ok(Version::Semver(v)),
                Err(e) => Err(e),
            },
            Version::Pep440(_) => match Pep440Version::parse(text) {
                Ok(v) => Ok(Version::Pep440(v)),
                Err(e) => Err(e),
            },
            Version::DotNet(_) => match DotNetVersion::parse(text) {
                Ok(v) => Ok(Version::DotNet(v)),
                Err(e) => Err(e),
            },
        }
    }

    /// Given a template version, computes the zero version of its scheme.
    pub fn zero_like(&self) -> (res: Version)
        ensures
            res@ == zero_model_like(self@),
    {
        match self {
            Version::Semver(_) => Version::Semver(SemverVersion::zero()),
            Version::Pep440(_) => Version::Pep440(Pep440Version::zero()),
            Version::DotNet(_) => Version::DotNet(DotNetVersion::zero()),
        }
    }

    /// Sets this version to Cranko's "development mode" value.
    pub fn set_to_dev_value(&mut self)
        ensures
            final(self)@ == dev_value(old(self)@),
    {
        match self {
            Version::Semver(v) => {
                v.major = 0;
                v.minor = 0;
                v.patch = 0;
                v.pre = chars_to_string(&vec!['d', 'e', 'v', '.', '0']);
                v.build = String::new();
            },
            Version::Pep440(v) => {
                v.epoch = 0;
                v.segments.clear();
                v.segments.push(0);
                v.pre_release = None;
                v.post_release = None;
                v.dev_release = Some(0);
                v.local_identifier = None;
            },
            Version::DotNet(v) => {
                v.minor = 99;
                v.build = 0;
                v.revision = 0;
            },
        }
        assert(self@ =~= dev_value(old(self)@));
    }

    /// Given a template version, reads a bump scheme from its textual
    /// description: `force {version}`, `micro bump`, `minor bump`,
    /// `major bump` or `dev-datecode`.
    pub fn parse_bump_scheme(&self, text: &str) -> (res: Result<
        VersionBumpScheme,
        UnsupportedBumpSchemeError,
    >)
        ensures
            match res {
                Ok(s) => spec_bump_scheme(text@) == Ok::<BumpModel, ()>(s@),
                Err(e) => spec_bump_scheme(text@) is Err && e.0@ == text@ && e.1@ == self@,
            },
    {
        let t = str_to_chars(text);
        let force: Vec<char> = vec!['f', 'o', 'r', 'c', 'e', ' '];
        if crate::text::starts_with(&t, &force) {
            let rest = crate::text::slice_chars(&t, 6, t.len());
            return Ok(VersionBumpScheme::Force(chars_to_string(&rest)));
        }
        if same(&t, &['m', 'i', 'c', 'r', 'o', ' ', 'b', 'u', 'm', 'p']) {
            Ok(VersionBumpScheme::MicroBump)
        } else if same(&t, &['m', 'i', 'n', 'o', 'r', ' ', 'b', 'u', 'm', 'p']) {
            Ok(VersionBumpScheme::MinorBump)
        } else if same(&t, &['m', 'a', 'j', 'o', 'r', ' ', 'b', 'u', 'm', 'p']) {
            Ok(VersionBumpScheme::MajorBump)
        } else if same(&t, &['d', 'e', 'v', '-', 'd', 'a', 't', 'e', 'c', 'o', 'd', 'e']) {
            Ok(VersionBumpScheme::DevDatecode)
        } else {
            Err(UnsupportedBumpSchemeError(owned(text), self.duplicate()))
        }
    }

    /// Renders a PEP-440 version as a `sys.version_info` tuple literal.
    pub fn as_pep440_tuple_literal(&self) -> (res: Result<String, Error>)
        requires
            self@.wf(),
        ensures
            match self@ {
                VersionModel::Pep440(p) => if expressible_as_tuple(p) {
                    res matches Ok(s) && s@ == tuple_text(p)
                } else {
                    res matches Err(Error::NotATupleVersion(_))
                },
                _ => res matches Err(Error::NotPep440(t)) && t@ == render_version(self@),
            },
    {
        match self {
            Version::Pep440(v) => v.as_tuple_literal(),
            _ => Err(Error::NotPep440(self.to_string())),
        }
    }
}

fn same(a: &Vec<char>, b: &[char]) -> (r: bool)
    ensures
        r == (a@ == b@),
{
    if a.len() != b.len() {
        return false;
    }
    let mut i: usize = 0;
    while i < a.len()
        invariant
            i <= a.len(),
            a.len() == b.len(),
            forall|k: int| 0 <= k < i ==> a@[k] == b@[k],
        decreases a.len() - i,
    {
        if a[i] != b[i] {
            return false;
        }
        i = i + 1;
    }
    assert(a@ =~= b@);
    true
}

impl Pep440Version {
    /// A copy of this version.
    pub fn duplicate(&self) -> (res: Pep440Version)
        ensures
            res@ == self@,
    {
        let mut segments: Vec<usize> = Vec::new();
        let mut i: usize = 0;
        while i < self.segments.len()
            invariant
                i <= self.segments.len(),
                segments@ =~= self.segments@.subrange(0, i as int),
            decreases self.segments.len() - i,
        {
            segments.push(self.segments[i]);
            i = i + 1;
        }
        assert(self.segments@.subrange(0, self.segments@.len() as int) =~= self.segments@);
        let local_identifier = match &self.local_identifier {
            Some(l) => Some(l.clone()),
            None => None,
        };
        Pep440Version {
            epoch: self.epoch,
            segments,
            pre_release: self.pre_release,
            post_release: self.post_release,
            dev_release: self.dev_release,
            local_identifier,
        }
    }
}

/// An error returned when a version-bump scheme cannot be parsed or is not
/// allowed for the version template: the scheme text and the template.
#[derive(Debug)]
pub struct UnsupportedBumpSchemeError(pub String, pub Version);

/// A scheme for assigning a new version number to a project.
#[derive(Clone, Debug, PartialEq, Eq)]
pub enum VersionBumpScheme {
    /// A development-mode version with a date code included.
    DevDatecode,
    /// Increment the third-most-significant number, resetting less significant parts.
    MicroBump,
    /// Increment the second-most-significant number, resetting less significant parts.
    MinorBump,
    /// Increment the most significant number, resetting less significant parts.
    MajorBump,
    /// Force the version to the specified value.
    Force(String),
}

pub enum BumpModel {
    DevDatecode,
    MicroBump,
    MinorBump,
    MajorBump,
    Force(Seq<char>),
}

impl View for VersionBumpScheme {
    type V = BumpModel;

    open spec fn view(&self) -> BumpModel {
        match self {
            VersionBumpScheme::DevDatecode => BumpModel::DevDatecode,
            VersionBumpScheme::MicroBump => BumpModel::MicroBump,
            VersionBumpScheme::MinorBump => BumpModel::MinorBump,
            VersionBumpScheme::MajorBump => BumpModel::MajorBump,
            VersionBumpScheme::Force(t) => BumpModel::Force(t@),
        }
    }
}

/// The bump scheme that a description names.
pub open spec fn spec_bump_scheme(text: Seq<char>) -> Result<BumpModel, ()> {
    if occurs_at(text, seq!['f', 'o', 'r', 'c', 'e', ' '], 0) {
        Ok(BumpModel::Force(text.skip(6)))
    } else if text == seq!['m', 'i', 'c', 'r', 'o', ' ', 'b', 'u', 'm', 'p'] {
        Ok(BumpModel::MicroBump)
    } else if text == seq!['m', 'i', 'n', 'o', 'r', ' ', 'b', 'u', 'm', 'p'] {
        Ok(BumpModel::MinorBump)
    } else if text == seq!['m', 'a', 'j', 'o', 'r', ' ', 'b', 'u', 'm', 'p'] {
        Ok(BumpModel::MajorBump)
    } else if text == seq!['d', 'e', 'v', '-', 'd', 'a', 't', 'e', 'c', 'o', 'd', 'e'] {
        Ok(BumpModel::DevDatecode)
    } else {
        Err(())
    }
}

} // verus!
pub mod pep440_order;
