//! Error handling for Cranko.

use vstd::prelude::*;

verus! {

/// The errors that the library's operations report. Each variant carries the
/// text that the error concerns.
#[derive(Debug)]
pub enum Error {
    /// Text that is not a PEP-440 version.
    Pep440Syntax(String),
    /// Text that is not a `sys.version_info`-like tuple literal.
    TupleLiteralSyntax(String),
    /// A PEP-440 version that cannot be written as a `sys.version_info` tuple.
    NotATupleVersion(String),
    /// Text that is not a .NET `System.Version`.
    DotNetSyntax(String),
    /// Text that is not a semantic version.
    SemverSyntax(String),
    /// A version that is not PEP-440 was asked for a PEP-440 form.
    NotPep440(String),
    /// A dev-datecode that does not fit the version's number type.
    DatecodeOutOfRange,
    /// A Python source line without a usable string literal.
    StringLiteral(String),
    /// A Python source line without a usable tuple literal.
    TupleLiteral(String),
    /// A line without the braced text that was expected in it.
    BracedText(String),
    /// A vdproj line whose syntax was not understood.
    VdprojSyntax(String),
    /// A required environment variable is missing or empty.
    MissingEnvVar(String),
    /// An environment variable is not valid Unicode.
    EnvVarNotUnicode(String),
    /// A changelog that does not obey the expected structure.
    InvalidChangelogFormat,
    /// A textual reference to a commit that could not be understood.
    InvalidCommitReference(String),
    /// A commit message that lacks the expected Cranko information block.
    InvalidCommitMessageFormat,
    /// A `cranko internal-req` comment without a project name.
    MissingInternalReqName,
    /// An internal requirement that Cranko does not know about.
    UntracedInternalReq(String),
    /// A malformed `CrankoInternalDepVersion` item.
    MalformedInternalDepVersion(String),
    /// A template that the curly-brace formatter rejected.
    Format(String),
    /// A project that depends on a project name that does not exist.
    UnknownDependency(String, String),
    /// A project never received one of its required properties.
    IncompleteProject(String, String),
    /// No such project with the given name.
    NoSuchProject(String),
    /// Two projects that cannot be given distinct names.
    NamingClash(String),
    /// A dependency cycle involving the named project.
    DependencyCycle(String),
    /// A bump scheme that is not recognized for a version template.
    UnsupportedBumpScheme(String),
    /// An `AssemblyVersion` line whose version could not be read.
    AssemblyVersionSyntax(String),
    /// XML that could not be parsed.
    XmlSyntax,
    /// XML text that could not be decoded or unescaped.
    XmlText,
    /// An internal dependency in `Cargo.toml` that is neither a table nor an
    /// inline table.
    UnexpectedDependencyItem(String),
    /// A `Cargo.toml` without a `[package]` section.
    NoPackageSection,
    /// TOML text that `toml_edit` could not parse.
    TomlSyntax,
    /// Something other than a table stands where a table of a manifest is
    /// needed; the text is the table's dotted path.
    NotATable(String),
    /// The name of a Python project could not be found; the text describes
    /// its directory.
    MissingPythonName(String),
    /// The version of a Python project could not be found; the text
    /// describes its directory.
    MissingPythonVersion(String),
    /// An "ini"-style configuration file that could not be parsed.
    IniSyntax,
    /// A C# project depends on a project GUID that no project has: the
    /// depending project's name and the GUID.
    UnknownProjectGuid(String, String),
    /// A Zenodo metadata field that must be empty before preregistration is
    /// set; the text names the field.
    ZenodoFieldSet(String),
    /// The Zenodo metadata lacks the version DOI needed for deployment.
    ZenodoMissingDoi,
    /// The Zenodo metadata asks for a new concept record for another
    /// version: the version named and the version being released.
    ZenodoConceptVersion(String, String),
    /// A Zenodo response lacks a field; the text names it.
    ZenodoResponseField(String),
    /// A project needs a newer release of other projects: the project's
    /// name and the names of the others, comma-separated.
    UnsatisfiedInternalRequirement(String, String),
    /// A version bump would overflow a version component.
    VersionOverflow(String),
    /// The upstream remote of the repository could not be determined.
    NoUpstreamRemote,
    /// The command does not fit the environment it runs in, and was not run
    /// in "force" mode.
    RefusedWithoutForce,
    /// The command needs release information that this environment does not
    /// give.
    NoReleaseInformation,
    /// An encoding mode that is not known; the text is the mode's name.
    UnknownEncodingMode(String),
    /// The value of an environment variable is not valid base64; the text
    /// names the variable.
    Base64Value(String),
    /// The URL of the upstream remote does not name a repository in the
    /// `owner/repo` form; the text is the URL.
    UpstreamUrl(String),
    /// A target triple that could not be read; the text is the triple.
    TargetTriple(String),
}

/// An error report with a main message and additional notes that are
/// displayed after it.
#[derive(Debug, Default)]
pub struct AnnotatedReport {
    message: String,
    notes: Vec<String>,
}

impl AnnotatedReport {
    pub closed spec fn message_view(&self) -> Seq<char> {
        self.message@
    }

    pub closed spec fn notes_view(&self) -> Seq<String> {
        self.notes@
    }

    /// An empty report.
    pub fn new() -> (r: AnnotatedReport)
        ensures
            r.message_view() == Seq::<char>::empty(),
            r.notes_view() == Seq::<String>::empty(),
    {
        AnnotatedReport { message: String::new(), notes: Vec::new() }
    }

    /// Replaces the main message.
    pub fn set_message(&mut self, m: String)
        ensures
            final(self).message_view() == m@,
            final(self).notes_view() == old(self).notes_view(),
    {
        self.message = m;
    }

    /// Appends a note.
    pub fn add_note(&mut self, n: String)
        ensures
            final(self).message_view() == old(self).message_view(),
            final(self).notes_view() == old(self).notes_view().push(n),
    {
        self.notes.push(n);
    }

    /// The notes, in the order they were added.
    pub fn notes(&self) -> (r: &[String])
        ensures
            r@ == self.notes_view(),
    {
        self.notes.as_slice()
    }

    /// The main message.
    pub fn message(&self) -> (r: &str)
        ensures
            r@ == self.message_view(),
    {
        self.message.as_str()
    }
}

} // verus!
