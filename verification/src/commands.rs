//! The options of Cranko's utility commands, and what the commands write.
//!
//! Parsing the command line and performing the commands' input and output
//! happen outside this crate.

use vstd::prelude::*;

use crate::errors::Error;
use crate::repository::spec_commit_ref;
use crate::text::{append_chars, chars_to_string, owned, str_to_chars};
use crate::zenodo::{format_date, iso_utc_date, utc_today, UtcDate};
use vstd::string::StrSliceExecFns;

verus! {

/// `cranko python install-token`: installs `$PYPI_TOKEN` in `.pypirc`.
#[derive(Debug)]
pub struct InstallTokenCommand {
    /// The repository name.
    pub repository: String,
}

fn concat(a: &str, b: &str, c: &str) -> (res: String)
    ensures
        res@ == a@ + b@ + c@,
{
    let mut v = str_to_chars(a);
    append_chars(&mut v, &str_to_chars(b));
    append_chars(&mut v, &str_to_chars(c));
    chars_to_string(&v)
}

impl InstallTokenCommand {
    /// The lines appended to `.pypirc`: a section for the repository that
    /// logs in with the token.
    pub fn pypirc_lines(&self, token: &str) -> (res: Vec<String>)
        ensures
            crate::pypa::lines_view(res@) == seq![
                "["@ + self.repository@ + "]"@,
                "username = __token__"@,
                "password = "@ + token@ + ""@,
            ],
    {
        let mut out: Vec<String> = Vec::new();
        out.push(concat("[", self.repository.as_str(), "]"));
        out.push(owned("username = __token__"));
        out.push(concat("password = ", token, ""));
        proof {
            assert(crate::pypa::lines_view(out@) =~= seq![
                "["@ + self.repository@ + "]"@,
                "username = __token__"@,
                "password = "@ + token@ + ""@,
            ]);
        }
        out
    }
}

/// `cranko github create-custom-release`.
#[derive(Debug)]
pub struct CreateCustomReleaseCommand {
    /// The user-facing name for the release.
    pub release_name: String,
    /// The release description (Markdown).
    pub body: String,
    /// Whether to mark this release as a draft.
    pub is_draft: bool,
    /// Whether to mark this release as a pre-release.
    pub is_prerelease: bool,
    /// The tag that the release is based on.
    pub tag_name: String,
}

/// `cranko github create-releases`.
#[derive(Debug)]
pub struct CreateReleasesCommand {
    /// The projects to release on GitHub.
    pub proj_names: Vec<String>,
}

/// `cranko github _credential-helper`: a Git credential helper.
#[derive(Debug)]
pub struct CredentialHelperCommand {
    /// The operation Git asks for.
    pub operation: String,
}

impl CredentialHelperCommand {
    /// What the helper prints: the token as password for a `get`, nothing
    /// for any other operation.
    pub fn response_lines(&self, token: &str) -> (res: Vec<String>)
        ensures
            crate::pypa::lines_view(res@) == if self.operation@ == "get"@ {
                seq!["username=token"@, "password="@ + token@ + ""@]
            } else {
                Seq::<Seq<char>>::empty()
            },
    {
        let mut out: Vec<String> = Vec::new();
        if self.operation == owned("get") {
            out.push(owned("username=token"));
            out.push(concat("password=", token, ""));
            proof {
                assert(crate::pypa::lines_view(out@) =~= seq!["username=token"@, "password="@ + token@ + ""@]);
            }
        } else {
            proof {
                assert(crate::pypa::lines_view(out@) =~= Seq::<Seq<char>>::empty());
            }
        }
        out
    }
}

/// `cranko github delete-release`.
#[derive(Debug)]
pub struct DeleteReleaseCommand {
    /// The tag of the release.
    pub tag_name: String,
}

/// `cranko github install-credential-helper`.
#[derive(Debug)]
pub struct InstallCredentialHelperCommand {}

impl InstallCredentialHelperCommand {
    /// The `credential.helper` setting that runs this executable as the
    /// helper.
    pub fn helper_setting(&self, exe: &str) -> (res: String)
        ensures
            res@ == exe@ + " github _credential-helper"@,
    {
        let mut v = str_to_chars(exe);
        append_chars(&mut v, &str_to_chars(" github _credential-helper"));
        chars_to_string(&v)
    }
}

/// `cranko git-util reboot-branch`: force-creates an ancestor-less branch
/// holding a directory tree.
#[derive(Debug)]
pub struct RebootBranchCommand {
    /// The commit message.
    pub message: String,
    /// The branch to reboot.
    pub branch: String,
    /// The root directory of the new tree.
    pub root: String,
}

impl RebootBranchCommand {
    /// The reference that the new commit is stored under.
    pub fn ref_name(&self) -> (res: String)
        ensures
            res@ == "refs/heads/"@ + self.branch@,
    {
        let mut v = str_to_chars("refs/heads/");
        append_chars(&mut v, &str_to_chars(self.branch.as_str()));
        chars_to_string(&v)
    }
}

/// The `git-util` subcommands.
#[derive(Debug)]
pub enum GitUtilCommands {
    RebootBranch(RebootBranchCommand),
}

/// `cranko git-util`.
#[derive(Debug)]
pub struct GitUtilCommand {
    pub command: GitUtilCommands,
}

// ---------------------------------------------------------------------------
// `cranko ci-util env-to-file`

/// How the value of an environment variable becomes the bytes of a file.
#[derive(Debug, Clone, Copy, PartialEq, Eq, Structural)]
pub enum EnvDecodingMode {
    /// The value is text, written out as UTF-8.
    Text,
    /// The value is encoded in base64.
    Base64,
}

impl EnvDecodingMode {
    /// Reads a mode's name: `text` or `base64`.
    pub fn from_str(s: &str) -> (res: Result<EnvDecodingMode, Error>)
        ensures
            s@ == "text"@ ==> res matches Ok(EnvDecodingMode::Text),
            s@ == "base64"@ ==> res matches Ok(EnvDecodingMode::Base64),
            s@ != "text"@ && s@ != "base64"@ ==> (res matches Err(Error::UnknownEncodingMode(m)) && m@
                == s@),
    {
        proof {
            reveal_strlit("text");
            reveal_strlit("base64");
            assert("text"@[0] != "base64"@[0]);
        }
        let t = owned(s);
        if t == owned("text") {
            Ok(EnvDecodingMode::Text)
        } else if t == owned("base64") {
            Ok(EnvDecodingMode::Base64)
        } else {
            Err(Error::UnknownEncodingMode(t))
        }
    }
}

/// What `base64`'s standard engine decodes a text into, or `None` where it
/// rejects the text.
pub uninterp spec fn base64_decoded(text: Seq<char>) -> Option<Seq<u8>>;

/// Calls `base64::Engine::decode` with the standard engine (standard
/// alphabet, padding required); its result is named `base64_decoded`.
#[verifier::external_body]
fn base64_decode(text: &str) -> (res: Option<Vec<u8>>)
    ensures
        match res {
            Some(b) => base64_decoded(text@) == Some(b@),
            None => base64_decoded(text@) is None,
        },
{
    base64::Engine::decode(&base64::engine::general_purpose::STANDARD, text).ok()
}

/// The bytes that `cranko ci-util env-to-file` writes for the value of the
/// variable `var_name`: the value's UTF-8 encoding, or what it decodes to
/// in base64.
pub fn decode_env_value(mode: EnvDecodingMode, var_name: &str, value: &str) -> (res: Result<
    Vec<u8>,
    Error,
>)
    ensures
        match mode {
            EnvDecodingMode::Text => res matches Ok(b) && b@ == vstd::utf8::encode_utf8(value@),
            EnvDecodingMode::Base64 => match base64_decoded(value@) {
                Some(d) => res matches Ok(b) && b@ == d,
                None => res matches Err(Error::Base64Value(n)) && n@ == var_name@,
            },
        },
{
    match mode {
        EnvDecodingMode::Text => Ok(value.as_bytes_vec()),
        EnvDecodingMode::Base64 => match base64_decode(value) {
            Some(b) => Ok(b),
            None => Err(Error::Base64Value(owned(var_name))),
        },
    }
}

// ---------------------------------------------------------------------------
// `cranko show tctag`

/// Whether a character is an ASCII letter or digit.
pub open spec fn is_ascii_alnum(c: char) -> bool {
    ('a' <= c && c <= 'z') || ('A' <= c && c <= 'Z') || ('0' <= c && c <= '9')
}

/// Draws one character with `rand::distr::Alphanumeric` from the
/// thread-local generator `rand::rng()`. The distribution samples from the
/// 62 ASCII letters and digits; which one comes out is left open.
#[verifier::external_body]
fn random_alphanumeric_char() -> (c: char)
    ensures
        is_ascii_alnum(c),
{
    char::from(rand::RngExt::sample(&mut rand::rng(), rand::distr::Alphanumeric))
}

/// A `thiscommit:` reference made on a date with a salt: the date as
/// `YYYY-MM-DD`, a colon, and the salt.
pub open spec fn tc_tag_text(date: UtcDate, salt: Seq<char>) -> Seq<char> {
    "thiscommit:"@ + iso_utc_date(date) + ":"@ + salt
}

/// Writes the `thiscommit:` reference for a date and a salt.
pub fn format_tc_tag(date: &UtcDate, salt: &Vec<char>) -> (res: String)
    ensures
        res@ == tc_tag_text(*date, salt@),
{
    let mut v = str_to_chars("thiscommit:");
    append_chars(&mut v, &str_to_chars(format_date(date).as_str()));
    v.push(':');
    append_chars(&mut v, salt);
    proof {
        reveal_strlit(":");
        assert(v@ =~= tc_tag_text(*date, salt@));
    }
    chars_to_string(&v)
}

/// A fresh `thiscommit:` reference, as `cranko show tctag` prints it:
/// today's date in UTC and seven random ASCII letters and digits.
pub fn new_tc_tag() -> (res: String)
    ensures
        exists|d: UtcDate, salt: Seq<char>|
            1 <= d.month <= 12 && 1 <= d.day <= 31 && salt.len() == 7 && (forall|i: int|
                0 <= i < 7 ==> is_ascii_alnum(#[trigger] salt[i])) && res@ == tc_tag_text(d, salt),
{
    let date = utc_today();
    let mut salt: Vec<char> = Vec::new();
    while salt.len() < 7
        invariant
            salt@.len() <= 7,
            forall|i: int| 0 <= i < salt@.len() ==> is_ascii_alnum(#[trigger] salt@[i]),
        decreases 7 - salt@.len(),
    {
        salt.push(random_alphanumeric_char());
    }
    format_tc_tag(&date, &salt)
}

/// A `thiscommit:` reference reads back as a reference to the commit that
/// introduces it, with the date, a colon and the salt as its salt.
pub proof fn law_tc_tag_reads_as_this_commit(date: UtcDate, salt: Seq<char>)
    ensures
        spec_commit_ref(tc_tag_text(date, salt)) == Some(
            Err::<Seq<u8>, Seq<char>>(iso_utc_date(date) + ":"@ + salt),
        ),
{
    reveal_strlit("thiscommit:");
    reveal_strlit(":");
    let t = tc_tag_text(date, salt);
    assert(t[0] == 't');
    assert(crate::repository::hex_value(t[0]) is None);
    assert(t.skip(11) =~= iso_utc_date(date) + ":"@ + salt);
    assert(t.subrange(0, 11) =~= seq!['t', 'h', 'i', 's', 'c', 'o', 'm', 'm', 'i', 't', ':']);
}

} // verus!
