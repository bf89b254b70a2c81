//! Zenodo deposition.
//!
//! Releases can be deposited with Zenodo, which assigns them DOIs. Talking
//! to the Zenodo service happens outside this crate; these functions decide
//! what metadata to send, check what comes back, and rewrite source files
//! with the DOIs.

use vstd::prelude::*;

use crate::errors::Error;
use crate::generic::{replace_all, replace_all_chars};
use crate::pypa::lines_view;
use crate::text::{append_chars, chars_to_string, contains_seq, owned, str_to_chars};
use crate::version::bump::{zero_padded, zero_padded_i64};
use vstd::string::StrSliceExecFns;
use vstd::string::StringSliceAdditionalSpecFns;

verus! {

/// The Cranko-managed fields of a `zenodo.json5` metadata file.
#[derive(Debug)]
pub struct ZenodoMetadata {
    /// The ID of the Zenodo concept record of the package, or
    /// `new-for:{version}` to create a new concept record.
    pub concept_rec_id: String,
    /// The DOI of the concept record.
    pub concept_doi: String,
    /// The ID of the version record of this deposit.
    pub version_rec_id: String,
    /// The DOI of the version record of this deposit.
    pub version_doi: String,
    /// The URL for uploading artifacts.
    pub bucket_link: String,
}

fn is_empty(s: &String) -> (res: bool)
    ensures
        res == (s@.len() == 0),
{
    s.as_str().unicode_len() == 0
}

impl ZenodoMetadata {
    /// Checks metadata read for preregistration: the fields that
    /// preregistration fills in must be empty.
    pub fn check_for_prereg(&self) -> (res: Result<(), Error>)
        ensures
            match res {
                Ok(()) => self.concept_doi@.len() == 0 && self.version_rec_id@.len() == 0
                    && self.version_doi@.len() == 0 && self.bucket_link@.len() == 0,
                Err(e) => e matches Error::ZenodoFieldSet(f) && (
                    (self.concept_doi@.len() != 0 && f@ == "conceptdoi"@) || (self.concept_doi@.len() == 0
                        && self.version_rec_id@.len() != 0 && f@ == "record_id"@) || (
                    self.concept_doi@.len() == 0 && self.version_rec_id@.len() == 0
                        && self.version_doi@.len() != 0 && f@ == "doi"@) || (self.concept_doi@.len() == 0
                        && self.version_rec_id@.len() == 0 && self.version_doi@.len() == 0
                        && self.bucket_link@.len() != 0 && f@ == "bucket_link"@)),
            },
    {
        if !is_empty(&self.concept_doi) {
            return Err(Error::ZenodoFieldSet(owned("conceptdoi")));
        }
        if !is_empty(&self.version_rec_id) {
            return Err(Error::ZenodoFieldSet(owned("record_id")));
        }
        if !is_empty(&self.version_doi) {
            return Err(Error::ZenodoFieldSet(owned("doi")));
        }
        if !is_empty(&self.bucket_link) {
            return Err(Error::ZenodoFieldSet(owned("bucket_link")));
        }
        Ok(())
    }

    /// Checks metadata read for deployment: the version DOI must be known.
    pub fn check_for_deployment(&self) -> (res: Result<(), Error>)
        ensures
            res is Ok <==> self.version_doi@.len() != 0,
            res matches Err(e) ==> e is ZenodoMissingDoi,
    {
        if is_empty(&self.version_doi) {
            Err(Error::ZenodoMissingDoi)
        } else {
            Ok(())
        }
    }
}

/// A calendar date in UTC.
#[derive(Clone, Copy, Debug)]
pub struct UtcDate {
    pub year: i32,
    pub month: u32,
    pub day: u32,
}

/// Reads the clock with `chrono::Utc::now()` and returns the date. The
/// documentation of `Datelike` promises months 1 to 12 and days 1 to 31;
/// nothing is claimed about which moment is read.
#[verifier::external_body]
pub(crate) fn utc_today() -> (d: UtcDate)
    ensures
        1 <= d.month <= 12,
        1 <= d.day <= 31,
{
    let now = chrono::Utc::now();
    UtcDate {
        year: chrono::Datelike::year(&now),
        month: chrono::Datelike::month(&now),
        day: chrono::Datelike::day(&now),
    }
}

/// A date as `YYYY-MM-DD`.
pub open spec fn iso_utc_date(d: UtcDate) -> Seq<char> {
    zero_padded(d.year as int, 4) + seq!['-'] + zero_padded(d.month as int, 2) + seq!['-']
        + zero_padded(d.day as int, 2)
}

/// Formats a date as `YYYY-MM-DD`.
pub fn format_date(d: &UtcDate) -> (res: String)
    ensures
        res@ == iso_utc_date(*d),
{
    let mut v = zero_padded_i64(d.year as i64, 4);
    v.push('-');
    append_chars(&mut v, &zero_padded_i64(d.month as i64, 2));
    v.push('-');
    append_chars(&mut v, &zero_padded_i64(d.day as i64, 2));
    chars_to_string(&v)
}

fn concat3(a: &str, b: &str, c: &str) -> (res: String)
    ensures
        res@ == a@ + b@ + c@,
{
    let mut v = str_to_chars(a);
    append_chars(&mut v, &str_to_chars(b));
    append_chars(&mut v, &str_to_chars(c));
    chars_to_string(&v)
}

/// Today's date in UTC as `YYYY-MM-DD`: the publication date of a
/// deposition.
pub fn publication_date() -> (res: String)
    ensures
        exists|d: UtcDate| 1 <= d.month <= 12 && 1 <= d.day <= 31 && res@ == #[trigger] iso_utc_date(d),
{
    format_date(&utc_today())
}

/// The title of a deposition: the project's name and version.
pub fn deposition_title(name: &str, version: &str) -> (res: String)
    ensures
        res@ == name@ + " "@ + version@,
{
    concat3(name, " ", version)
}

/// How a preregistration proceeds.
#[derive(Debug, PartialEq, Eq, Structural)]
pub enum PreregStep {
    /// Development mode: placeholder identifiers were filled in.
    Faked,
    /// A new concept record has to be created.
    NewConcept,
    /// A new version of an existing concept record.
    NewVersion,
}

/// The placeholder concept DOI of a project in development builds.
pub open spec fn dev_concept_doi(name: Seq<char>) -> Seq<char> {
    "xx.xxxx/dev-build."@ + name + ".concept"@
}

/// The placeholder version DOI that source files carry for a project.
pub open spec fn dev_version_placeholder(name: Seq<char>) -> Seq<char> {
    "xx.xxxx/dev-build."@ + name + ".version"@
}

/// Decides how a preregistration proceeds. In development mode the
/// metadata gets placeholder identifiers. Otherwise a concept record ID of
/// `new-for:{version}` asks for a new concept record, which must be for the
/// version being released.
pub fn plan_preregistration(md: &mut ZenodoMetadata, dev_mode: bool, name: &str, version: &str) -> (res:
    Result<PreregStep, Error>)
    ensures
        if dev_mode {
            res == Ok::<PreregStep, Error>(PreregStep::Faked) && final(md).concept_doi@ == dev_concept_doi(name@)
                && final(md).version_rec_id@ == "dev."@ + name@ + ".v"@ + version@
                && final(md).version_doi@ == "xx.xxxx/dev-build."@ + name@ + ".v"@ + version@
                && final(md).concept_rec_id == old(md).concept_rec_id
                && final(md).bucket_link == old(md).bucket_link
        } else {
            *final(md) == *old(md) && if crate::text::occurs_at(old(md).concept_rec_id@, "new-for:"@, 0) {
                let target = old(md).concept_rec_id@.skip(8);
                if target == version@ {
                    res == Ok::<PreregStep, Error>(PreregStep::NewConcept)
                } else {
                    res matches Err(Error::ZenodoConceptVersion(t, v)) && t@ == target && v@ == version@
                }
            } else {
                res == Ok::<PreregStep, Error>(PreregStep::NewVersion)
            }
        },
{
    if dev_mode {
        md.concept_doi = concat3("xx.xxxx/dev-build.", name, ".concept");
        let mut a = str_to_chars("dev.");
        append_chars(&mut a, &str_to_chars(name));
        append_chars(&mut a, &str_to_chars(".v"));
        append_chars(&mut a, &str_to_chars(version));
        md.version_rec_id = chars_to_string(&a);
        let mut b = str_to_chars("xx.xxxx/dev-build.");
        append_chars(&mut b, &str_to_chars(name));
        append_chars(&mut b, &str_to_chars(".v"));
        append_chars(&mut b, &str_to_chars(version));
        md.version_doi = chars_to_string(&b);
        return Ok(PreregStep::Faked);
    }
    let c = str_to_chars(md.concept_rec_id.as_str());
    let prefix = str_to_chars("new-for:");
    if crate::text::starts_with(&c, &prefix) {
        proof {
            reveal_strlit("new-for:");
        }
        let target = crate::text::slice_chars(&c, 8, c.len());
        let v = str_to_chars(version);
        proof {
            assert(target@ =~= c@.skip(8));
        }
        if crate::text::chars_equal(&target, v.as_slice()) {
            Ok(PreregStep::NewConcept)
        } else {
            Err(Error::ZenodoConceptVersion(chars_to_string(&target), owned(version)))
        }
    } else {
        Ok(PreregStep::NewVersion)
    }
}

/// Records what the Zenodo service answered when a new concept record was
/// preregistered: its concept record ID, version record ID, version DOI and
/// upload link. The concept DOI is derived from the concept record ID, as
/// Zenodo forms it.
pub fn record_new_concept(
    md: &mut ZenodoMetadata,
    concept_rec_id: Option<String>,
    record_id: Option<String>,
    doi: Option<String>,
    bucket: Option<String>,
) -> (res: Result<(), Error>)
    ensures
        match (concept_rec_id, record_id, doi, bucket) {
            (Some(c), Some(r), Some(d), Some(b)) => res is Ok && final(md).concept_rec_id == c
                && final(md).version_rec_id == r && final(md).version_doi == d && final(md).bucket_link
                == b && final(md).concept_doi@ == "10.5281/zenodo."@ + c@,
            (None, _, _, _) => res matches Err(Error::ZenodoResponseField(f)) && f@ == "conceptrecid"@,
            (Some(_), None, _, _) => res matches Err(Error::ZenodoResponseField(f)) && f@ == "record_id"@,
            (Some(_), Some(_), None, _) => res matches Err(Error::ZenodoResponseField(f)) && f@
                == "metadata.prereserve_doi.doi"@,
            (Some(_), Some(_), Some(_), None) => res matches Err(Error::ZenodoResponseField(f)) && f@
                == "links.bucket"@,
        },
{
    let c = match concept_rec_id {
        Some(c) => c,
        None => return Err(Error::ZenodoResponseField(owned("conceptrecid"))),
    };
    let r = match record_id {
        Some(r) => r,
        None => return Err(Error::ZenodoResponseField(owned("record_id"))),
    };
    let d = match doi {
        Some(d) => d,
        None => return Err(Error::ZenodoResponseField(owned("metadata.prereserve_doi.doi"))),
    };
    let b = match bucket {
        Some(b) => b,
        None => return Err(Error::ZenodoResponseField(owned("links.bucket"))),
    };
    let mut cd = str_to_chars("10.5281/zenodo.");
    append_chars(&mut cd, &str_to_chars(c.as_str()));
    md.concept_doi = chars_to_string(&cd);
    md.concept_rec_id = c;
    md.version_rec_id = r;
    md.version_doi = d;
    md.bucket_link = b;
    Ok(())
}

/// The rewrites applied to source files after preregistration: the
/// placeholder concept and version DOIs replaced by the real ones.
pub fn doi_rewrites(name: &str, md: &ZenodoMetadata) -> (res: Vec<(String, String)>)
    ensures
        crate::text::pairs_view(res@) == seq![
            (dev_concept_doi(name@), md.concept_doi@),
            (dev_version_placeholder(name@), md.version_doi@),
        ],
{
    let mut out: Vec<(String, String)> = Vec::new();
    out.push((concat3("xx.xxxx/dev-build.", name, ".concept"), md.concept_doi.clone()));
    out.push((concat3("xx.xxxx/dev-build.", name, ".version"), md.version_doi.clone()));
    proof {
        assert(crate::text::pairs_view(out@) =~= seq![
            (dev_concept_doi(name@), md.concept_doi@),
            (dev_version_placeholder(name@), md.version_doi@),
        ]);
    }
    out
}

/// A line after the rewrites, applied in order, and whether any applied.
pub open spec fn rewrite_line_with(line: Seq<char>, rewrites: Seq<(Seq<char>, Seq<char>)>) -> (Seq<char>, bool)
    decreases rewrites.len(),
{
    if rewrites.len() == 0 {
        (line, false)
    } else {
        let (l, d) = rewrite_line_with(line, rewrites.drop_last());
        let (t, r) = rewrites.last();
        if contains_seq(l, t) {
            (replace_all(l, t, r), true)
        } else {
            (l, d)
        }
    }
}

/// Applies the DOI rewrites to one line of a source file.
pub fn rewrite_doi_line(line: &str, rewrites: &Vec<(String, String)>) -> (res: (String, bool))
    ensures
        (res.0@, res.1) == rewrite_line_with(line@, crate::text::pairs_view(rewrites@)),
{
    let ghost rw = crate::text::pairs_view(rewrites@);
    let mut cur = str_to_chars(line);
    let mut did = false;
    let mut i: usize = 0;
    proof {
        assert(rw.take(0) =~= Seq::<(Seq<char>, Seq<char>)>::empty());
    }
    while i < rewrites.len()
        invariant
            i <= rewrites@.len(),
            rw == crate::text::pairs_view(rewrites@),
            (cur@, did) == rewrite_line_with(line@, rw.take(i as int)),
        decreases rewrites.len() - i,
    {
        let t = str_to_chars(rewrites[i].0.as_str());
        let r = str_to_chars(rewrites[i].1.as_str());
        proof {
            assert(rw.take(i + 1).drop_last() =~= rw.take(i as int));
            assert(rw.take(i + 1).last() == (t@, r@));
        }
        if crate::text::contains(&cur, &t) {
            cur = replace_all_chars(&cur, &t, &r);
            did = true;
        }
        i = i + 1;
    }
    proof {
        assert(rw.take(rw.len() as int) =~= rw);
    }
    (chars_to_string(&cur), did)
}

// ---------------------------------------------------------------------------
// The Zenodo service

/// Where the API of Zenodo is reached.
pub open spec fn spec_zenodo_api_url(rest: Seq<char>) -> Seq<char> {
    "https://zenodo.org/api/"@ + rest
}

/// The URL of an endpoint of the Zenodo API.
pub fn zenodo_api_url(rest: &str) -> (res: String)
    ensures
        res@ == spec_zenodo_api_url(rest@),
{
    let r = concat3("https://zenodo.org/api/", rest, "");
    proof {
        reveal_strlit("");
        assert(r@ =~= spec_zenodo_api_url(rest@));
    }
    r
}

/// The endpoint that publishes a deposition, by its version record ID.
pub fn publish_endpoint(version_rec_id: &str) -> (res: String)
    ensures
        res@ == "deposit/depositions/"@ + version_rec_id@ + "/actions/publish"@,
{
    concat3("deposit/depositions/", version_rec_id, "/actions/publish")
}

/// Checks whether a deposit step may run: outside development mode it may;
/// in development mode only when forced, and then with a warning
/// (`Ok(true)`).
pub fn check_deposit_mode(dev_mode: bool, force: bool) -> (res: Result<bool, Error>)
    ensures
        !dev_mode ==> res matches Ok(false),
        dev_mode && force ==> res matches Ok(true),
        dev_mode && !force ==> res matches Err(Error::RefusedWithoutForce),
{
    if !dev_mode {
        Ok(false)
    } else if force {
        Ok(true)
    } else {
        Err(Error::RefusedWithoutForce)
    }
}

/// An upper-case hexadecimal digit.
pub open spec fn upper_hex(n: u8) -> char {
    if n < 10 {
        (n + 48) as char
    } else {
        (n + 55) as char
    }
}

/// Whether a byte is an ASCII letter or digit.
pub open spec fn is_alnum_byte(b: u8) -> bool {
    (48 <= b <= 57) || (65 <= b <= 90) || (97 <= b <= 122)
}

/// Bytes percent-encoded as `percent_encoding::utf8_percent_encode` does
/// with the `NON_ALPHANUMERIC` set: ASCII letters and digits stay, every
/// other byte becomes `%` and two upper-case hexadecimal digits.
pub open spec fn percent_encoded(bytes: Seq<u8>) -> Seq<char>
    decreases bytes.len(),
{
    if bytes.len() == 0 {
        Seq::empty()
    } else {
        let b = bytes.last();
        percent_encoded(bytes.drop_last()) + if is_alnum_byte(b) {
            seq![b as char]
        } else {
            seq!['%', upper_hex(b / 16), upper_hex(b % 16)]
        }
    }
}

fn upper_hex_char(n: u8) -> (c: char)
    requires
        n < 16,
    ensures
        c == upper_hex(n),
{
    if n < 10 {
        (n + 48) as char
    } else {
        (n + 55) as char
    }
}

/// Percent-encodes the name of an uploaded file for the deposit's bucket.
pub fn percent_encode_name(name: &str) -> (res: String)
    ensures
        res@ == percent_encoded(vstd::utf8::encode_utf8(name@)),
{
    let bytes = name.as_bytes_vec();
    let mut out: Vec<char> = Vec::new();
    let mut i: usize = 0;
    while i < bytes.len()
        invariant
            i <= bytes@.len(),
            out@ == percent_encoded(bytes@.take(i as int)),
        decreases bytes@.len() - i,
    {
        let b = bytes[i];
        proof {
            assert(bytes@.take(i + 1).drop_last() =~= bytes@.take(i as int));
        }
        if (48 <= b && b <= 57) || (65 <= b && b <= 90) || (97 <= b && b <= 122) {
            out.push(b as char);
        } else {
            out.push('%');
            out.push(upper_hex_char(b / 16));
            out.push(upper_hex_char(b % 16));
        }
        proof {
            assert(out@ =~= percent_encoded(bytes@.take(i + 1)));
        }
        i = i + 1;
    }
    proof {
        assert(bytes@.take(bytes@.len() as int) =~= bytes@);
    }
    chars_to_string(&out)
}

} // verus!
