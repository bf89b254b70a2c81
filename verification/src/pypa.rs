//! Python Packaging Authority (PyPA) projects.
//!
//! Python projects are found by their `setup.py` files. Their names and
//! versions are read from source lines that carry a `# cranko ...` marker
//! comment, and the same lines are rewritten when a new version is applied.

use vstd::prelude::*;

use crate::errors::Error;
use crate::project::{ProjectBuilder, ProjectId};
use crate::repository::{bytes_equal, escape_spec, push_spec, DirSet, RepoPath, RepoPathBuf};
use crate::version::pep440::{expressible_as_tuple, tuple_text, Pep440Model, Pep440Version};
use crate::version::pep440_parse::{spec_parse_pep440, spec_parse_tuple};
use crate::version::{render_version, Version, VersionModel};
use crate::config::config_ignores;
use crate::graph::{full_name, index_limit, ProjectGraphBuilder};
use crate::project::Rewriter;
use crate::repository::names_view;
use vstd::string::StringSliceAdditionalSpecFns;
use crate::text::{
    chars_to_string, contains_char, contains_seq, find_first, find_first_seq, find_last,
    first_index_of, first_occurrence_of, is_first_index, is_last_index, last_index_of,
    lemma_first_index_of, lemma_index_of_cases, lemma_last_index_of, opt_pos, owned,
    slice_chars, str_to_chars, append_chars, lowercased, split_whitespace, words,
    pairs_view, table_lookup, table_get,
};

verus! {

// ---------------------------------------------------------------------------
// Marker comments

/// Whether `line` holds `marker` after its first `#`: the first occurrence
/// of the marker comes after the first comment character.
pub open spec fn spec_has_marker(line: Seq<char>, marker: Seq<char>) -> bool {
    match (first_index_of(line, '#'), first_occurrence_of(line, marker)) {
        (Some(c), Some(m)) => m > c,
        _ => false,
    }
}

/// Tests whether a Python source line carries `marker` inside a comment.
pub fn has_commented_marker(line: &str, marker: &str) -> (res: bool)
    ensures
        res == spec_has_marker(line@, marker@),
{
    let l = str_to_chars(line);
    let m = str_to_chars(marker);
    match find_first(&l, '#') {
        None => false,
        Some(cidx) => match find_first_seq(&l, &m) {
            None => false,
            Some(midx) => midx > cidx,
        },
    }
}

// ---------------------------------------------------------------------------
// String literals

/// The quote character that delimits the string literal of a line, and the
/// position of its first occurrence: single or double quotes, whichever
/// comes first.
pub open spec fn literal_open(line: Seq<char>) -> Option<(char, int)> {
    match (first_index_of(line, '\''), first_index_of(line, '"')) {
        (Some(s), Some(d)) => if s < d {
            Some(('\'', s))
        } else {
            Some(('"', d))
        },
        (Some(s), None) => Some(('\'', s)),
        (None, Some(d)) => Some(('"', d)),
        (None, None) => None,
    }
}

/// The positions of the opening and closing quotes of a line's string
/// literal: the first quote and the last occurrence of the same character.
/// `None` when the line holds no quote, or only one of its kind.
pub open spec fn literal_span(line: Seq<char>) -> Option<(int, int)> {
    match literal_open(line) {
        None => None,
        Some((q, l)) => match last_index_of(line, q) {
            Some(r) => if r <= l {
                None
            } else {
                Some((l, r))
            },
            None => None,
        },
    }
}

/// The text inside a line's string literal, when it has one without
/// backslash escapes.
pub open spec fn spec_literal_text(line: Seq<char>) -> Option<Seq<char>> {
    match literal_span(line) {
        None => None,
        Some((l, r)) => {
            let inside = line.subrange(l + 1, r);
            if contains_char(inside, '\\') {
                None
            } else {
                Some(inside)
            }
        },
    }
}

/// A line whose string literal holds `new_val` in place of its text.
pub open spec fn spec_replace_literal(line: Seq<char>, new_val: Seq<char>) -> Option<Seq<char>> {
    match literal_span(line) {
        None => None,
        Some((l, r)) => Some(line.subrange(0, l + 1) + new_val + line.subrange(r, line.len() as int)),
    }
}

/// A line whose tuple literal, from its first `(` to its last `)`, is
/// replaced by `new_val`.
pub open spec fn spec_replace_tuple(line: Seq<char>, new_val: Seq<char>) -> Option<Seq<char>> {
    match (first_index_of(line, '('), last_index_of(line, ')')) {
        (Some(l), Some(r)) => if r <= l {
            None
        } else {
            Some(line.subrange(0, l) + new_val + line.subrange(r + 1, line.len() as int))
        },
        _ => None,
    }
}

/// Locates the string literal of a line.
fn literal_bounds(l: &Vec<char>) -> (res: Option<(usize, usize)>)
    ensures
        match res {
            Some((a, b)) => literal_span(l@) == Some((a as int, b as int)) && a < b < l@.len(),
            None => literal_span(l@) is None,
        },
{
    let mut sq = find_first(l, '\'');
    let mut dq = find_first(l, '"');
    if let (Some(s), Some(d)) = (sq, dq) {
        if s < d {
            dq = None;
        } else {
            sq = None;
        }
    }
    if let Some(left) = sq {
        let right = find_last(l, '\'');
        match right {
            Some(r) => if r <= left {
                None
            } else {
                Some((left, r))
            },
            None => None,
        }
    } else if let Some(left) = dq {
        let right = find_last(l, '"');
        match right {
            Some(r) => if r <= left {
                None
            } else {
                Some((left, r))
            },
            None => None,
        }
    } else {
        None
    }
}

/// Extracts the text of the string literal in a Python source line. The
/// literal is delimited by the first quote character of the line and the
/// last occurrence of the same character; escapes are not handled.
pub fn extract_text_from_string_literal(line: &str) -> (res: Result<String, Error>)
    ensures
        match res {
            Ok(t) => spec_literal_text(line@) == Some(t@),
            Err(e) => spec_literal_text(line@) is None && (e matches Error::StringLiteral(t)
                && t@ == line@),
        },
{
    let l = str_to_chars(line);
    match literal_bounds(&l) {
        None => Err(Error::StringLiteral(owned(line))),
        Some((left, right)) => {
            let inside = slice_chars(&l, left + 1, right);
            match find_first(&inside, '\\') {
                Some(_) => Err(Error::StringLiteral(owned(line))),
                None => Ok(chars_to_string(&inside)),
            }
        },
    }
}

/// Replaces the text of the string literal in a Python source line.
pub fn replace_text_in_string_literal(line: &str, new_val: &str) -> (res: Result<String, Error>)
    ensures
        match res {
            Ok(t) => spec_replace_literal(line@, new_val@) == Some(t@),
            Err(e) => spec_replace_literal(line@, new_val@) is None && (e matches Error::StringLiteral(
                t,
            ) && t@ == line@),
        },
{
    let l = str_to_chars(line);
    match literal_bounds(&l) {
        None => Err(Error::StringLiteral(owned(line))),
        Some((left, right)) => {
            let mut out = slice_chars(&l, 0, left + 1);
            let nv = str_to_chars(new_val);
            let tail = slice_chars(&l, right, l.len());
            crate::text::append_chars(&mut out, &nv);
            crate::text::append_chars(&mut out, &tail);
            Ok(chars_to_string(&out))
        },
    }
}

/// Replaces the tuple literal in a Python source line, from its first `(` to
/// its last `)` inclusive, by `new_val`.
pub fn replace_tuple_literal(line: &str, new_val: &str) -> (res: Result<String, Error>)
    ensures
        match res {
            Ok(t) => spec_replace_tuple(line@, new_val@) == Some(t@),
            Err(e) => spec_replace_tuple(line@, new_val@) is None && (e matches Error::TupleLiteral(t)
                && t@ == line@),
        },
{
    let l = str_to_chars(line);
    let left = match find_first(&l, '(') {
        Some(i) => i,
        None => return Err(Error::TupleLiteral(owned(line))),
    };
    let right = match find_last(&l, ')') {
        Some(i) => i,
        None => return Err(Error::TupleLiteral(owned(line))),
    };
    if right <= left {
        return Err(Error::TupleLiteral(owned(line)));
    }
    let mut out = slice_chars(&l, 0, left);
    let nv = str_to_chars(new_val);
    let tail = slice_chars(&l, right + 1, l.len());
    crate::text::append_chars(&mut out, &nv);
    crate::text::append_chars(&mut out, &tail);
    Ok(chars_to_string(&out))
}

// ---------------------------------------------------------------------------
// Laws

/// Rewriting a line's string literal with a value that holds no backslash,
/// and then reading the literal back, gives that value.
pub proof fn law_replace_then_extract(line: Seq<char>, new_val: Seq<char>)
    requires
        literal_span(line) is Some,
        !contains_char(new_val, '\\'),
    ensures
        spec_replace_literal(line, new_val) matches Some(r) && spec_literal_text(r) == Some(new_val),
{
    let (q, l) = literal_open(line).unwrap();
    let o = if q == '\'' { '"' } else { '\'' };
    let (l2, r) = literal_span(line).unwrap();
    lemma_index_of_cases(line, '\'');
    lemma_index_of_cases(line, '"');
    lemma_index_of_cases(line, q);
    assert(l2 == l);
    let p = line.subrange(0, l + 1);
    let t = line.subrange(r, line.len() as int);
    let res = p + new_val + t;
    let n = new_val.len();
    assert(spec_replace_literal(line, new_val) == Some(res));
    // The opening quote is still the first of its kind.
    assert(is_first_index(res, q, l)) by {
        assert(res[l] == line[l]);
        assert forall|j: int| 0 <= j < l implies res[j] != q by {
            assert(res[j] == line[j]);
        }
    }
    lemma_first_index_of(res, q, l);
    // The other kind of quote comes later, if at all.
    lemma_index_of_cases(res, o);
    assert(first_index_of(line, o) matches Some(d) ==> d > l);
    assert(first_index_of(res, o) matches Some(d) ==> d > l) by {
        if let Some(d) = first_index_of(res, o) {
            if d <= l {
                assert(res[d] == line[d]);
            }
        }
    }
    assert(literal_open(res) == Some((q, l)));
    // The closing quote is the last of its kind.
    let rr = l + 1 + n;
    assert(is_last_index(res, q, rr)) by {
        assert(res[rr] == line[r]);
        assert forall|j: int| rr < j < res.len() implies res[j] != q by {
            assert(res[j] == line[r + (j - rr)]);
        }
    }
    lemma_last_index_of(res, q, rr);
    assert(res.subrange(l + 1, rr) =~= new_val);
}

// ---------------------------------------------------------------------------
// Discovering projects

/// Framework for auto-loading PyPA projects from the repository contents.
#[derive(Debug)]
pub struct PypaLoader {
    dirs_of_interest: DirSet,
}

/// Whether an index entry with this basename marks a Python project
/// directory. Of the three PyPA file names only `setup.py` does so: the test
/// for the other two requires the name to be both of them at once.
pub open spec fn marks_python_dir(basename: Seq<u8>) -> bool {
    basename == "setup.py".spec_bytes()
}

impl PypaLoader {
    /// The directories found so far, in the order in which they were found.
    pub closed spec fn dirs_view(&self) -> Seq<Seq<u8>> {
        self.dirs_of_interest.seq_view()
    }

    pub closed spec fn wf(&self) -> bool {
        self.dirs_of_interest.wf()
    }

    /// A loader that has seen nothing yet.
    pub fn new() -> (res: PypaLoader)
        ensures
            res.wf(),
            res.dirs_view() == Seq::<Seq<u8>>::empty(),
    {
        PypaLoader { dirs_of_interest: DirSet::new() }
    }

    /// Processes one entry of the repository index: a `setup.py` file marks
    /// its directory as holding a Python project.
    pub fn process_index_item(&mut self, dirname: &RepoPath, basename: &RepoPath)
        requires
            old(self).wf(),
        ensures
            final(self).wf(),
            final(self).dirs_view() == if marks_python_dir(basename@) && !old(self).dirs_view().contains(
                dirname@,
            ) {
                old(self).dirs_view().push(dirname@)
            } else {
                old(self).dirs_view()
            },
    {
        let b = basename.as_bytes();
        proof {
            reveal_strlit("setup.cfg");
            reveal_strlit("pyproject.toml");
            vstd::string::is_ascii_spec_bytes("setup.cfg");
            vstd::string::is_ascii_spec_bytes("pyproject.toml");
        }
        if bytes_equal(b, "setup.py".as_bytes()) || bytes_equal(b, "setup.cfg".as_bytes())
            && bytes_equal(b, "pyproject.toml".as_bytes()) {
            self.dirs_of_interest.insert(dirname);
        }
    }

    /// The directories found so far, in the order in which they were found.
    pub fn dirs_of_interest(&self) -> (res: &[RepoPathBuf])
        ensures
            res@.map_values(|p: RepoPathBuf| p@) == self.dirs_view(),
    {
        self.dirs_of_interest.items()
    }
}

/// How a project directory is described in messages.
pub open spec fn spec_dir_desc(dirname: Seq<u8>) -> Seq<char> {
    if dirname.len() == 0 {
        "the toplevel directory"@
    } else {
        "directory `"@ + escape_spec(dirname) + "`"@
    }
}

/// Describes a project directory for messages.
pub fn directory_description(dirname: &RepoPath) -> (res: String)
    ensures
        res@ == spec_dir_desc(dirname@),
{
    if dirname.len() == 0 {
        owned("the toplevel directory")
    } else {
        let mut out = str_to_chars("directory `");
        let esc = dirname.escaped();
        append_chars(&mut out, &str_to_chars(esc.as_str()));
        append_chars(&mut out, &str_to_chars("`"));
        chars_to_string(&out)
    }
}

// ---------------------------------------------------------------------------
// Reading names, versions and requirements

/// The version named by a `# cranko project-version` line: a tuple literal
/// where the marker says `tuple`, else the PEP-440 text of its string literal.
pub open spec fn spec_version_from_line(line: Seq<char>) -> Option<Pep440Model> {
    if spec_has_marker(line, "cranko project-version tuple"@) {
        spec_parse_tuple(line)
    } else {
        match spec_literal_text(line) {
            Some(t) => spec_parse_pep440(lowercased(t)),
            None => None,
        }
    }
}

/// Reads the project version out of a marked source line.
pub fn version_from_line(line: &str) -> (res: Result<Pep440Version, Error>)
    ensures
        match res {
            Ok(v) => spec_version_from_line(line@) == Some(v@) && v@.wf(),
            Err(e) => spec_version_from_line(line@) is None && if spec_has_marker(
                line@,
                "cranko project-version tuple"@,
            ) {
                e matches Error::TupleLiteralSyntax(t) && t@ == line@
            } else {
                match spec_literal_text(line@) {
                    None => e matches Error::StringLiteral(t) && t@ == line@,
                    Some(x) => e matches Error::Pep440Syntax(t) && t@ == x,
                }
            },
        },
{
    if has_commented_marker(line, "cranko project-version tuple") {
        Pep440Version::parse_from_tuple_literal(line)
    } else {
        match extract_text_from_string_literal(line) {
            Ok(t) => Pep440Version::parse(t.as_str()),
            Err(e) => Err(e),
        }
    }
}

/// The project named by a `# cranko internal-req` line: the third word from
/// the marker on. `None` for a line without the marker, `Some(None)` for a
/// marked line that names no project.
pub open spec fn spec_internal_req(line: Seq<char>) -> Option<Option<Seq<char>>> {
    if !spec_has_marker(line, "cranko internal-req"@) {
        None
    } else {
        let idx = first_occurrence_of(line, "cranko internal-req"@).unwrap();
        let w = words(line.subrange(idx, line.len() as int));
        if w.len() >= 3 {
            Some(Some(w[2]))
        } else {
            Some(None)
        }
    }
}

/// Reads the name of an internal requirement out of a source line, if the
/// line is marked as stating one.
pub fn internal_req_name(line: &str) -> (res: Option<Result<String, Error>>)
    ensures
        match spec_internal_req(line@) {
            None => res is None,
            Some(Some(n)) => res matches Some(Ok(t)) && t@ == n,
            Some(None) => res matches Some(Err(Error::MissingInternalReqName)),
        },
{
    if !has_commented_marker(line, "cranko internal-req") {
        return None;
    }
    let l = str_to_chars(line);
    let m = str_to_chars("cranko internal-req");
    let idx = match find_first_seq(&l, &m) {
        Some(i) => i,
        None => return None,
    };
    let rest = slice_chars(&l, idx, l.len());
    let w = split_whitespace(&rest);
    if w.len() >= 3 {
        Some(Ok(chars_to_string(&w[2])))
    } else {
        Some(Err(Error::MissingInternalReqName))
    }
}

/// The views of a sequence of strings.
pub open spec fn lines_view(lines: Seq<String>) -> Seq<Seq<char>> {
    lines.map_values(|l: String| l@)
}

/// The name known after reading one line: a `# cranko project-name` line
/// gives the name if none is known yet and names are scanned. `None` when
/// that line has no usable string literal.
pub open spec fn name_step(line: Seq<char>, name: Option<Seq<char>>, scan_name: bool) -> Option<
    Option<Seq<char>>,
> {
    if scan_name && spec_has_marker(line, "cranko project-name"@) && name is None {
        match spec_literal_text(line) {
            Some(t) => Some(Some(t)),
            None => None,
        }
    } else {
        Some(name)
    }
}

/// The version known after reading one line: each `# cranko
/// project-version` line gives the version when versions are scanned.
/// `None` when that line holds no readable version.
#[verifier::opaque]
pub open spec fn version_step(line: Seq<char>, version: Option<Pep440Model>, scan_version: bool) -> Option<
    Option<Pep440Model>,
> {
    if scan_version && spec_has_marker(line, "cranko project-version"@) {
        match spec_version_from_line(line) {
            Some(v) => Some(Some(v)),
            None => None,
        }
    } else {
        Some(version)
    }
}

/// The name and version known after reading `lines` in order, starting from
/// `name` and `version`; `None` when a marked line cannot be read.
pub open spec fn spec_scan_lines(
    lines: Seq<Seq<char>>,
    name: Option<Seq<char>>,
    version: Option<Pep440Model>,
    scan_name: bool,
    scan_version: bool,
) -> Option<(Option<Seq<char>>, Option<Pep440Model>)>
    decreases lines.len(),
{
    if lines.len() == 0 {
        Some((name, version))
    } else {
        match (name_step(lines[0], name, scan_name), version_step(lines[0], version, scan_version)) {
            (Some(n), Some(v)) => spec_scan_lines(lines.drop_first(), n, v, scan_name, scan_version),
            _ => None,
        }
    }
}

pub open spec fn opt_version_view(v: Option<Pep440Version>) -> Option<Pep440Model> {
    match v {
        Some(x) => Some(x@),
        None => None,
    }
}

pub open spec fn opt_text_view(v: Option<String>) -> Option<Seq<char>> {
    match v {
        Some(x) => Some(x@),
        None => None,
    }
}

/// Reads one line for the name and version.
fn scan_one_line(
    line: &str,
    name: Option<String>,
    version: Option<Pep440Version>,
    scan_name: bool,
    scan_version: bool,
) -> (res: Result<(Option<String>, Option<Pep440Version>), Error>)
    requires
        version matches Some(v) ==> v@.wf(),
    ensures
        match res {
            Ok((n, v)) => name_step(line@, opt_text_view(name), scan_name) == Some(
                opt_text_view(n),
            ) && version_step(line@, opt_version_view(version), scan_version) == Some(
                opt_version_view(v),
            ) && (v matches Some(x) ==> x@.wf()),
            Err(_) => name_step(line@, opt_text_view(name), scan_name) is None || version_step(
                line@,
                opt_version_view(version),
                scan_version,
            ) is None,
        },
{
    reveal(name_step);
    reveal(version_step);
    let mut name = name;
    let mut version = version;
    if scan_name && has_commented_marker(line, "cranko project-name") && name.is_none() {
        match extract_text_from_string_literal(line) {
            Ok(t) => {
                name = Some(t);
            },
            Err(e) => return Err(e),
        }
    }
    if scan_version && has_commented_marker(line, "cranko project-version") {
        match version_from_line(line) {
            Ok(v) => {
                version = Some(v);
            },
            Err(e) => return Err(e),
        }
    }
    Ok((name, version))
}

/// Reads a Python project's name and version out of the lines of a source
/// file (`setup.py`, or the file named as holding the version).
pub fn scan_python_source(
    lines: &Vec<String>,
    name: Option<String>,
    version: Option<Pep440Version>,
    scan_name: bool,
    scan_version: bool,
) -> (res: Result<(Option<String>, Option<Pep440Version>), Error>)
    requires
        version matches Some(v) ==> v@.wf(),
    ensures
        match res {
            Ok((n, v)) => spec_scan_lines(
                lines_view(lines@),
                opt_text_view(name),
                opt_version_view(version),
                scan_name,
                scan_version,
            ) == Some((opt_text_view(n), opt_version_view(v))) && (v matches Some(x) ==> x@.wf()),
            Err(_) => spec_scan_lines(
                lines_view(lines@),
                opt_text_view(name),
                opt_version_view(version),
                scan_name,
                scan_version,
            ) is None,
        },
{
    let ghost n0 = opt_text_view(name);
    let ghost v0 = opt_version_view(version);
    let mut cur_name = name;
    let mut cur_version = version;
    let ghost all = lines_view(lines@);
    let mut i: usize = 0;
    proof {
        assert(all.subrange(0, all.len() as int) =~= all);
    }
    while i < lines.len()
        invariant
            i <= lines@.len(),
            all == lines_view(lines@),
            all.len() == lines@.len(),
            n0 == opt_text_view(name),
            v0 == opt_version_view(version),
            cur_version matches Some(v) ==> v@.wf(),
            spec_scan_lines(all, n0, v0, scan_name, scan_version) == spec_scan_lines(
                all.subrange(i as int, all.len() as int),
                opt_text_view(cur_name),
                opt_version_view(cur_version),
                scan_name,
                scan_version,
            ),
        decreases lines.len() - i,
    {
        let line = lines[i].as_str();
        let ghost rest = all.subrange(i as int, all.len() as int);
        proof {
            assert(rest[0] == line@);
            assert(rest.drop_first() =~= all.subrange(i + 1, all.len() as int));
        }
        let ghost nv = opt_text_view(cur_name);
        let ghost vv = opt_version_view(cur_version);
        match scan_one_line(line, cur_name, cur_version, scan_name, scan_version) {
            Ok((n, v)) => {
                cur_name = n;
                cur_version = v;
            },
            Err(e) => {
                assert(spec_scan_lines(rest, nv, vv, scan_name, scan_version) is None);
                return Err(e);
            },
        }
        i = i + 1;
    }
    proof {
        assert(all.subrange(i as int, all.len() as int) =~= Seq::<Seq<char>>::empty());
    }
    Ok((cur_name, cur_version))
}

/// The internal requirements named by the marked lines of a file, in order;
/// `None` when a marked line names no project.
pub open spec fn spec_scan_reqs(lines: Seq<Seq<char>>) -> Option<Seq<Seq<char>>>
    decreases lines.len(),
{
    if lines.len() == 0 {
        Some(Seq::empty())
    } else {
        match (spec_scan_reqs(lines.drop_last()), spec_internal_req(lines.last())) {
            (None, _) => None,
            (Some(r), None) => Some(r),
            (Some(r), Some(Some(n))) => Some(r.push(n)),
            (Some(_), Some(None)) => None,
        }
    }
}

/// Adds a name to a list of distinct names, unless it is already there.
fn insert_name(names: &mut Vec<String>, n: String)
    requires
        lines_view(old(names)@).no_duplicates(),
    ensures
        lines_view(final(names)@).no_duplicates(),
        lines_view(final(names)@).to_set() == lines_view(old(names)@).to_set().insert(n@),
{
    let mut i: usize = 0;
    while i < names.len()
        invariant
            i <= names@.len(),
            names@ == old(names)@,
            lines_view(names@).no_duplicates(),
            forall|k: int| 0 <= k < i ==> lines_view(names@)[k] != n@,
        decreases names.len() - i,
    {
        if names[i] == n {
            proof {
                assert(lines_view(names@)[i as int] == n@);
                assert(lines_view(names@) == lines_view(old(names)@));
                assert(lines_view(names@).to_set().insert(n@) =~= lines_view(names@).to_set());
            }
            return;
        }
        i = i + 1;
    }
    let ghost before = lines_view(names@);
    names.push(n);
    proof {
        assert(lines_view(names@) =~= before.push(n@));
        assert forall|k: int| 0 <= k < before.len() implies before[k] != n@ by {}
        assert(!before.contains(n@));
        before.lemma_push_to_set_commute(n@);
        assert forall|a: int, b: int| 0 <= a < b < before.len() + 1 implies #[trigger] before.push(
            n@,
        )[a] != #[trigger] before.push(n@)[b] by {
            if b == before.len() {
                assert(before.push(n@)[a] == before[a]);
            } else {
                assert(before.push(n@)[a] == before[a]);
                assert(before.push(n@)[b] == before[b]);
            }
        }
    }
}

/// Collects the internal requirements that the lines of an annotated file
/// name into `reqs`, a list of distinct names.
pub fn collect_internal_reqs(lines: &Vec<String>, reqs: &mut Vec<String>) -> (res: Result<(), Error>)
    requires
        lines_view(old(reqs)@).no_duplicates(),
    ensures
        lines_view(final(reqs)@).no_duplicates(),
        match spec_scan_reqs(lines_view(lines@)) {
            Some(found) => res is Ok && lines_view(final(reqs)@).to_set() == lines_view(
                old(reqs)@,
            ).to_set() + found.to_set(),
            None => res matches Err(Error::MissingInternalReqName),
        },
{
    let ghost all = lines_view(lines@);
    let mut i: usize = 0;
    let ghost found: Seq<Seq<char>> = Seq::empty();
    proof {
        assert(all.subrange(0, 0) =~= Seq::<Seq<char>>::empty());
        assert(lines_view(reqs@).to_set() + found.to_set() =~= lines_view(reqs@).to_set());
    }
    while i < lines.len()
        invariant
            i <= lines@.len(),
            all == lines_view(lines@),
            lines_view(reqs@).no_duplicates(),
            spec_scan_reqs(all.subrange(0, i as int)) == Some(found),
            lines_view(reqs@).to_set() == lines_view(old(reqs)@).to_set() + found.to_set(),
        decreases lines.len() - i,
    {
        let line = lines[i].as_str();
        proof {
            assert(all.subrange(0, i + 1).drop_last() =~= all.subrange(0, i as int));
            assert(all.subrange(0, i + 1).last() == line@);
        }
        match internal_req_name(line) {
            None => {},
            Some(Ok(n)) => {
                proof {
                    found.lemma_push_to_set_commute(n@);
                    assert(lines_view(old(reqs)@).to_set() + found.push(n@).to_set()
                        =~= (lines_view(old(reqs)@).to_set() + found.to_set()).insert(n@));
                    found = found.push(n@);
                }
                insert_name(reqs, n);
            },
            Some(Err(e)) => {
                proof {
                    lemma_scan_reqs_none(all, i as int);
                }
                return Err(e);
            },
        }
        i = i + 1;
    }
    proof {
        assert(all.subrange(0, i as int) =~= all);
    }
    Ok(())
}

/// A failure on line `i` makes the whole scan fail.
proof fn lemma_scan_reqs_none(all: Seq<Seq<char>>, i: int)
    requires
        0 <= i < all.len(),
        spec_scan_reqs(all.subrange(0, i + 1)) is None,
    ensures
        spec_scan_reqs(all) is None,
    decreases all.len() - i,
{
    if i + 1 == all.len() {
        assert(all.subrange(0, i + 1) =~= all);
    } else {
        assert(all.subrange(0, i + 2).drop_last() =~= all.subrange(0, i + 1));
        lemma_scan_reqs_none(all, i + 1);
    }
}

// ---------------------------------------------------------------------------
// Rewriting

/// Rewrites a Python file to include real version numbers.
#[derive(Debug)]
pub struct PythonRewriter {
    proj_id: ProjectId,
    file_path: RepoPathBuf,
}

impl PythonRewriter {
    pub closed spec fn proj_view(&self) -> ProjectId {
        self.proj_id
    }

    pub closed spec fn path_view(&self) -> Seq<u8> {
        self.file_path@
    }

    /// Creates a new Python file rewriter.
    pub fn new(proj_id: ProjectId, file_path: RepoPathBuf) -> (res: Self)
        ensures
            res.proj_view() == proj_id,
            res.path_view() == file_path@,
    {
        PythonRewriter { proj_id, file_path }
    }

    /// The project whose version is written.
    pub fn proj_id(&self) -> (res: ProjectId)
        ensures
            res == self.proj_view(),
    {
        self.proj_id
    }

    /// The file that is rewritten.
    pub fn file_path(&self) -> (res: &RepoPathBuf)
        ensures
            res@ == self.path_view(),
    {
        &self.file_path
    }
}

/// A source line after rewriting, and whether it was one that Cranko
/// rewrites. A `# cranko project-version` line gets the version (as a
/// `sys.version_info` tuple where the marker says `tuple`); a `# cranko
/// internal-req` line gets the requirement text of the project it names.
/// `None` when the line cannot be rewritten.
#[verifier::opaque]
pub open spec fn spec_rewrite_line(
    line: Seq<char>,
    version: VersionModel,
    reqs: Seq<(Seq<char>, Seq<char>)>,
) -> Option<(Seq<char>, bool)> {
    if spec_has_marker(line, "cranko project-version"@) {
        let replaced = if spec_has_marker(line, "cranko project-version tuple"@) {
            match version {
                VersionModel::Pep440(p) => if expressible_as_tuple(p) {
                    spec_replace_tuple(line, tuple_text(p))
                } else {
                    None
                },
                _ => None,
            }
        } else {
            spec_replace_literal(line, render_version(version))
        };
        match replaced {
            Some(r) => Some((r, true)),
            None => None,
        }
    } else if spec_has_marker(line, "cranko internal-req"@) {
        match spec_internal_req(line) {
            Some(Some(n)) => match table_lookup(reqs, n) {
                Some(t) => match spec_replace_literal(line, t) {
                    Some(r) => Some((r, true)),
                    None => None,
                },
                None => None,
            },
            _ => None,
        }
    } else {
        Some((line, false))
    }
}

/// Rewrites one line of a Python source file.
pub fn rewrite_python_line(line: &str, version: &Version, reqs: &Vec<(String, String)>) -> (res:
    Result<(String, bool), Error>)
    requires
        version@.wf(),
    ensures
        match res {
            Ok((t, d)) => spec_rewrite_line(line@, version@, pairs_view(reqs@)) == Some((t@, d)),
            Err(_) => spec_rewrite_line(line@, version@, pairs_view(reqs@)) is None,
        },
{
    reveal(spec_rewrite_line);
    if has_commented_marker(line, "cranko project-version") {
        if has_commented_marker(line, "cranko project-version tuple") {
            let new_text = match version.as_pep440_tuple_literal() {
                Ok(t) => t,
                Err(e) => return Err(e),
            };
            match replace_tuple_literal(line, new_text.as_str()) {
                Ok(t) => Ok((t, true)),
                Err(e) => Err(e),
            }
        } else {
            let v = version.to_string();
            match replace_text_in_string_literal(line, v.as_str()) {
                Ok(t) => Ok((t, true)),
                Err(e) => Err(e),
            }
        }
    } else if has_commented_marker(line, "cranko internal-req") {
        let name = match internal_req_name(line) {
            Some(Ok(n)) => n,
            Some(Err(e)) => return Err(e),
            None => return Err(Error::MissingInternalReqName),
        };
        let req_text = match table_get(reqs, &name) {
            Some(t) => t,
            None => return Err(Error::UntracedInternalReq(name)),
        };
        match replace_text_in_string_literal(line, req_text.as_str()) {
            Ok(t) => Ok((t, true)),
            Err(e) => Err(e),
        }
    } else {
        Ok((owned(line), false))
    }
}

/// The lines of a Python source file after rewriting, and whether any of
/// them was one that Cranko rewrites; `None` when a line cannot be
/// rewritten.
pub open spec fn spec_rewrite_lines(
    lines: Seq<Seq<char>>,
    version: VersionModel,
    reqs: Seq<(Seq<char>, Seq<char>)>,
) -> Option<(Seq<Seq<char>>, bool)>
    decreases lines.len(),
{
    if lines.len() == 0 {
        Some((Seq::empty(), false))
    } else {
        match (
            spec_rewrite_lines(lines.drop_last(), version, reqs),
            spec_rewrite_line(lines.last(), version, reqs),
        ) {
            (Some((out, d)), Some((l, d2))) => Some((out.push(l), d || d2)),
            _ => None,
        }
    }
}

/// A failure on line `i` makes the whole rewrite fail.
proof fn lemma_rewrite_lines_none(
    all: Seq<Seq<char>>,
    version: VersionModel,
    reqs: Seq<(Seq<char>, Seq<char>)>,
    i: int,
)
    requires
        0 <= i < all.len(),
        spec_rewrite_lines(all.subrange(0, i + 1), version, reqs) is None,
    ensures
        spec_rewrite_lines(all, version, reqs) is None,
    decreases all.len() - i,
{
    if i + 1 == all.len() {
        assert(all.subrange(0, i + 1) =~= all);
    } else {
        assert(all.subrange(0, i + 2).drop_last() =~= all.subrange(0, i + 1));
        lemma_rewrite_lines_none(all, version, reqs, i + 1);
    }
}

/// Rewrites the lines of a Python source file, returning the new lines and
/// whether any line was one that Cranko rewrites.
pub fn rewrite_python_lines(lines: &Vec<String>, version: &Version, reqs: &Vec<(String, String)>) -> (res:
    Result<(Vec<String>, bool), Error>)
    requires
        version@.wf(),
    ensures
        match res {
            Ok((out, d)) => spec_rewrite_lines(lines_view(lines@), version@, pairs_view(reqs@)) == Some(
                (lines_view(out@), d),
            ),
            Err(_) => spec_rewrite_lines(lines_view(lines@), version@, pairs_view(reqs@)) is None,
        },
{
    let ghost all = lines_view(lines@);
    let ghost rv = pairs_view(reqs@);
    let mut out: Vec<String> = Vec::new();
    let mut did_anything = false;
    let mut i: usize = 0;
    proof {
        assert(all.subrange(0, 0) =~= Seq::<Seq<char>>::empty());
        assert(lines_view(out@) =~= Seq::<Seq<char>>::empty());
    }
    while i < lines.len()
        invariant
            i <= lines@.len(),
            all == lines_view(lines@),
            all.len() == lines@.len(),
            rv == pairs_view(reqs@),
            version@.wf(),
            spec_rewrite_lines(all.subrange(0, i as int), version@, rv) == Some(
                (lines_view(out@), did_anything),
            ),
        decreases lines.len() - i,
    {
        let line = lines[i].as_str();
        proof {
            assert(all.subrange(0, i + 1).drop_last() =~= all.subrange(0, i as int));
            assert(all.subrange(0, i + 1).last() == line@);
        }
        match rewrite_python_line(line, version, reqs) {
            Ok((t, d)) => {
                let ghost before = lines_view(out@);
                out.push(t);
                did_anything = did_anything || d;
                proof {
                    assert(lines_view(out@) =~= before.push(t@));
                }
            },
            Err(e) => {
                proof {
                    lemma_rewrite_lines_none(all, version@, rv, i as int);
                }
                return Err(e);
            },
        }
        i = i + 1;
    }
    proof {
        assert(all.subrange(0, i as int) =~= all);
    }
    Ok((out, did_anything))
}

/// The Python requirement written for an internal dependency: the manual
/// text, or for a commit requirement a caret requirement on the resolved
/// version. `None` when there is nothing to write.
pub open spec fn python_req_text(
    req: crate::project::DepRequirement,
    resolved: Option<VersionModel>,
) -> Option<Seq<char>> {
    match req {
        crate::project::DepRequirement::Manual(t) => Some(t@),
        crate::project::DepRequirement::Commit(_) => match resolved {
            Some(v) => Some("^"@ + render_version(v)),
            None => None,
        },
        crate::project::DepRequirement::Unavailable => None,
    }
}

/// The requirement texts of a project's internal dependencies, keyed by the
/// user-facing name of the project depended on.
pub open spec fn python_dep_table(
    g: crate::graph::ProjectGraph,
    deps: Seq<crate::project::Dependency>,
) -> Seq<(Seq<char>, Seq<char>)>
    decreases deps.len(),
{
    if deps.len() == 0 {
        Seq::empty()
    } else {
        let prev = python_dep_table(g, deps.drop_last());
        let d = deps.last();
        match python_req_text(d.cranko_requirement, crate::cargo::opt_version_view(d.resolved_version)) {
            Some(t) => prev.push((g.projects_view()[d.ident as int].name_view(), t)),
            None => prev,
        }
    }
}

impl PythonRewriter {
    /// The requirements to write for the project's internal dependencies,
    /// keyed by the user-facing name of the project depended on.
    pub fn internal_reqs(&self, graph: &crate::graph::ProjectGraph) -> (res: Vec<(String, String)>)
        requires
            self.proj_view() < graph.projects_view().len(),
        ensures
            pairs_view(res@) == python_dep_table(
                *graph,
                graph.projects_view()[self.proj_view() as int].deps_view(),
            ),
    {
        let proj = graph.lookup(self.proj_id);
        let ghost deps = proj.deps_view();
        let pdeps = proj.deps();
        let mut out: Vec<(String, String)> = Vec::new();
        let mut i: usize = 0;
        proof {
            assert(deps.take(0) =~= Seq::<crate::project::Dependency>::empty());
            assert(pairs_view(out@) =~= Seq::<(Seq<char>, Seq<char>)>::empty());
        }
        while i < pdeps.len()
            invariant
                i <= deps.len(),
                deps == pdeps@,
                *proj == graph.projects_view()[self.proj_view() as int],
                forall|k: int|
                    0 <= k < deps.len() ==> (#[trigger] deps[k]).ident < graph.projects_view().len() && (
                    deps[k].resolved_version matches Some(v) ==> v@.wf()),
                pairs_view(out@) == python_dep_table(*graph, deps.take(i as int)),
            decreases deps.len() - i,
        {
            let dep = &pdeps[i];
            proof {
                assert(deps.take(i + 1).drop_last() =~= deps.take(i as int));
                assert(deps.take(i + 1).last() == *dep);
                assert(deps[i as int] == *dep);
            }
            let text: Option<String> = match &dep.cranko_requirement {
                crate::project::DepRequirement::Manual(t) => Some(t.clone()),
                crate::project::DepRequirement::Commit(_) => match &dep.resolved_version {
                    Some(v) => {
                        let mut c = str_to_chars("^");
                        append_chars(&mut c, &str_to_chars(v.to_string().as_str()));
                        Some(chars_to_string(&c))
                    },
                    None => None,
                },
                crate::project::DepRequirement::Unavailable => None,
            };
            match text {
                Some(t) => {
                    let target = graph.lookup(dep.ident);
                    let key = target.name().clone();
                    let ghost pv = pairs_view(out@);
                    out.push((key, t));
                    proof {
                        assert(pairs_view(out@) =~= pv.push((key@, t@)));
                    }
                },
                None => {},
            }
            i = i + 1;
        }
        proof {
            assert(deps.take(deps.len() as int) =~= deps);
        }
        out
    }
}

// ---------------------------------------------------------------------------
// `setup.cfg`

/// Declared so that an "ini"-style configuration can be held by verified
/// code.
#[verifier::external_type_specification]
#[verifier::external_body]
pub struct ExIni(configparser::ini::Ini);

/// The text most recently read into a configuration (empty for a new one):
/// what it holds is a function of that text.
pub uninterp spec fn ini_source(cfg: configparser::ini::Ini) -> Seq<char>;

/// Whether `Ini::read` accepts a text.
pub uninterp spec fn ini_accepts(text: Seq<char>) -> bool;

/// What `Ini::get` gives for a section and key of a configuration read from
/// a text.
pub uninterp spec fn ini_lookup(text: Seq<char>, section: Seq<char>, key: Seq<char>) -> Option<Seq<char>>;

/// Calls `Ini::new`: a case-insensitive configuration with nothing read.
#[verifier::external_body]
fn ini_new() -> (cfg: configparser::ini::Ini)
    ensures
        ini_source(cfg) == Seq::<char>::empty(),
{
    configparser::ini::Ini::new()
}

/// Calls `Ini::read`, which parses a text and, when it succeeds, replaces
/// what the configuration holds with it.
#[verifier::external_body]
fn ini_read(cfg: &mut configparser::ini::Ini, text: String) -> (ok: bool)
    ensures
        ok == ini_accepts(text@),
        ok ==> ini_source(*final(cfg)) == text@,
        !ok ==> ini_source(*final(cfg)) == ini_source(*old(cfg)),
{
    cfg.read(text).is_ok()
}

/// Calls `Ini::get`; its answer is named `ini_lookup` of the text read.
#[verifier::external_body]
fn ini_get(cfg: &configparser::ini::Ini, section: &str, key: &str) -> (res: Option<String>)
    ensures
        opt_text_view(res) == ini_lookup(ini_source(*cfg), section@, key@),
{
    cfg.get(section, key)
}

// ---------------------------------------------------------------------------
// Completing the projects

/// The Cranko metadata of a `pyproject.toml` file (its `[tool.cranko]`
/// table).
#[derive(Debug)]
pub struct PyProjectCranko {
    /// The project name.
    pub name: Option<String>,
    /// The file to read for the current version, relative to the project
    /// directory; `setup.py` when absent.
    pub main_version_file: Option<String>,
    /// Further Python files rewritten on release.
    pub annotated_files: Vec<String>,
    /// Cranko requirement texts of internal dependencies, by project name.
    pub internal_dep_versions: Vec<(String, String)>,
}

/// The files of one Python project directory, as read from the working
/// tree.
#[derive(Debug)]
pub struct PypaDirFiles {
    /// The `[tool.cranko]` table of `pyproject.toml`, when there is one.
    pub pyproject: Option<PyProjectCranko>,
    /// The text of `setup.cfg`, when it exists.
    pub setup_cfg: Option<String>,
    /// The lines of `setup.py`, when it exists.
    pub setup_py: Option<Vec<String>>,
    /// The lines of the main version file, when it is not `setup.py`.
    pub version_file: Option<Vec<String>>,
    /// The lines of each annotated file, in the order of `annotated_files`.
    pub annotated: Vec<Vec<String>>,
}

/// The main version file of a project.
pub open spec fn main_file(f: PypaDirFiles) -> Seq<char> {
    match f.pyproject {
        Some(c) => match c.main_version_file {
            Some(m) => m@,
            None => "setup.py"@,
        },
        None => "setup.py"@,
    }
}

/// The name stated in `pyproject.toml`.
pub open spec fn pyproject_name(f: PypaDirFiles) -> Option<Seq<char>> {
    match f.pyproject {
        Some(c) => opt_text_view(c.name),
        None => None,
    }
}

/// The name known after `setup.cfg`: its `metadata.name` unless
/// `pyproject.toml` named the project. `None` when `setup.cfg` cannot be
/// parsed.
pub open spec fn name_after_cfg(f: PypaDirFiles) -> Option<Option<Seq<char>>> {
    match f.setup_cfg {
        None => Some(pyproject_name(f)),
        Some(t) => if !ini_accepts(t@) {
            None
        } else if pyproject_name(f) is None {
            Some(ini_lookup(t@, "metadata"@, "name"@))
        } else {
            Some(pyproject_name(f))
        },
    }
}

/// The name and version found in a project directory's files: from
/// `pyproject.toml`, `setup.cfg`, the marked lines of `setup.py`, and the
/// main version file. `None` when a file cannot be read.
pub open spec fn pypa_name_version(f: PypaDirFiles) -> Option<(Option<Seq<char>>, Option<Pep440Model>)> {
    let in_setup = main_file(f) == "setup.py"@;
    match name_after_cfg(f) {
        None => None,
        Some(n) => {
            let after_setup = match f.setup_py {
                None => Some((n, None)),
                Some(lines) => spec_scan_lines(lines_view(lines@), n, None, true, in_setup),
            };
            match after_setup {
                None => None,
                Some((n2, v2)) => if in_setup {
                    Some((n2, v2))
                } else {
                    match f.version_file {
                        Some(lines) => spec_scan_lines(lines_view(lines@), n2, v2, false, true),
                        None => None,
                    }
                },
            }
        },
    }
}

/// An internal requirement of a Python project on a project named in a
/// `# cranko internal-req` comment, whose Cranko requirement text still has
/// to be resolved.
#[derive(Debug)]
pub struct PypaPendingDep {
    pub depender: ProjectId,
    /// The user-facing name of the project required.
    pub target: String,
    /// The Cranko requirement text from `pyproject.toml`, if any.
    pub req_text: Option<String>,
}

/// The names of the requirements in all annotated files.
pub open spec fn annotated_reqs(files: Seq<Vec<String>>) -> Option<Set<Seq<char>>>
    decreases files.len(),
{
    if files.len() == 0 {
        Some(Set::empty())
    } else {
        match (annotated_reqs(files.drop_last()), spec_scan_reqs(lines_view(files.last()@))) {
            (Some(a), Some(b)) => Some(a + b.to_set()),
            _ => None,
        }
    }
}

/// Finds the name, version and main version file of the Python project of a
/// directory.
fn identify_python_project(dirname: &RepoPathBuf, files: &PypaDirFiles) -> (res: Result<
    (String, Pep440Version, String),
    Error,
>)
    requires
        main_file(*files) != "setup.py"@ ==> files.version_file is Some,
    ensures
        match pypa_name_version(*files) {
            None => res is Err,
            Some((None, _)) => res matches Err(Error::MissingPythonName(d)) && d@ == spec_dir_desc(
                dirname@,
            ),
            Some((Some(_), None)) => res matches Err(Error::MissingPythonVersion(d)) && d@
                == spec_dir_desc(dirname@),
            Some((Some(n), Some(v))) => res matches Ok((rn, rv, rm)) && rn@ == n && rv@ == v && rv@.wf()
                && rm@ == main_file(*files),
        },
{
    reveal(pypa_name_version);
    let dir_desc = directory_description(dirname.as_repo_path());
    let mut name: Option<String> = match &files.pyproject {
        Some(c) => c.name.clone(),
        None => None,
    };
    let main: String = match &files.pyproject {
        Some(c) => match &c.main_version_file {
            Some(m) => m.clone(),
            None => owned("setup.py"),
        },
        None => owned("setup.py"),
    };
    proof {
        assert(opt_text_view(name) == pyproject_name(*files));
        assert(main@ == main_file(*files));
    }
    match &files.setup_cfg {
        None => {},
        Some(t) => {
            let mut cfg = ini_new();
            if !ini_read(&mut cfg, t.clone()) {
                return Err(Error::IniSyntax);
            }
            if name.is_none() {
                name = ini_get(&cfg, "metadata", "name");
            }
        },
    }
    proof {
        assert(name_after_cfg(*files) == Some(opt_text_view(name)));
    }
    let in_setup = main == owned("setup.py");
    let mut version: Option<Pep440Version> = None;
    match &files.setup_py {
        None => {},
        Some(lines) => match scan_python_source(lines, name, None, true, in_setup) {
            Ok((n, v)) => {
                name = n;
                version = v;
            },
            Err(e) => return Err(e),
        },
    }
    if !in_setup {
        match &files.version_file {
            Some(lines) => match scan_python_source(lines, name, version, false, true) {
                Ok((n, v)) => {
                    name = n;
                    version = v;
                },
                Err(e) => return Err(e),
            },
            None => return Err(Error::MissingPythonVersion(dir_desc)),
        }
    }
    proof {
        assert(pypa_name_version(*files) == Some((opt_text_view(name), opt_version_view(version))));
    }
    let name = match name {
        Some(n) => n,
        None => return Err(Error::MissingPythonName(dir_desc)),
    };
    let version = match version {
        Some(v) => v,
        None => return Err(Error::MissingPythonVersion(dir_desc)),
    };
    Ok((name, version, main))
}

/// Whether a rewriter rewrites the Python file at `path` for project
/// `ident`.
pub open spec fn python_rewriter_ok(rw: Rewriter, ident: int, path: Seq<u8>) -> bool {
    rw matches Rewriter::Python(r) && r.proj_view() == ident && r.path_view() == path
}

/// The annotated file of a project, by position.
pub open spec fn annotated_name(files: PypaDirFiles, k: int) -> Seq<char> {
    match files.pyproject {
        Some(c) => c.annotated_files@[k]@,
        None => Seq::empty(),
    }
}

/// Scans the annotated files of a registered Python project for internal
/// requirements and gives the project a rewriter for each. Returns the
/// distinct requirement names.
fn register_annotated(
    dirname: &RepoPathBuf,
    files: &PypaDirFiles,
    graph: &mut ProjectGraphBuilder,
    ident: ProjectId,
) -> (res: Result<Vec<String>, Error>)
    requires
        old(graph).wf(),
        ident < old(graph).projects_view().len(),
        files.pyproject matches Some(c) ==> files.annotated@.len() == c.annotated_files@.len(),
        files.pyproject is None ==> files.annotated@.len() == 0,
    ensures
        final(graph).wf(),
        final(graph).projects_view().len() == old(graph).projects_view().len(),
        forall|x: int|
            0 <= x < old(graph).projects_view().len() && x != ident ==> final(graph).projects_view()[x]
                == old(graph).projects_view()[x],
        final(graph).projects_view()[ident as int].qnames == old(graph).projects_view()[ident as int].qnames,
        final(graph).projects_view()[ident as int].version == old(graph).projects_view()[ident as int].version,
        final(graph).projects_view()[ident as int].prefix == old(graph).projects_view()[ident as int].prefix,
        match annotated_reqs(files.annotated@) {
            None => res matches Err(Error::MissingInternalReqName),
            Some(reqs) => res matches Ok(names) && lines_view(names@).no_duplicates() && lines_view(
                names@,
            ).to_set() == reqs && final(graph).projects_view()[ident as int].rewriters@.len()
                == old(graph).projects_view()[ident as int].rewriters@.len() + files.annotated@.len(),
        },
        final(graph).projects_view()[ident as int].rewriters@.len() >= old(graph).projects_view()[ident as int].rewriters@.len(),
        forall|r: int|
            0 <= r < old(graph).projects_view()[ident as int].rewriters@.len() ==> (#[trigger] final(graph).projects_view()[ident as int].rewriters@[r]) == old(graph).projects_view()[ident as int].rewriters@[r],
        forall|r: int|
            old(graph).projects_view()[ident as int].rewriters@.len() <= r < final(graph).projects_view()[ident as int].rewriters@.len() ==> python_rewriter_ok(
                #[trigger] final(graph).projects_view()[ident as int].rewriters@[r],
                ident as int,
                push_spec(
                    dirname@,
                    vstd::utf8::encode_utf8(
                        annotated_name(*files, r - old(graph).projects_view()[ident as int].rewriters@.len()),
                    ),
                ),
            ),
{
    let ghost g0 = graph.projects_view();
    let ghost r0 = g0[ident as int].rewriters@.len();
        let mut reqs: Vec<String> = Vec::new();
        let n_annot = files.annotated.len();
        let mut k: usize = 0;
        proof {
            assert(files.annotated@.take(0) =~= Seq::<Vec<String>>::empty());
            assert(lines_view(reqs@).to_set() =~= Set::<Seq<char>>::empty());
        }
        while k < n_annot
            invariant
                k <= n_annot,
                n_annot == files.annotated@.len(),
                files.pyproject matches Some(c) ==> files.annotated@.len() == c.annotated_files@.len(),
                files.pyproject is None ==> files.annotated@.len() == 0,
                graph.wf(),
                g0 == old(graph).projects_view(),
                ident < g0.len(),
                graph.projects_view().len() == g0.len(),
                forall|x: int| 0 <= x < g0.len() && x != ident ==> graph.projects_view()[x] == g0[x],
                graph.projects_view()[ident as int].qnames == g0[ident as int].qnames,
                graph.projects_view()[ident as int].version == g0[ident as int].version,
                graph.projects_view()[ident as int].prefix == g0[ident as int].prefix,
                graph.projects_view()[ident as int].rewriters@.len() == r0 + k,
                r0 == g0[ident as int].rewriters@.len(),
                forall|r: int|
                    0 <= r < r0 ==> (#[trigger] graph.projects_view()[ident as int].rewriters@[r])
                        == g0[ident as int].rewriters@[r],
                forall|r: int|
                    r0 <= r < r0 + k ==> python_rewriter_ok(
                        #[trigger] graph.projects_view()[ident as int].rewriters@[r],
                        ident as int,
                        push_spec(dirname@, vstd::utf8::encode_utf8(annotated_name(*files, r - r0))),
                    ),
                lines_view(reqs@).no_duplicates(),
                annotated_reqs(files.annotated@.take(k as int)) == Some(lines_view(reqs@).to_set()),
            decreases n_annot - k,
        {
            let path = match &files.pyproject {
                Some(c) => &c.annotated_files[k],
                None => {
                    proof {
                        assert(false);
                    }
                    return Err(Error::MissingInternalReqName);
                },
            };
            proof {
                assert(files.annotated@.take(k + 1).drop_last() =~= files.annotated@.take(k as int));
                assert(files.annotated@.take(k + 1).last() == files.annotated@[k as int]);
            }
            let ghost before = lines_view(reqs@).to_set();
            match collect_internal_reqs(&files.annotated[k], &mut reqs) {
                Ok(()) => {},
                Err(e) => {
                    proof {
                        lemma_annotated_reqs_none(files.annotated@, k as int);
                    }
                    return Err(e);
                },
            }
            let mut rw_path = dirname.copy();
            rw_path.push_str(path.as_str());
            let ghost gb = graph.projects_view();
            graph.add_rewriter(ident, Rewriter::Python(PythonRewriter::new(ident, rw_path)));
            proof {
                let rs = graph.projects_view()[ident as int].rewriters@;
                assert(rs == gb[ident as int].rewriters@.push(rs[r0 + k]));
                assert forall|r: int| 0 <= r < r0 + k implies #[trigger] rs[r] == gb[ident as int].rewriters@[r] by {}
            }
            k = k + 1;
        }
        proof {
            assert(files.annotated@.take(n_annot as int) =~= files.annotated@);
        }
    Ok(reqs)
}

/// The pending internal requirements of a project on the projects named.
fn pending_for(files: &PypaDirFiles, reqs: &Vec<String>, ident: ProjectId) -> (pending: Vec<PypaPendingDep>)
    ensures
        pending@.map_values(|d: PypaPendingDep| d.target@) == lines_view(reqs@),
        forall|x: int| 0 <= x < pending@.len() ==> (#[trigger] pending@[x]).depender == ident,
{
    let ghost base = ident;
        let mut pending: Vec<PypaPendingDep> = Vec::new();
        let mut m: usize = 0;
        proof {
            assert(pending@.map_values(|d: PypaPendingDep| d.target@) =~= lines_view(reqs@).take(0));
        }
        while m < reqs.len()
            invariant
                m <= reqs@.len(),
                ident == base,
                pending@.map_values(|d: PypaPendingDep| d.target@) == lines_view(reqs@).take(m as int),
                forall|x: int| 0 <= x < pending@.len() ==> (#[trigger] pending@[x]).depender == base,
            decreases reqs.len() - m,
        {
            let req_text = match &files.pyproject {
                Some(c) => match table_get(&c.internal_dep_versions, &reqs[m]) {
                    Some(t) => Some(t.clone()),
                    None => None,
                },
                None => None,
            };
            let ghost pv = pending@.map_values(|d: PypaPendingDep| d.target@);
            pending.push(PypaPendingDep { depender: ident, target: reqs[m].clone(), req_text });
            proof {
                assert(pending@.map_values(|d: PypaPendingDep| d.target@) =~= pv.push(reqs@[m as int]@));
                assert(lines_view(reqs@).take(m + 1) =~= lines_view(reqs@).take(m as int).push(reqs@[m as int]@));
            }
            m = m + 1;
        }
        proof {
            assert(lines_view(reqs@).take(reqs@.len() as int) =~= lines_view(reqs@));
        }
    pending
}

/// Registers the Python project named `name` in the directory `dirname`,
/// unless the configuration ignores it: qualified as `pypa`, with its
/// version and a rewriter for its main version file.
fn register_python_project(
    graph: &mut ProjectGraphBuilder,
    name: &String,
    version: Pep440Version,
    dirname: &RepoPathBuf,
    main: &String,
    pconfig: &Vec<(String, crate::config::ProjectConfiguration)>,
) -> (res: Option<ProjectId>)
    requires
        old(graph).wf(),
        old(graph).projects_view().len() + 2 < index_limit(),
        version@.wf(),
    ensures
        final(graph).wf(),
        ({
            let base = old(graph).projects_view().len();
            let ps = final(graph).projects_view();
            if config_ignores(pconfig@, full_name(seq![name@, "pypa"@])) {
                res is None && ps == old(graph).projects_view()
            } else {
                &&& res == Some(base as ProjectId)
                &&& ps.len() == base + 1
                &&& ps.subrange(0, base as int) == old(graph).projects_view()
                &&& names_view(ps[base as int].qnames@) == seq![name@, "pypa"@]
                &&& ps[base as int].version matches Some(pv) && pv@ == VersionModel::Pep440(version@)
                &&& ps[base as int].prefix matches Some(p) && p@ == dirname@
                &&& ps[base as int].rewriters@.len() == 1
                &&& python_rewriter_ok(
                    ps[base as int].rewriters@[0],
                    base as int,
                    push_spec(dirname@, vstd::utf8::encode_utf8(main@)),
                )
            }
        }),
{
    let ghost g0 = graph.projects_view();
    let mut qnames: Vec<String> = Vec::new();
    qnames.push(name.clone());
    qnames.push(owned("pypa"));
    proof {
        assert(names_view(qnames@) =~= seq![name@, "pypa"@]);
    }
    let ident = match graph.try_add_project(qnames, pconfig) {
        None => {
            return None;
        },
        Some(id) => id,
    };
    let ghost base = g0.len();
    let ghost ga = graph.projects_view();
    graph.set_version(ident, Version::Pep440(version));
    graph.set_prefix(ident, dirname.copy());
    let mut rw_path = dirname.copy();
    rw_path.push_str(main.as_str());
    graph.add_rewriter(ident, Rewriter::Python(PythonRewriter::new(ident, rw_path)));
    proof {
        assert(graph.projects_view().subrange(0, base as int) =~= g0) by {
            assert forall|x: int| 0 <= x < base implies graph.projects_view()[x] == ga[x] by {}
            assert(ga.subrange(0, base as int) == g0);
        }
    }
    Some(ident)
}

impl PypaLoader {
    /// Completes the Python project of one directory of interest, given its
    /// files. Its name and version are those found in the files; either
    /// missing is an error. Unless the configuration ignores it, the project
    /// is registered under its name qualified as `pypa`, rooted in the
    /// directory, with a rewriter for its main version file and one for each
    /// annotated file. Returns the internal requirements named in the
    /// annotated files.
    pub fn finalize_dir(
        dirname: &RepoPathBuf,
        files: &PypaDirFiles,
        graph: &mut ProjectGraphBuilder,
        pconfig: &Vec<(String, crate::config::ProjectConfiguration)>,
    ) -> (res: Result<Vec<PypaPendingDep>, Error>)
        requires
            old(graph).wf(),
            old(graph).projects_view().len() + 2 < index_limit(),
            main_file(*files) != "setup.py"@ ==> files.version_file is Some,
            files.pyproject matches Some(c) ==> files.annotated@.len() == c.annotated_files@.len(),
            files.pyproject is None ==> files.annotated@.len() == 0,
        ensures
            final(graph).wf(),
            final(graph).projects_view().len() >= old(graph).projects_view().len(),
            final(graph).projects_view().subrange(0, old(graph).projects_view().len() as int)
                == old(graph).projects_view(),
            match pypa_name_version(*files) {
                None => res is Err,
                Some((None, _)) => res matches Err(Error::MissingPythonName(d)) && d@ == spec_dir_desc(
                    dirname@,
                ),
                Some((Some(_), None)) => res matches Err(Error::MissingPythonVersion(d)) && d@
                    == spec_dir_desc(dirname@),
                Some((Some(n), Some(v))) => named_dir_outcome(
                    dirname@,
                    *files,
                    pconfig@,
                    n,
                    v,
                    old(graph).projects_view(),
                    final(graph).projects_view(),
                    res,
                ),
            },
    {
        match identify_python_project(dirname, files) {
            Ok((name, version, main)) => finalize_named(dirname, files, graph, pconfig, name, version, main),
            Err(e) => Err(e),
        }
    }
}

/// What completing a Python project found with the name `n` and the version
/// `v` leaves in the graph (from `g0` to `g1`) and returns.
pub open spec fn named_dir_outcome(
    dirname: Seq<u8>,
    files: PypaDirFiles,
    pconfig: Seq<(String, crate::config::ProjectConfiguration)>,
    n: Seq<char>,
    v: Pep440Model,
    g0: Seq<ProjectBuilder>,
    g1: Seq<ProjectBuilder>,
    res: Result<Vec<PypaPendingDep>, Error>,
) -> bool {
    let base = g0.len();
    if config_ignores(pconfig, full_name(seq![n, "pypa"@])) {
        res matches Ok(p) && p@.len() == 0 && g1 == g0
    } else {
        &&& g1.len() == base + 1
        &&& names_view(g1[base as int].qnames@) == seq![n, "pypa"@]
        &&& g1[base as int].version matches Some(pv) && pv@ == VersionModel::Pep440(v)
        &&& g1[base as int].prefix matches Some(p) && p@ == dirname
        &&& match annotated_reqs(files.annotated@) {
            None => res matches Err(Error::MissingInternalReqName),
            Some(reqs) => res matches Ok(pending) && g1[base as int].rewriters@.len() == 1
                + files.annotated@.len() && pending@.map_values(|d: PypaPendingDep| d.target@).to_set()
                == reqs && pending@.map_values(|d: PypaPendingDep| d.target@).no_duplicates() && (forall|k: int|
                0 <= k < pending@.len() ==> (#[trigger] pending@[k]).depender == base) && python_rewriter_ok(
                g1[base as int].rewriters@[0],
                base as int,
                push_spec(dirname, vstd::utf8::encode_utf8(main_file(files))),
            ) && (forall|r: int|
                1 <= r < g1[base as int].rewriters@.len() ==> python_rewriter_ok(
                    #[trigger] g1[base as int].rewriters@[r],
                    base as int,
                    push_spec(dirname, vstd::utf8::encode_utf8(annotated_name(files, r - 1))),
                )),
        }
    }
}

/// Completes a Python project once its name, version and main version file
/// are known.
fn finalize_named(
    dirname: &RepoPathBuf,
    files: &PypaDirFiles,
    graph: &mut ProjectGraphBuilder,
    pconfig: &Vec<(String, crate::config::ProjectConfiguration)>,
    name: String,
    version: Pep440Version,
    main: String,
) -> (res: Result<Vec<PypaPendingDep>, Error>)
    requires
        old(graph).wf(),
        old(graph).projects_view().len() + 2 < index_limit(),
        version@.wf(),
        main@ == main_file(*files),
        files.pyproject matches Some(c) ==> files.annotated@.len() == c.annotated_files@.len(),
        files.pyproject is None ==> files.annotated@.len() == 0,
    ensures
        final(graph).wf(),
        final(graph).projects_view().len() >= old(graph).projects_view().len(),
        final(graph).projects_view().subrange(0, old(graph).projects_view().len() as int)
            == old(graph).projects_view(),
        named_dir_outcome(
            dirname@,
            *files,
            pconfig@,
            name@,
            version@,
            old(graph).projects_view(),
            final(graph).projects_view(),
            res,
        ),
{
    let ghost g0 = graph.projects_view();
    let ident = match register_python_project(graph, &name, version, dirname, &main, pconfig) {
        None => {
            return Ok(Vec::new());
        },
        Some(id) => id,
    };
    let ghost base = g0.len();
    let ghost g1 = graph.projects_view();
    let reqs = match register_annotated(dirname, files, graph, ident) {
        Ok(r) => r,
        Err(e) => {
            proof {
                assert(graph.projects_view().subrange(0, base as int) =~= g0) by {
                    assert forall|x: int| 0 <= x < base implies graph.projects_view()[x] == g1[x] by {}
                    assert(g1.subrange(0, base as int) == g0);
                }
            }
            return Err(e);
        },
    };
    proof {
        assert(graph.projects_view().subrange(0, base as int) =~= g0) by {
            assert forall|x: int| 0 <= x < base implies graph.projects_view()[x] == g1[x] by {}
            assert(g1.subrange(0, base as int) == g0);
        }
    }
    let pending = pending_for(files, &reqs, ident);
    Ok(pending)
}

/// A requirement line without a name in one annotated file makes the whole
/// collection fail.
proof fn lemma_annotated_reqs_none(files: Seq<Vec<String>>, k: int)
    requires
        0 <= k < files.len(),
        spec_scan_reqs(lines_view(files[k]@)) is None,
    ensures
        annotated_reqs(files) is None,
    decreases files.len() - k,
{
    lemma_annotated_reqs_none_upto(files, k, files.len() as int);
    assert(files.take(files.len() as int) =~= files);
}

proof fn lemma_annotated_reqs_none_upto(files: Seq<Vec<String>>, k: int, j: int)
    requires
        0 <= k < j <= files.len(),
        spec_scan_reqs(lines_view(files[k]@)) is None,
    ensures
        annotated_reqs(files.take(j)) is None,
    decreases j,
{
    assert(files.take(j).drop_last() =~= files.take(j - 1));
    assert(files.take(j).last() == files[j - 1]);
    if k < j - 1 {
        lemma_annotated_reqs_none_upto(files, k, j - 1);
    }
}

} // verus!
