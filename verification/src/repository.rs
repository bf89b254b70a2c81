//! Paths inside the backing repository, path matchers, and the release
//! records that Cranko keeps in the repository history.

use vstd::prelude::*;

use crate::errors::Error;
use crate::text::{owned, str_to_chars};
use vstd::string::StringSliceAdditionalSpecFns;

verus! {

// ---------------------------------------------------------------------------
// Repository paths

/// A pathname as understood by the backing repository: a byte string whose
/// directory separator is always `/`. The bytes are often, but not always,
/// UTF-8.
#[derive(Clone, Debug, PartialEq, Eq)]
pub struct RepoPath(pub Vec<u8>);

/// An owned repository path.
#[derive(Clone, Debug, PartialEq, Eq)]
pub struct RepoPathBuf(pub RepoPath);

impl View for RepoPath {
    type V = Seq<u8>;

    open spec fn view(&self) -> Seq<u8> {
        self.0@
    }
}

impl View for RepoPathBuf {
    type V = Seq<u8>;

    open spec fn view(&self) -> Seq<u8> {
        self.0@
    }
}

pub open spec fn is_prefix(p: Seq<u8>, s: Seq<u8>) -> bool {
    p.len() <= s.len() && s.subrange(0, p.len() as int) == p
}

pub open spec fn is_suffix(p: Seq<u8>, s: Seq<u8>) -> bool {
    p.len() <= s.len() && s.subrange(s.len() - p.len(), s.len() as int) == p
}

/// Index just past the last `/`, or zero when there is none.
pub open spec fn basename_start(s: Seq<u8>) -> int
    decreases s.len(),
{
    if s.len() == 0 {
        0
    } else if s.last() == 47u8 {
        s.len() as int
    } else {
        basename_start(s.drop_last())
    }
}

pub proof fn lemma_basename_start(s: Seq<u8>)
    ensures
        0 <= basename_start(s) <= s.len(),
        forall|i: int| basename_start(s) <= i < s.len() ==> s[i] != 47u8,
        basename_start(s) > 0 ==> s[basename_start(s) - 1] == 47u8,
    decreases s.len(),
{
    if s.len() > 0 && s.last() != 47u8 {
        lemma_basename_start(s.drop_last());
        assert forall|i: int| basename_start(s) <= i < s.len() implies s[i] != 47u8 by {
            if i < s.len() - 1 {
                assert(s[i] == s.drop_last()[i]);
            }
        }
    }
}

fn copy_bytes(b: &[u8], from: usize, to: usize) -> (res: Vec<u8>)
    requires
        from <= to <= b@.len(),
    ensures
        res@ == b@.subrange(from as int, to as int),
{
    let mut v: Vec<u8> = Vec::new();
    let mut i = from;
    while i < to
        invariant
            from <= i <= to,
            to <= b@.len(),
            v@ =~= b@.subrange(from as int, i as int),
        decreases to - i,
    {
        v.push(b[i]);
        i = i + 1;
    }
    v
}

impl RepoPath {
    /// A path with the given bytes.
    pub fn new(p: &[u8]) -> (res: RepoPath)
        ensures
            res@ == p@,
    {
        RepoPath(copy_bytes(p, 0, p.len()))
    }

    /// The path's bytes.
    pub fn as_bytes(&self) -> (res: &[u8])
        ensures
            res@ == self@,
    {
        self.0.as_slice()
    }

    /// Splits the path into a directory name and a file basename. The
    /// dirname is empty if the path holds no separator; otherwise it ends
    /// with the separator. Their concatenation is always the path.
    pub fn split_basename(&self) -> (res: (RepoPath, RepoPath))
        ensures
            res.0@ + res.1@ == self@,
            res.0@.len() == basename_start(self@),
            res.0@.len() == 0 || res.0@.last() == 47u8,
            forall|i: int| 0 <= i < res.1@.len() ==> res.1@[i] != 47u8,
    {
        proof {
            lemma_basename_start(self@);
        }
        let n = self.0.len();
        let mut k = n;
        assert(self@.subrange(0, n as int) =~= self@);
        while k > 0 && self.0[k - 1] != 47u8
            invariant
                k <= n,
                n == self@.len(),
                basename_start(self@.subrange(0, k as int)) == basename_start(self@),
            decreases k,
        {
            assert(self@.subrange(0, k as int).drop_last() =~= self@.subrange(0, k - 1));
            k = k - 1;
        }
        assert(k == 0 ==> self@.subrange(0, k as int) =~= Seq::<u8>::empty());
        if k > 0 {
            assert(self@.subrange(0, k as int).last() == 47u8);
        }
        let d = copy_bytes(self.0.as_slice(), 0, k);
        let b = copy_bytes(self.0.as_slice(), k, n);
        assert(d@ + b@ =~= self@);
        (RepoPath(d), RepoPath(b))
    }

    /// The path without one trailing separator, if it ends with one.
    pub fn pop_sep(&self) -> (res: RepoPath)
        ensures
            res@ == if self@.len() > 0 && self@.last() == 47u8 {
                self@.drop_last()
            } else {
                self@
            },
    {
        let n = self.0.len();
        if n > 0 && self.0[n - 1] == 47u8 {
            let v = copy_bytes(self.0.as_slice(), 0, n - 1);
            assert(v@ =~= self@.drop_last());
            RepoPath(v)
        } else {
            let v = copy_bytes(self.0.as_slice(), 0, n);
            assert(v@ =~= self@);
            RepoPath(v)
        }
    }

    /// The length of the path, in bytes.
    pub fn len(&self) -> (res: usize)
        ensures
            res == self@.len(),
    {
        self.0.len()
    }

    /// An owned copy of this path.
    pub fn to_owned(&self) -> (res: RepoPathBuf)
        ensures
            res@ == self@,
    {
        RepoPathBuf(RepoPath::new(self.0.as_slice()))
    }

    /// A user-displayable version of this path; see `escape_pathlike`.
    pub fn escaped(&self) -> (res: String)
        ensures
            res@ == escape_spec(self@),
    {
        escape_pathlike(self.0.as_slice())
    }

    /// Whether this path starts with the given bytes.
    pub fn starts_with(&self, other: &[u8]) -> (res: bool)
        ensures
            res == is_prefix(other@, self@),
    {
        let sn = self.0.len();
        let on = other.len();
        if sn < on {
            return false;
        }
        let mut i: usize = 0;
        while i < on
            invariant
                i <= on,
                on <= sn,
                sn == self@.len(),
                on == other@.len(),
                forall|k: int| 0 <= k < i ==> self@[k] == other@[k],
            decreases on - i,
        {
            if self.0[i] != other[i] {
                assert(self@.subrange(0, on as int)[i as int] != other@[i as int]);
                return false;
            }
            i = i + 1;
        }
        assert(self@.subrange(0, on as int) =~= other@);
        true
    }

    /// Whether this path ends with the given bytes.
    pub fn ends_with(&self, other: &[u8]) -> (res: bool)
        ensures
            res == is_suffix(other@, self@),
    {
        let sn = self.0.len();
        let on = other.len();
        if sn < on {
            return false;
        }
        let base = sn - on;
        let mut i: usize = 0;
        while i < on
            invariant
                i <= on,
                on <= sn,
                base == sn - on,
                sn == self@.len(),
                on == other@.len(),
                forall|k: int| 0 <= k < i ==> self@[base + k] == other@[k],
            decreases on - i,
        {
            if self.0[base + i] != other[i] {
                assert(self@.subrange(base as int, sn as int)[i as int] != other@[i as int]);
                return false;
            }
            i = i + 1;
        }
        assert(self@.subrange(base as int, sn as int) =~= other@);
        true
    }
}

impl RepoPathBuf {
    /// An owned path with the given bytes.
    pub fn new(b: &[u8]) -> (res: RepoPathBuf)
        ensures
            res@ == b@,
    {
        RepoPathBuf(RepoPath::new(b))
    }

    /// A copy of this path.
    pub fn copy(&self) -> (res: RepoPathBuf)
        ensures
            res@ == self@,
    {
        RepoPathBuf::new((self.0).0.as_slice())
    }

    /// This path, borrowed.
    pub fn as_repo_path(&self) -> (res: &RepoPath)
        ensures
            res@ == self@,
    {
        &self.0
    }

    /// Shortens the path to `len` bytes; longer lengths leave it unchanged.
    pub fn truncate(&mut self, len: usize)
        ensures
            final(self)@ == if len < old(self)@.len() {
                old(self)@.subrange(0, len as int)
            } else {
                old(self)@
            },
    {
        (self.0).0.truncate(len);
    }

    /// Appends a path component, adding a separator first unless the path is
    /// empty or already ends with one.
    pub fn push(&mut self, component: &[u8])
        ensures
            final(self)@ == push_spec(old(self)@, component@),
    {
        let n = (self.0).0.len();
        if n > 0 && (self.0).0[n - 1] != 47u8 {
            (self.0).0.push(47u8);
        }
        let mut i: usize = 0;
        let ghost mid = (self.0).0@;
        while i < component.len()
            invariant
                i <= component.len(),
                (self.0).0@ =~= mid + component@.subrange(0, i as int),
            decreases component.len() - i,
        {
            (self.0).0.push(component[i]);
            i = i + 1;
        }
        assert(component@.subrange(0, component@.len() as int) =~= component@);
    }

    /// Appends a textual component (its UTF-8 bytes).
    pub fn push_str(&mut self, component: &str)
        ensures
            final(self)@ == push_spec(old(self)@, component.spec_bytes()),
    {
        self.push(component.as_bytes())
    }
}

/// The path after appending a component.
pub open spec fn push_spec(p: Seq<u8>, c: Seq<u8>) -> Seq<u8> {
    if p.len() > 0 && p.last() != 47u8 {
        p.push(47u8) + c
    } else {
        p + c
    }
}

// ---------------------------------------------------------------------------
// Escaping

pub open spec fn hex_digit(n: u8) -> char
    recommends
        n < 16,
{
    if n < 10 {
        (n + 48) as char
    } else {
        (n + 87) as char
    }
}

/// `std::ascii::escape_default` of one byte: `\t`, `\r`, `\n`, `\'`, `\"`
/// and `\\` for those characters, printable ASCII as is, and `\xNN` with
/// lower-case hex for everything else.
pub open spec fn escape_byte(b: u8) -> Seq<char> {
    if b == 9u8 {
        seq!['\\', 't']
    } else if b == 13u8 {
        seq!['\\', 'r']
    } else if b == 10u8 {
        seq!['\\', 'n']
    } else if b == 39u8 {
        seq!['\\', '\'']
    } else if b == 34u8 {
        seq!['\\', '"']
    } else if b == 92u8 {
        seq!['\\', '\\']
    } else if 32u8 <= b <= 126u8 {
        seq![b as char]
    } else {
        seq!['\\', 'x', hex_digit(b / 16), hex_digit(b % 16)]
    }
}

pub open spec fn escape_bytes(b: Seq<u8>) -> Seq<char>
    decreases b.len(),
{
    if b.len() == 0 {
        Seq::empty()
    } else {
        escape_bytes(b.drop_last()) + escape_byte(b.last())
    }
}

/// The printable form of a byte string: its text when it is UTF-8, otherwise
/// the escaped bytes between double quotes.
pub open spec fn escape_spec(b: Seq<u8>) -> Seq<char> {
    if vstd::utf8::valid_utf8(b) {
        vstd::utf8::decode_utf8(b)
    } else {
        seq!['"'] + escape_bytes(b) + seq!['"']
    }
}

fn hex_char(n: u8) -> (c: char)
    requires
        n < 16,
    ensures
        c == hex_digit(n),
{
    if n < 10 {
        (n + 48) as char
    } else {
        (n + 87) as char
    }
}

fn escape_one(out: &mut Vec<char>, b: u8)
    ensures
        final(out)@ == old(out)@ + escape_byte(b),
{
    if b == 9u8 {
        out.push('\\');
        out.push('t');
    } else if b == 13u8 {
        out.push('\\');
        out.push('r');
    } else if b == 10u8 {
        out.push('\\');
        out.push('n');
    } else if b == 39u8 {
        out.push('\\');
        out.push('\'');
    } else if b == 34u8 {
        out.push('\\');
        out.push('"');
    } else if b == 92u8 {
        out.push('\\');
        out.push('\\');
    } else if 32u8 <= b && b <= 126u8 {
        out.push(b as char);
    } else {
        out.push('\\');
        out.push('x');
        out.push(hex_char(b / 16));
        out.push(hex_char(b % 16));
    }
    assert(out@ =~= old(out)@ + escape_byte(b));
}

/// Converts an arbitrary byte string to something printable.
///
/// If the bytes are UTF-8 their text is returned. Otherwise bytes that are
/// not printable ASCII are backslash-escaped and the whole string is wrapped
/// in double quotes.
pub fn escape_pathlike(b: &[u8]) -> (res: String)
    ensures
        res@ == escape_spec(b@),
{
    match core::str::from_utf8(b) {
        Ok(s) => owned(s),
        Err(_) => {
            let mut out: Vec<char> = Vec::new();
            out.push('"');
            let mut i: usize = 0;
            while i < b.len()
                invariant
                    i <= b@.len(),
                    out@ == seq!['"'] + escape_bytes(b@.subrange(0, i as int)),
                decreases b.len() - i,
            {
                escape_one(&mut out, b[i]);
                proof {
                    assert(b@.subrange(0, i + 1).drop_last() =~= b@.subrange(0, i as int));
                    assert(seq!['"'] + escape_bytes(b@.subrange(0, i + 1)) =~= seq!['"']
                        + escape_bytes(b@.subrange(0, i as int)) + escape_byte(b@[i as int]));
                }
                i = i + 1;
            }
            out.push('"');
            assert(b@.subrange(0, b@.len() as int) =~= b@);
            crate::text::chars_to_string(&out)
        },
    }
}

// ---------------------------------------------------------------------------
// Path matchers

/// One step of a path matcher.
#[derive(Clone, Debug)]
pub enum PathMatcherTerm {
    /// Include paths prefixed by the value.
    Include(RepoPathBuf),
    /// Exclude paths prefixed by the value.
    Exclude(RepoPathBuf),
}

pub enum TermModel {
    Include(Seq<u8>),
    Exclude(Seq<u8>),
}

pub open spec fn term_view(t: PathMatcherTerm) -> TermModel {
    match t {
        PathMatcherTerm::Include(p) => TermModel::Include(p@),
        PathMatcherTerm::Exclude(p) => TermModel::Exclude(p@),
    }
}

/// A filter that matches paths inside the repository.
///
/// A monorepo may hold a toplevel project at the repository root plus
/// projects in subdirectories; the toplevel project should match any path
/// except those of the subprojects. A matcher is a list of include and
/// exclude prefixes; the first one that prefixes a path decides.
#[derive(Debug)]
pub struct PathMatcher {
    terms: Vec<PathMatcherTerm>,
}

/// The first term prefixing `p` decides; no such term means no match.
pub open spec fn terms_match(terms: Seq<TermModel>, p: Seq<u8>) -> bool
    decreases terms.len(),
{
    if terms.len() == 0 {
        false
    } else {
        match terms[0] {
            TermModel::Include(q) => if is_prefix(q, p) {
                true
            } else {
                terms_match(terms.drop_first(), p)
            },
            TermModel::Exclude(q) => if is_prefix(q, p) {
                false
            } else {
                terms_match(terms.drop_first(), p)
            },
        }
    }
}

/// The exclusions that `make_disjoint` adds: one per pair of an include
/// prefix `q` of `other` and an include prefix of `mine` that `q` extends.
pub open spec fn disjoint_exclusions(mine: Seq<TermModel>, other: Seq<TermModel>) -> Seq<TermModel>
    decreases other.len(),
{
    if other.len() == 0 {
        Seq::empty()
    } else {
        disjoint_exclusions(mine, other.drop_last()) + match other.last() {
            TermModel::Include(q) => exclusions_for(mine, q),
            TermModel::Exclude(_) => Seq::empty(),
        }
    }
}

pub open spec fn exclusions_for(mine: Seq<TermModel>, q: Seq<u8>) -> Seq<TermModel>
    decreases mine.len(),
{
    if mine.len() == 0 {
        Seq::empty()
    } else {
        exclusions_for(mine.drop_last(), q) + match mine.last() {
            TermModel::Include(p) => if is_prefix(p, q) {
                seq![TermModel::Exclude(q)]
            } else {
                Seq::empty()
            },
            TermModel::Exclude(_) => Seq::empty(),
        }
    }
}

impl PathMatcher {
    pub closed spec fn terms_view(&self) -> Seq<TermModel> {
        self.terms@.map_values(|t: PathMatcherTerm| term_view(t))
    }

    /// Whether the matcher matches a path.
    pub open spec fn matches(&self, p: Seq<u8>) -> bool {
        terms_match(self.terms_view(), p)
    }

    /// A matcher that matches nothing.
    pub fn empty() -> (res: PathMatcher)
        ensures
            res.terms_view() == Seq::<TermModel>::empty(),
    {
        let res = PathMatcher { terms: Vec::new() };
        assert(res.terms_view() =~= Seq::<TermModel>::empty());
        res
    }

    /// A matcher that includes exactly the paths under a prefix.
    pub fn new_include(p: RepoPathBuf) -> (res: PathMatcher)
        ensures
            res.terms_view() == seq![TermModel::Include(p@)],
    {
        let mut terms: Vec<PathMatcherTerm> = Vec::new();
        terms.push(PathMatcherTerm::Include(p));
        let res = PathMatcher { terms };
        assert(res.terms_view() =~= seq![TermModel::Include(p@)]);
        res
    }

    /// Modifies this matcher to exclude the paths that `other` includes
    /// under prefixes more specific than one of this matcher's includes.
    pub fn make_disjoint(&mut self, other: &PathMatcher)
        ensures
            final(self).terms_view() == disjoint_exclusions(old(self).terms_view(), other.terms_view())
                + old(self).terms_view(),
    {
        let mut new_terms: Vec<PathMatcherTerm> = Vec::new();
        let ghost mine = self.terms_view();
        let ghost theirs = other.terms_view();
        let mut j: usize = 0;
        while j < other.terms.len()
            invariant
                j <= other.terms@.len(),
                mine == self.terms_view(),
                theirs == other.terms_view(),
                new_terms@.map_values(|t: PathMatcherTerm| term_view(t)) =~= disjoint_exclusions(
                    mine,
                    theirs.subrange(0, j as int),
                ),
            decreases other.terms@.len() - j,
        {
            proof {
                assert(theirs.subrange(0, j + 1).drop_last() =~= theirs.subrange(0, j as int));
            }
            match &other.terms[j] {
                PathMatcherTerm::Include(other_pfx) => {
                    let mut k: usize = 0;
                    let ghost base = new_terms@.map_values(|t: PathMatcherTerm| term_view(t));
                    while k < self.terms.len()
                        invariant
                            k <= self.terms@.len(),
                            mine == self.terms_view(),
                            new_terms@.map_values(|t: PathMatcherTerm| term_view(t)) =~= base
                                + exclusions_for(mine.subrange(0, k as int), other_pfx@),
                        decreases self.terms@.len() - k,
                    {
                        proof {
                            assert(mine.subrange(0, k + 1).drop_last() =~= mine.subrange(
                                0,
                                k as int,
                            ));
                        }
                        let ghost before = new_terms@;
                        proof {
                            assert(mine[k as int] == term_view(self.terms@[k as int]));
                            assert(mine.subrange(0, k + 1).last() == mine[k as int]);
                        }
                        match &self.terms[k] {
                            PathMatcherTerm::Include(pfx) => {
                                if other_pfx.as_repo_path().starts_with(pfx.as_repo_path().as_bytes()) {
                                    let t = PathMatcherTerm::Exclude(other_pfx.copy());
                                    new_terms.push(t);
                                    assert(new_terms@.map_values(|t: PathMatcherTerm| term_view(t))
                                        =~= before.map_values(|t: PathMatcherTerm| term_view(t)).push(
                                        TermModel::Exclude(other_pfx@),
                                    ));
                                }
                            },
                            PathMatcherTerm::Exclude(_) => {},
                        }
                        k = k + 1;
                    }
                    assert(mine.subrange(0, self.terms@.len() as int) =~= mine);
                },
                PathMatcherTerm::Exclude(_) => {},
            }
            j = j + 1;
        }
        assert(theirs.subrange(0, other.terms@.len() as int) =~= theirs);
        let mut old_terms: Vec<PathMatcherTerm> = Vec::new();
        std::mem::swap(&mut old_terms, &mut self.terms);
        new_terms.append(&mut old_terms);
        self.terms = new_terms;
        assert(self.terms_view() =~= disjoint_exclusions(mine, theirs) + mine);
    }

    /// Tests whether a repository path matches.
    pub fn repo_path_matches(&self, p: &RepoPath) -> (res: bool)
        ensures
            res == self.matches(p@),
    {
        let ghost tv = self.terms_view();
        let mut i: usize = 0;
        assert(tv.skip(0) =~= tv);
        while i < self.terms.len()
            invariant
                i <= self.terms@.len(),
                tv == self.terms_view(),
                terms_match(tv, p@) == terms_match(tv.skip(i as int), p@),
            decreases self.terms@.len() - i,
        {
            proof {
                assert(tv.skip(i as int)[0] == term_view(self.terms@[i as int]));
                assert(tv.skip(i as int).drop_first() =~= tv.skip(i + 1));
            }
            match &self.terms[i] {
                PathMatcherTerm::Include(pfx) => {
                    if p.starts_with(pfx.as_repo_path().as_bytes()) {
                        return true;
                    }
                },
                PathMatcherTerm::Exclude(pfx) => {
                    if p.starts_with(pfx.as_repo_path().as_bytes()) {
                        return false;
                    }
                },
            }
            i = i + 1;
        }
        false
    }
}

// ---------------------------------------------------------------------------
// Commits

/// Identifies a commit in the repository by its 20-byte object ID.
#[derive(Clone, Copy, Debug, PartialEq, Eq)]
pub struct CommitId(pub [u8; 20]);

pub open spec fn hex_value(c: char) -> Option<u8> {
    if '0' <= c <= '9' {
        Some((c as int - '0' as int) as u8)
    } else if 'a' <= c <= 'f' {
        Some((c as int - 'a' as int + 10) as u8)
    } else if 'A' <= c <= 'F' {
        Some((c as int - 'A' as int + 10) as u8)
    } else {
        None
    }
}

/// The nibble at position `p` of a hex text, zero past its end.
pub open spec fn nibble(t: Seq<char>, p: int) -> int {
    if 0 <= p < t.len() && hex_value(t[p]) is Some {
        hex_value(t[p]).unwrap() as int
    } else {
        0
    }
}

/// How an object ID is read from text (`git_oid_fromstrn`, as `git2::Oid`'s
/// `FromStr` calls it): one to forty hexadecimal digits, read as the leading
/// nibbles of the ID, the rest being zero.
pub open spec fn spec_parse_oid(t: Seq<char>) -> Option<Seq<u8>> {
    if 1 <= t.len() <= 40 && forall|i: int| 0 <= i < t.len() ==> #[trigger] hex_value(t[i]) is Some {
        Some(Seq::new(20, |k: int| (nibble(t, 2 * k) * 16 + nibble(t, 2 * k + 1)) as u8))
    } else {
        None
    }
}

/// The 40-character lower-case hexadecimal form of an object ID.
pub open spec fn oid_hex(id: Seq<u8>) -> Seq<char> {
    Seq::new(40, |p: int| hex_digit(if p % 2 == 0 {
        id[p / 2] / 16
    } else {
        id[p / 2] % 16
    }))
}

fn hex_value_exec(c: char) -> (r: Option<u8>)
    ensures
        r == hex_value(c),
{
    if '0' <= c && c <= '9' {
        Some((c as u32 - 48) as u8)
    } else if 'a' <= c && c <= 'f' {
        Some((c as u32 - 97 + 10) as u8)
    } else if 'A' <= c && c <= 'F' {
        Some((c as u32 - 65 + 10) as u8)
    } else {
        None
    }
}

impl CommitId {
    /// Reads an object ID from hexadecimal text.
    pub fn parse(text: &Vec<char>) -> (res: Option<CommitId>)
        ensures
            match res {
                Some(c) => spec_parse_oid(text@) == Some(c.0@),
                None => spec_parse_oid(text@) is None,
            },
    {
        if text.len() < 1 || text.len() > 40 {
            return None;
        }
        let mut i: usize = 0;
        while i < text.len()
            invariant
                i <= text.len(),
                forall|k: int| 0 <= k < i ==> #[trigger] hex_value(text@[k]) is Some,
            decreases text.len() - i,
        {
            if hex_value_exec(text[i]).is_none() {
                return None;
            }
            i = i + 1;
        }
        let mut id: [u8; 20] = [0u8; 20];
        let mut k: usize = 0;
        while k < 20
            invariant
                k <= 20,
                1 <= text@.len() <= 40,
                forall|m: int| 0 <= m < text@.len() ==> #[trigger] hex_value(text@[m]) is Some,
                forall|m: int| 0 <= m < k ==> #[trigger] id@[m] == (nibble(text@, 2 * m) * 16 + nibble(text@, 2 * m + 1)) as u8,
            decreases 20 - k,
        {
            let hi: u8 = if 2 * k < text.len() {
                match hex_value_exec(text[2 * k]) {
                    Some(v) => v,
                    None => 0,
                }
            } else {
                0
            };
            let lo: u8 = if 2 * k + 1 < text.len() {
                match hex_value_exec(text[2 * k + 1]) {
                    Some(v) => v,
                    None => 0,
                }
            } else {
                0
            };
            assert(hi as int == nibble(text@, 2 * k as int));
            assert(lo as int == nibble(text@, 2 * k as int + 1));
            id[k] = hi * 16 + lo;
            k = k + 1;
        }
        let res = CommitId(id);
        assert(res.0@ =~= Seq::new(20, |m: int| (nibble(text@, 2 * m) * 16 + nibble(text@, 2 * m + 1)) as u8));
        Some(res)
    }

    /// The ID as 40 lower-case hexadecimal characters.
    pub fn to_hex(&self) -> (res: String)
        ensures
            res@ == oid_hex(self.0@),
    {
        let mut out: Vec<char> = Vec::new();
        let mut k: usize = 0;
        while k < 20
            invariant
                k <= 20,
                out@.len() == 2 * k,
                forall|p: int| 0 <= p < 2 * k ==> #[trigger] out@[p] == oid_hex(self.0@)[p],
            decreases 20 - k,
        {
            let b = self.0[k];
            out.push(hex_char(b / 16));
            out.push(hex_char(b % 16));
            k = k + 1;
        }
        assert(out@ =~= oid_hex(self.0@));
        crate::text::chars_to_string(&out)
    }
}

/// A reference to a commit: a specific ID, or the commit that introduces the
/// reference into the repository. `salt` distinguishes such self-references
/// and helps trace the relevant commit through "blame".
#[derive(Debug)]
pub enum CommitRef {
    Id(CommitId),
    ThisCommit { salt: String },
}

/// How a textual commit reference is read: an object ID, or `thiscommit:`
/// followed by a salt.
pub open spec fn spec_commit_ref(t: Seq<char>) -> Option<Result<Seq<u8>, Seq<char>>> {
    match spec_parse_oid(t) {
        Some(id) => Some(Ok(id)),
        None => if crate::text::occurs_at(t, seq!['t', 'h', 'i', 's', 'c', 'o', 'm', 'm', 'i', 't', ':'], 0) {
            Some(Err(t.skip(11)))
        } else {
            None
        },
    }
}

/// Parses a textual reference to a commit.
pub fn parse_commit_ref(text: &str) -> (res: Result<CommitRef, Error>)
    ensures
        match spec_commit_ref(text@) {
            Some(Ok(id)) => res matches Ok(CommitRef::Id(c)) && c.0@ == id,
            Some(Err(salt)) => res matches Ok(CommitRef::ThisCommit { salt: s }) && s@ == salt,
            None => res matches Err(Error::InvalidCommitReference(t)) && t@ == text@,
        },
{
    let t = str_to_chars(text);
    if let Some(id) = CommitId::parse(&t) {
        return Ok(CommitRef::Id(id));
    }
    let prefix: Vec<char> = vec!['t', 'h', 'i', 's', 'c', 'o', 'm', 'm', 'i', 't', ':'];
    if crate::text::starts_with(&t, &prefix) {
        let salt = crate::text::slice_chars(&t, 11, t.len());
        assert(salt@ =~= t@.skip(11));
        Ok(CommitRef::ThisCommit { salt: crate::text::chars_to_string(&salt) })
    } else {
        Err(Error::InvalidCommitReference(owned(text)))
    }
}

/// An error returned when the repository has no working directory.
#[derive(Debug)]
pub struct BareRepositoryError;

// ---------------------------------------------------------------------------
// Records of releases and release requests

/// A record of changes made when rewriting files in the repository.
#[derive(Debug, Default)]
pub struct ChangeList {
    paths: Vec<RepoPathBuf>,
}

impl ChangeList {
    pub closed spec fn paths_view(&self) -> Seq<Seq<u8>> {
        self.paths@.map_values(|p: RepoPathBuf| p@)
    }

    /// An empty change list.
    pub fn new() -> (res: ChangeList)
        ensures
            res.paths_view() == Seq::<Seq<u8>>::empty(),
    {
        let res = ChangeList { paths: Vec::new() };
        assert(res.paths_view() =~= Seq::<Seq<u8>>::empty());
        res
    }

    /// Marks the file at this path as having been updated.
    pub fn add_path(&mut self, p: &RepoPath)
        ensures
            final(self).paths_view() == old(self).paths_view().push(p@),
    {
        self.paths.push(p.to_owned());
        assert(self.paths_view() =~= old(self).paths_view().push(p@));
    }

    /// The recorded paths, in the order they were added.
    pub fn paths(&self) -> (res: &[RepoPathBuf])
        ensures
            res@.map_values(|p: RepoPathBuf| p@) == self.paths_view(),
    {
        self.paths.as_slice()
    }
}

/// Whether two byte strings are equal.
pub fn bytes_equal(a: &[u8], b: &[u8]) -> (r: bool)
    ensures
        r == (a@ == b@),
{
    if a.len() != b.len() {
        return false;
    }
    let mut i: usize = 0;
    while i < a.len()
        invariant
            i <= a.len(),
            a@.len() == b@.len(),
            forall|k: int| 0 <= k < i ==> a@[k] == b@[k],
        decreases a.len() - i,
    {
        if a[i] != b[i] {
            return false;
        }
        i = i + 1;
    }
    assert(a@ =~= b@);
    true
}

/// A set of repository paths, kept in the order in which they were first
/// added. No path occurs twice.
#[derive(Debug, Default)]
pub struct DirSet {
    items: Vec<RepoPathBuf>,
}

impl DirSet {
    /// The paths, in order of first insertion.
    pub closed spec fn seq_view(&self) -> Seq<Seq<u8>> {
        self.items@.map_values(|p: RepoPathBuf| p@)
    }

    /// The set of paths held.
    pub open spec fn set_view(&self) -> Set<Seq<u8>> {
        self.seq_view().to_set()
    }

    pub open spec fn wf(&self) -> bool {
        self.seq_view().no_duplicates()
    }

    /// An empty set.
    pub fn new() -> (res: DirSet)
        ensures
            res.wf(),
            res.seq_view() == Seq::<Seq<u8>>::empty(),
    {
        let res = DirSet { items: Vec::new() };
        assert(res.seq_view() =~= Seq::<Seq<u8>>::empty());
        res
    }

    /// Whether the path is held.
    pub fn contains(&self, p: &RepoPath) -> (res: bool)
        ensures
            res == self.seq_view().contains(p@),
    {
        let mut i: usize = 0;
        while i < self.items.len()
            invariant
                i <= self.items@.len(),
                forall|k: int| 0 <= k < i ==> self.seq_view()[k] != p@,
            decreases self.items.len() - i,
        {
            if bytes_equal(((self.items[i]).0).0.as_slice(), (p.0).as_slice()) {
                assert(self.seq_view()[i as int] == p@);
                return true;
            }
            i = i + 1;
        }
        false
    }

    /// Adds a path, unless it is already held.
    pub fn insert(&mut self, p: &RepoPath)
        requires
            old(self).wf(),
        ensures
            final(self).wf(),
            final(self).seq_view() == if old(self).seq_view().contains(p@) {
                old(self).seq_view()
            } else {
                old(self).seq_view().push(p@)
            },
    {
        if !self.contains(p) {
            self.items.push(p.to_owned());
            assert(self.seq_view() =~= old(self).seq_view().push(p@));
        }
    }

    /// The number of paths held.
    pub fn len(&self) -> (res: usize)
        ensures
            res == self.seq_view().len(),
    {
        self.items.len()
    }

    /// The paths, in order of first insertion.
    pub fn items(&self) -> (res: &[RepoPathBuf])
        ensures
            res@.map_values(|p: RepoPathBuf| p@) == self.seq_view(),
    {
        self.items.as_slice()
    }
}

/// State of one project in a release commit.
#[derive(Debug)]
pub struct ReleasedProjectInfo {
    /// The qualified names of the project.
    pub qnames: Vec<String>,
    /// The version of the project in this commit, as text.
    pub version: String,
    /// The number of consecutive release commits for which the project has
    /// had this version; zero means it was first released with this commit.
    pub age: usize,
}

/// A proposed release of one project in a release-request commit.
#[derive(Debug)]
pub struct RcProjectInfo {
    /// The qualified names of the project.
    pub qnames: Vec<String>,
    /// The kind of version bump requested by the user.
    pub bump_spec: String,
}

pub open spec fn names_view(v: Seq<String>) -> Seq<Seq<char>> {
    v.map_values(|s: String| s@)
}

/// Whether two lists of names are equal.
pub fn names_equal(a: &Vec<String>, b: &Vec<String>) -> (r: bool)
    ensures
        r == (names_view(a@) == names_view(b@)),
{
    if a.len() != b.len() {
        assert(names_view(a@).len() != names_view(b@).len());
        return false;
    }
    let mut i: usize = 0;
    while i < a.len()
        invariant
            i <= a.len(),
            a.len() == b.len(),
            forall|k: int| 0 <= k < i ==> a@[k]@ == b@[k]@,
        decreases a.len() - i,
    {
        if a[i] != b[i] {
            assert(names_view(a@)[i as int] != names_view(b@)[i as int]);
            return false;
        }
        i = i + 1;
    }
    assert(names_view(a@) =~= names_view(b@));
    true
}

/// Whether the project with these names was released in the commit that
/// these entries describe: its first entry has age zero.
pub open spec fn released_now(entries: Seq<Seq<Seq<char>>>, infos: Seq<ReleasedProjectInfo>, q: Seq<Seq<char>>) -> bool {
    exists|i: int| is_first_with_names(entries, q, i) && infos[i].age == 0
}

/// Information about the projects as of a release commit.
#[derive(Debug, Default)]
pub struct ReleaseCommitInfo {
    /// The commit described, if there is one.
    pub commit: Option<CommitId>,
    /// Every tracked project as of this commit.
    pub projects: Vec<ReleasedProjectInfo>,
}

/// The index of the first entry with the given names.
pub open spec fn first_with_names(entries: Seq<Seq<Seq<char>>>, q: Seq<Seq<char>>) -> Option<int> {
    if exists|i: int| 0 <= i < entries.len() && entries[i] == q {
        Some(choose|i: int| 0 <= i < entries.len() && entries[i] == q && forall|j: int| 0 <= j < i ==> entries[j] != q)
    } else {
        None
    }
}

pub open spec fn is_first_with_names(entries: Seq<Seq<Seq<char>>>, q: Seq<Seq<char>>, i: int) -> bool {
    0 <= i < entries.len() && entries[i] == q && forall|j: int| 0 <= j < i ==> entries[j] != q
}

pub proof fn lemma_first_with_names(entries: Seq<Seq<Seq<char>>>, q: Seq<Seq<char>>, i: int)
    requires
        is_first_with_names(entries, q, i),
    ensures
        first_with_names(entries, q) == Some(i),
{
    let j = choose|j: int| 0 <= j < entries.len() && entries[j] == q && forall|k: int| 0 <= k < j ==> entries[k] != q;
    assert(0 <= j < entries.len() && entries[j] == q && forall|k: int| 0 <= k < j ==> entries[k] != q);
    if j < i {
        assert(entries[j] != q);
    }
    if i < j {
        assert(entries[i] != q);
    }
}

pub proof fn lemma_first_with_names_none(entries: Seq<Seq<Seq<char>>>, q: Seq<Seq<char>>)
    requires
        forall|i: int| 0 <= i < entries.len() ==> #[trigger] entries[i] != q,
    ensures
        first_with_names(entries, q) is None,
{
}

impl ReleaseCommitInfo {
    pub open spec fn entry_names(&self) -> Seq<Seq<Seq<char>>> {
        self.projects@.map_values(|r: ReleasedProjectInfo| names_view(r.qnames@))
    }

    /// Finds the release information recorded for the project with the given
    /// qualified names: the first entry with exactly those names.
    pub fn lookup_names(&self, qnames: &Vec<String>) -> (res: Option<&ReleasedProjectInfo>)
        ensures
            match res {
                Some(r) => exists|i: int| is_first_with_names(self.entry_names(), names_view(qnames@), i) && *r == self.projects@[i],
                None => forall|i: int| 0 <= i < self.projects@.len() ==> #[trigger] self.entry_names()[i] != names_view(qnames@),
            },
    {
        let mut i: usize = 0;
        while i < self.projects.len()
            invariant
                i <= self.projects@.len(),
                forall|j: int| 0 <= j < i ==> #[trigger] self.entry_names()[j] != names_view(qnames@),
            decreases self.projects@.len() - i,
        {
            if names_equal(&self.projects[i].qnames, qnames) {
                assert(is_first_with_names(self.entry_names(), names_view(qnames@), i as int));
                return Some(&self.projects[i]);
            }
            i = i + 1;
        }
        None
    }

    /// Finds the release information recorded for a project: the first
    /// entry with exactly its qualified names.
    pub fn lookup_project(&self, proj: &crate::project::Project) -> (res: Option<&ReleasedProjectInfo>)
        ensures
            match res {
                Some(r) => exists|i: int| is_first_with_names(self.entry_names(), proj.qnames_view(), i) && *r == self.projects@[i],
                None => forall|i: int| 0 <= i < self.projects@.len() ==> #[trigger] self.entry_names()[i] != proj.qnames_view(),
            },
    {
        self.lookup_names(proj.qualified_names())
    }

    /// Finds the release of a project if it happened in this very commit.
    pub fn lookup_if_released(&self, proj: &crate::project::Project) -> (res: Option<&ReleasedProjectInfo>)
        ensures
            res is Some == released_now(self.entry_names(), self.projects@, proj.qnames_view()),
            match res {
                Some(r) => r.age == 0 && exists|i: int| is_first_with_names(self.entry_names(), proj.qnames_view(), i) && *r == self.projects@[i],
                None => true,
            },
    {
        self.lookup_names_if_released(proj.qualified_names())
    }

    /// Like `lookup_names`, but only finds a release that happened in this
    /// very commit (age zero).
    pub fn lookup_names_if_released(&self, qnames: &Vec<String>) -> (res: Option<&ReleasedProjectInfo>)
        ensures
            match res {
                Some(r) => r.age == 0 && exists|i: int| is_first_with_names(self.entry_names(), names_view(qnames@), i) && *r == self.projects@[i],
                None => forall|i: int| is_first_with_names(self.entry_names(), names_view(qnames@), i) ==> self.projects@[i].age != 0,
            },
    {
        match self.lookup_names(qnames) {
            Some(r) => {
                if r.age == 0 {
                    Some(r)
                } else {
                    None
                }
            },
            None => None,
        }
    }
}

/// Information about the projects whose release was requested in a
/// release-request commit.
#[derive(Debug, Default)]
pub struct RcCommitInfo {
    /// The commit described, if there is one.
    pub commit: Option<CommitId>,
    /// The projects whose release was requested.
    pub projects: Vec<RcProjectInfo>,
}

impl RcCommitInfo {
    pub open spec fn entry_names(&self) -> Seq<Seq<Seq<char>>> {
        self.projects@.map_values(|r: RcProjectInfo| names_view(r.qnames@))
    }

    /// Finds the release request for the project with the given qualified
    /// names: the first entry with exactly those names.
    pub fn lookup_names(&self, qnames: &Vec<String>) -> (res: Option<&RcProjectInfo>)
        ensures
            match res {
                Some(r) => exists|i: int| is_first_with_names(self.entry_names(), names_view(qnames@), i) && *r == self.projects@[i],
                None => forall|i: int| 0 <= i < self.projects@.len() ==> #[trigger] self.entry_names()[i] != names_view(qnames@),
            },
    {
        let mut i: usize = 0;
        while i < self.projects.len()
            invariant
                i <= self.projects@.len(),
                forall|j: int| 0 <= j < i ==> #[trigger] self.entry_names()[j] != names_view(qnames@),
            decreases self.projects@.len() - i,
        {
            if names_equal(&self.projects[i].qnames, qnames) {
                assert(is_first_with_names(self.entry_names(), names_view(qnames@), i as int));
                return Some(&self.projects[i]);
            }
            i = i + 1;
        }
        None
    }

    /// Finds the release request for a project: the first entry with
    /// exactly its qualified names.
    pub fn lookup_project(&self, proj: &crate::project::Project) -> (res: Option<&RcProjectInfo>)
        ensures
            match res {
                Some(r) => exists|i: int| is_first_with_names(self.entry_names(), proj.qnames_view(), i) && *r == self.projects@[i],
                None => forall|i: int| 0 <= i < self.projects@.len() ==> #[trigger] self.entry_names()[i] != proj.qnames_view(),
            },
    {
        self.lookup_names(proj.qualified_names())
    }
}

/// The release availability of a commit for one project.
#[derive(Debug)]
pub enum CommitAvailability {
    /// Already released; the earliest release containing it has this version.
    ExistingRelease(crate::version::Version),
    /// Not released, but an ancestor of HEAD, so a new release would contain it.
    NewRelease,
    /// None of the above.
    NotAvailable,
}

/// The commits affecting one project since its latest release.
#[derive(Debug)]
pub struct RepoHistory {
    commits: Vec<CommitId>,
    release_commit: Option<CommitId>,
}

impl RepoHistory {
    /// A history made of the given commits, reaching back to the given
    /// release commit (or to the start of the history when there is none).
    pub fn new(commits: Vec<CommitId>, release_commit: Option<CommitId>) -> (res: RepoHistory)
        ensures
            res.commits_view() == commits@,
            res.release_commit_view() == release_commit,
    {
        RepoHistory { commits, release_commit }
    }

    pub closed spec fn commits_view(&self) -> Seq<CommitId> {
        self.commits@
    }

    pub closed spec fn release_commit_view(&self) -> Option<CommitId> {
        self.release_commit
    }

    /// The release commit this history extends back to, if any.
    pub fn release_commit(&self) -> (res: Option<CommitId>)
        ensures
            res == self.release_commit_view(),
    {
        self.release_commit
    }

    /// The number of commits in this history.
    pub fn n_commits(&self) -> (res: usize)
        ensures
            res == self.commits_view().len(),
    {
        self.commits.len()
    }

    /// The commit IDs in this history.
    pub fn commits(&self) -> (res: &[CommitId])
        ensures
            res@ == self.commits_view(),
    {
        self.commits.as_slice()
    }
}

// ---------------------------------------------------------------------------
// The information blocks of release and release-request commits

/// The lines of a commit message between a line starting with `marker` and
/// the next line that is exactly `+++`, each followed by a newline, and
/// whether the block was left unterminated.
pub open spec fn info_block(lines: Seq<Seq<char>>, marker: Seq<char>) -> (Seq<char>, bool)
    decreases lines.len(),
{
    if lines.len() == 0 {
        (Seq::empty(), false)
    } else if crate::text::occurs_at(lines[0], marker, 0) {
        block_body(lines.drop_first())
    } else {
        info_block(lines.drop_first(), marker)
    }
}

pub open spec fn block_body(lines: Seq<Seq<char>>) -> (Seq<char>, bool)
    decreases lines.len(),
{
    if lines.len() == 0 {
        (Seq::empty(), true)
    } else if lines[0] == seq!['+', '+', '+'] {
        (Seq::empty(), false)
    } else {
        let rest = block_body(lines.drop_first());
        (lines[0] + seq!['\n'] + rest.0, rest.1)
    }
}

/// A commit message that carries an information block: a summary line, a
/// blank line, the marker line, the block's text, and a closing `+++` line.
pub open spec fn spec_info_message(summary: Seq<char>, marker: Seq<char>, body: Seq<char>) -> Seq<char> {
    summary + "\n\n"@ + marker + "\n"@ + body + "\n+++\n"@
}

/// Writes a commit message that carries an information block.
pub fn info_commit_message(summary: &str, marker: &str, body: &str) -> (res: String)
    ensures
        res@ == spec_info_message(summary@, marker@, body@),
{
    let mut v = str_to_chars(summary);
    crate::text::append_chars(&mut v, &str_to_chars("\n\n"));
    crate::text::append_chars(&mut v, &str_to_chars(marker));
    v.push('\n');
    crate::text::append_chars(&mut v, &str_to_chars(body));
    crate::text::append_chars(&mut v, &str_to_chars("\n+++\n"));
    proof {
        reveal_strlit("\n");
        assert(v@ =~= spec_info_message(summary@, marker@, body@));
    }
    crate::text::chars_to_string(&v)
}

/// Extracts the information block introduced by `marker` from a commit
/// message. Returns the block text and whether it was unterminated; fails
/// when the block is empty or missing.
pub fn extract_info_block(message: &str, marker: &str) -> (res: Result<(String, bool), Error>)
    ensures
        match res {
            Ok((b, u)) => info_block(crate::text::lines_of(message@), marker@) == (b@, u) && b@.len() > 0,
            Err(e) => info_block(crate::text::lines_of(message@), marker@).0.len() == 0 && e is InvalidCommitMessageFormat,
        },
{
    let ls = crate::text::lines(message);
    let m = str_to_chars(marker);
    let ghost all = crate::text::lines_of(message@);
    let mut i: usize = 0;
    assert(all.skip(0) =~= all);
    // look for the marker
    while i < ls.len()
        invariant
            i <= ls@.len(),
            ls@.len() == all.len(),
            forall|k: int| 0 <= k < ls@.len() ==> #[trigger] ls@[k]@ == all[k],
            m@ == marker@,
            info_block(all, marker@) == info_block(all.skip(i as int), marker@),
        ensures
            i < ls@.len() ==> crate::text::occurs_at(all[i as int], marker@, 0),
        decreases ls@.len() - i,
    {
        assert(all.skip(i as int)[0] == all[i as int]);
        assert(all.skip(i as int).drop_first() =~= all.skip(i + 1));
        if crate::text::starts_with(&ls[i], &m) {
            break;
        }
        i = i + 1;
    }
    if i == ls.len() {
        assert(all.skip(i as int) =~= Seq::<Seq<char>>::empty());
        return Err(Error::InvalidCommitMessageFormat);
    }
    assert(all.skip(i as int)[0] == all[i as int]);
    assert(all.skip(i as int).drop_first() =~= all.skip(i + 1));
    i = i + 1;
    let mut body: Vec<char> = Vec::new();
    let mut unterminated = true;
    let ghost target = info_block(all, marker@);
    assert(body@ + block_body(all.skip(i as int)).0 =~= block_body(all.skip(i as int)).0);
    while i < ls.len()
        invariant_except_break
            target == ((body@ + block_body(all.skip(i as int)).0), block_body(all.skip(i as int)).1),
            unterminated,
        invariant
            i <= ls@.len(),
            ls@.len() == all.len(),
            forall|k: int| 0 <= k < ls@.len() ==> #[trigger] ls@[k]@ == all[k],
        ensures
            target == (body@, unterminated),
        decreases ls@.len() - i,
    {
        assert(all.skip(i as int)[0] == all[i as int]);
        assert(all.skip(i as int).drop_first() =~= all.skip(i + 1));
        if crate::text::chars_equal(&ls[i], &['+', '+', '+']) {
            unterminated = false;
            assert(body@ + Seq::<char>::empty() =~= body@);
            break;
        }
        let ghost before = body@;
        crate::text::append_chars(&mut body, &ls[i]);
        body.push('\n');
        assert(before + (all[i as int] + seq!['\n'] + block_body(all.skip(i + 1)).0) =~= body@ + block_body(all.skip(i + 1)).0);
        i = i + 1;
    }
    if i == ls.len() && unterminated {
        assert(all.skip(i as int) =~= Seq::<Seq<char>>::empty());
        assert(body@ + Seq::<char>::empty() =~= body@);
    }
    if body.len() == 0 {
        return Err(Error::InvalidCommitMessageFormat);
    }
    Ok((crate::text::chars_to_string(&body), unterminated))
}

// ---------------------------------------------------------------------------
// Laws of path matchers

pub open spec fn all_excludes(e: Seq<TermModel>) -> bool {
    forall|i: int| 0 <= i < e.len() ==> #[trigger] e[i] is Exclude
}

pub open spec fn some_exclusion_prefixes(e: Seq<TermModel>, p: Seq<u8>) -> bool {
    exists|i: int| 0 <= i < e.len() && (#[trigger] e[i] matches TermModel::Exclude(q) && is_prefix(q, p))
}

proof fn lemma_exclusions_for_shape(mine: Seq<TermModel>, q: Seq<u8>)
    ensures
        all_excludes(exclusions_for(mine, q)),
        forall|i: int| 0 <= i < exclusions_for(mine, q).len() ==> #[trigger] exclusions_for(mine, q)[i] == TermModel::Exclude(q),
    decreases mine.len(),
{
    if mine.len() > 0 {
        lemma_exclusions_for_shape(mine.drop_last(), q);
    }
}

proof fn lemma_exclusions_for_has(mine: Seq<TermModel>, q: Seq<u8>, k: int)
    requires
        0 <= k < mine.len(),
        mine[k] matches TermModel::Include(pp) && is_prefix(pp, q),
    ensures
        exclusions_for(mine, q).len() > 0,
    decreases mine.len(),
{
    if k < mine.len() - 1 {
        lemma_exclusions_for_has(mine.drop_last(), q, k);
    }
}

proof fn lemma_disjoint_exclusions_shape(mine: Seq<TermModel>, other: Seq<TermModel>)
    ensures
        all_excludes(disjoint_exclusions(mine, other)),
    decreases other.len(),
{
    if other.len() > 0 {
        lemma_disjoint_exclusions_shape(mine, other.drop_last());
        match other.last() {
            TermModel::Include(q) => lemma_exclusions_for_shape(mine, q),
            TermModel::Exclude(_) => {},
        }
    }
}

proof fn lemma_disjoint_exclusions_has(mine: Seq<TermModel>, other: Seq<TermModel>, j: int, k: int)
    requires
        0 <= j < other.len(),
        0 <= k < mine.len(),
        other[j] matches TermModel::Include(q) && (mine[k] matches TermModel::Include(pp) && is_prefix(pp, q)),
    ensures
        exists|i: int| 0 <= i < disjoint_exclusions(mine, other).len() && #[trigger] disjoint_exclusions(mine, other)[i] == TermModel::Exclude(other[j]->Include_0),
    decreases other.len(),
{
    let q = other[j]->Include_0;
    if j < other.len() - 1 {
        lemma_disjoint_exclusions_has(mine, other.drop_last(), j, k);
        let i = choose|i: int| 0 <= i < disjoint_exclusions(mine, other.drop_last()).len() && #[trigger] disjoint_exclusions(mine, other.drop_last())[i] == TermModel::Exclude(other.drop_last()[j]->Include_0);
        assert(disjoint_exclusions(mine, other)[i] == TermModel::Exclude(q));
    } else {
        lemma_exclusions_for_has(mine, q, k);
        lemma_exclusions_for_shape(mine, q);
        let base = disjoint_exclusions(mine, other.drop_last());
        assert(disjoint_exclusions(mine, other)[base.len() as int] == exclusions_for(mine, q)[0]);
    }
}

pub proof fn lemma_terms_match_excludes_first(e: Seq<TermModel>, t: Seq<TermModel>, p: Seq<u8>)
    requires
        all_excludes(e),
    ensures
        terms_match(e + t, p) == (!some_exclusion_prefixes(e, p) && terms_match(t, p)),
    decreases e.len(),
{
    if e.len() == 0 {
        assert(e + t =~= t);
    } else {
        assert((e + t).drop_first() =~= e.drop_first() + t);
        assert((e + t)[0] == e[0]);
        assert(all_excludes(e.drop_first())) by {
            assert forall|i: int| 0 <= i < e.drop_first().len() implies #[trigger] e.drop_first()[i] is Exclude by {
                assert(e.drop_first()[i] == e[i + 1]);
            }
        }
        lemma_terms_match_excludes_first(e.drop_first(), t, p);
        if some_exclusion_prefixes(e.drop_first(), p) {
            let i = choose|i: int| 0 <= i < e.drop_first().len() && (#[trigger] e.drop_first()[i] matches TermModel::Exclude(q) && is_prefix(q, p));
            assert(e[i + 1] == e.drop_first()[i]);
        }
        if some_exclusion_prefixes(e, p) {
            let i = choose|i: int| 0 <= i < e.len() && (#[trigger] e[i] matches TermModel::Exclude(q) && is_prefix(q, p));
            if i > 0 {
                assert(e.drop_first()[i - 1] == e[i]);
            }
        }
    }
}

/// After `a.make_disjoint(b)`, `a` matches a path exactly when it matched it
/// before and none of the added exclusions prefixes it.
pub proof fn law_make_disjoint_matching(mine: Seq<TermModel>, other: Seq<TermModel>, p: Seq<u8>)
    ensures
        terms_match(disjoint_exclusions(mine, other) + mine, p) == (!some_exclusion_prefixes(
            disjoint_exclusions(mine, other),
            p,
        ) && terms_match(mine, p)),
{
    lemma_disjoint_exclusions_shape(mine, other);
    lemma_terms_match_excludes_first(disjoint_exclusions(mine, other), mine, p);
}

/// After `a.make_disjoint(b)`, `a` no longer matches any path under an
/// include prefix of `b` that extends an include prefix of `a`: a project
/// rooted at `x/` stops claiming the files of a project rooted at `x/y/`.
pub proof fn law_make_disjoint_excludes_subproject(
    mine: Seq<TermModel>,
    other: Seq<TermModel>,
    j: int,
    k: int,
    p: Seq<u8>,
)
    requires
        0 <= j < other.len(),
        0 <= k < mine.len(),
        other[j] matches TermModel::Include(q) && (mine[k] matches TermModel::Include(pp) && is_prefix(pp, q)) && is_prefix(q, p),
    ensures
        !terms_match(disjoint_exclusions(mine, other) + mine, p),
{
    lemma_disjoint_exclusions_has(mine, other, j, k);
    law_make_disjoint_matching(mine, other, p);
    let e = disjoint_exclusions(mine, other);
    let i = choose|i: int| 0 <= i < e.len() && #[trigger] e[i] == TermModel::Exclude(other[j]->Include_0);
    assert(e[i] matches TermModel::Exclude(q) && is_prefix(q, p));
}

} // verus!
