//! Character-level text helpers shared by the parsers and rewriters.
//!
//! Text is modelled as `Seq<char>`, the view of `str` and `String`.

use vstd::prelude::*;
use vstd::string::StrSliceExecFns;

verus! {

// ---------------------------------------------------------------------------
// Trusted specifications of std items that vstd leaves unspecified.

/// `String::push` appends one character: std documents it as "Appends the
/// given char to the end of this String".
pub assume_specification[ String::push ](s: &mut String, ch: char)
    ensures
        final(s)@ == old(s)@.push(ch),
;

/// `std::str::from_utf8` succeeds exactly on well-formed UTF-8 and then yields
/// the decoded characters, as its documentation states.
pub assume_specification[ core::str::from_utf8 ](v: &[u8]) -> (res: Result<&str, core::str::Utf8Error>)
    ensures
        res is Ok <==> vstd::utf8::valid_utf8(v@),
        res matches Ok(s) ==> s@ == vstd::utf8::decode_utf8(v@),
;

/// Declared so that the error of `from_utf8` can appear in signatures.
#[verifier::external_type_specification]
#[verifier::external_body]
pub struct ExUtf8Error(core::str::Utf8Error);

/// The Unicode lower-casing of a string, as computed by `str::to_lowercase`.
pub uninterp spec fn lowercase_chars(s: Seq<char>) -> Seq<char>;

/// Calls `str::to_lowercase`. The result is named `lowercase_chars` of the
/// input's characters; the Unicode case tables that define it are not
/// restated here. On ASCII text the contract also states what std documents
/// of that range: ASCII upper-case letters become lower-case, and every other
/// ASCII character is kept.
#[verifier::external_body]
pub(crate) fn to_lowercase(s: &str) -> (res: String)
    ensures
        res@ == lowercase_chars(s@),
        is_ascii_text(s@) ==> res@ == ascii_lowercase(s@),
{
    s.to_lowercase()
}

/// Whether a character is alphanumeric in the sense of `char::is_alphanumeric`.
pub uninterp spec fn char_alphanumeric(c: char) -> bool;

/// Calls `char::is_alphanumeric`; its answer is named `char_alphanumeric`.
#[verifier::external_body]
pub(crate) fn is_alphanumeric(c: char) -> (res: bool)
    ensures
        res == char_alphanumeric(c),
{
    c.is_alphanumeric()
}

// ---------------------------------------------------------------------------
// Digits and decimal numbers

pub open spec fn is_digit(c: char) -> bool {
    '0' <= c && c <= '9'
}

pub open spec fn digit_value(c: char) -> nat {
    (c as int - '0' as int) as nat
}

pub open spec fn digit_char(d: nat) -> char
    recommends
        d < 10,
{
    (d + '0' as int) as char
}

/// The decimal rendering of a natural number, without leading zeros.
pub open spec fn decimal(n: nat) -> Seq<char>
    decreases n,
{
    if n < 10 {
        seq![digit_char(n)]
    } else {
        decimal(n / 10).push(digit_char(n % 10))
    }
}

/// The value of a sequence of decimal digits.
pub open spec fn digits_value(ds: Seq<char>) -> nat
    decreases ds.len(),
{
    if ds.len() == 0 {
        0
    } else {
        digits_value(ds.drop_last()) * 10 + digit_value(ds.last())
    }
}

pub open spec fn all_digits(ds: Seq<char>) -> bool {
    forall|i: int| 0 <= i < ds.len() ==> is_digit(#[trigger] ds[i])
}

/// Rendering a number in decimal and reading it back gives the number.
pub proof fn lemma_decimal_digits(n: nat)
    ensures
        decimal(n).len() > 0,
        all_digits(decimal(n)),
        digits_value(decimal(n)) == n,
    decreases n,
{
    lemma_digit_char(n % 10);
    if n >= 10 {
        lemma_decimal_digits(n / 10);
        let d = decimal(n);
        assert(d.drop_last() =~= decimal(n / 10));
        assert(d.last() == digit_char(n % 10));
        assert(digits_value(d) == digits_value(decimal(n / 10)) * 10 + digit_value(d.last()));
        assert((n / 10) * 10 + n % 10 == n);
    } else {
        let d = decimal(n);
        assert(d.drop_last() =~= Seq::<char>::empty());
        assert(n % 10 == n);
        assert(d.last() == digit_char(n));
        assert(digits_value(d) == digits_value(d.drop_last()) * 10 + digit_value(d.last()));
    }
}

pub proof fn lemma_digit_char(d: nat)
    requires
        d < 10,
    ensures
        is_digit(digit_char(d)),
        digit_value(digit_char(d)) == d,
{
    assert((d + '0' as int) as char as int == d + '0' as int);
}

pub proof fn lemma_digits_value_push(ds: Seq<char>, c: char)
    ensures
        digits_value(ds.push(c)) == digits_value(ds) * 10 + digit_value(c),
{
    assert(ds.push(c).drop_last() =~= ds);
}

/// Renders an unsigned number in decimal.
pub fn usize_to_chars(n: usize) -> (res: Vec<char>)
    ensures
        res@ == decimal(n as nat),
{
    let mut rev: Vec<char> = Vec::new();
    let mut m: usize = n;
    // digits are produced least significant first
    while m >= 10
        invariant
            m <= n,
            decimal(n as nat) == decimal(m as nat) + rev@.reverse(),
        decreases m,
    {
        let c: char = char_of_digit(m % 10);
        proof {
            assert(decimal(m as nat) == decimal((m / 10) as nat).push(c));
            assert(rev@.push(c).reverse() =~= seq![c] + rev@.reverse());
            assert(decimal((m / 10) as nat).push(c) + rev@.reverse() =~= decimal(
                (m / 10) as nat,
            ) + rev@.push(c).reverse());
        }
        rev.push(c);
        m = m / 10;
    }
    let c: char = char_of_digit(m);
    proof {
        assert(decimal(m as nat) =~= seq![c]);
        assert(rev@.push(c).reverse() =~= seq![c] + rev@.reverse());
    }
    rev.push(c);
    let mut res: Vec<char> = Vec::new();
    let mut i: usize = rev.len();
    while i > 0
        invariant
            i <= rev.len(),
            res@ =~= rev@.subrange(i as int, rev@.len() as int).reverse(),
        decreases i,
    {
        i = i - 1;
        res.push(rev[i]);
        assert(rev@.subrange(i as int, rev@.len() as int).reverse() =~= rev@.subrange(
            (i + 1) as int,
            rev@.len() as int,
        ).reverse().push(rev@[i as int]));
    }
    assert(rev@.subrange(0, rev@.len() as int) =~= rev@);
    res
}

/// The character of a single decimal digit.
pub fn char_of_digit(d: usize) -> (c: char)
    requires
        d < 10,
    ensures
        c == digit_char(d as nat),
        is_digit(c),
{
    let b: u8 = 48u8 + (d as u8);
    b as char
}

/// Renders a signed number in decimal, with a leading `-` when negative.
pub open spec fn signed_decimal(n: int) -> Seq<char> {
    if n < 0 {
        seq!['-'] + decimal((-n) as nat)
    } else {
        decimal(n as nat)
    }
}

pub fn i32_to_chars(n: i32) -> (res: Vec<char>)
    ensures
        res@ == signed_decimal(n as int),
{
    if n < 0 {
        let m: u32 = if n == i32::MIN {
            2147483648u32
        } else {
            (-n) as u32
        };
        let digits = usize_to_chars(m as usize);
        let mut res: Vec<char> = Vec::new();
        res.push('-');
        let mut r = res;
        append_chars(&mut r, &digits);
        assert(r@ =~= seq!['-'] + decimal((-(n as int)) as nat));
        r
    } else {
        usize_to_chars(n as usize)
    }
}

// ---------------------------------------------------------------------------
// Moving between strings and character vectors

/// Appends characters to a vector.
pub fn append_chars(dst: &mut Vec<char>, src: &Vec<char>)
    ensures
        final(dst)@ == old(dst)@ + src@,
{
    let mut i: usize = 0;
    while i < src.len()
        invariant
            i <= src.len(),
            dst@ =~= old(dst)@ + src@.subrange(0, i as int),
        decreases src.len() - i,
    {
        dst.push(src[i]);
        i = i + 1;
        assert(src@.subrange(0, i as int) =~= src@.subrange(0, (i - 1) as int).push(
            src@[(i - 1) as int],
        ));
    }
    assert(src@.subrange(0, src@.len() as int) =~= src@);
}

/// The characters of a string slice.
pub fn str_to_chars(s: &str) -> (res: Vec<char>)
    ensures
        res@ == s@,
{
    let n: usize = s.unicode_len();
    let mut res: Vec<char> = Vec::new();
    let mut i: usize = 0;
    while i < n
        invariant
            n == s@.len(),
            i <= n,
            res@ =~= s@.subrange(0, i as int),
        decreases n - i,
    {
        res.push(s.get_char(i));
        i = i + 1;
    }
    assert(s@.subrange(0, n as int) =~= s@);
    res
}

/// Builds a string from characters.
pub fn chars_to_string(v: &Vec<char>) -> (res: String)
    ensures
        res@ == v@,
{
    let mut s = String::new();
    let mut i: usize = 0;
    while i < v.len()
        invariant
            i <= v.len(),
            s@ =~= v@.subrange(0, i as int),
        decreases v.len() - i,
    {
        s.push(v[i]);
        i = i + 1;
    }
    assert(v@.subrange(0, v@.len() as int) =~= v@);
    s
}

/// Copies a string slice into an owned string.
pub fn owned(s: &str) -> (res: String)
    ensures
        res@ == s@,
{
    s.to_owned()
}

// ---------------------------------------------------------------------------
// Searching

/// Whether `needle` occurs in `hay` starting at position `i`.
pub open spec fn occurs_at(hay: Seq<char>, needle: Seq<char>, i: int) -> bool {
    0 <= i && i + needle.len() <= hay.len() && hay.subrange(i, i + needle.len()) == needle
}

/// Position of the first occurrence of `c`, as `str::find` with a char.
pub open spec fn first_index_of(s: Seq<char>, c: char) -> Option<int> {
    if exists|i: int| 0 <= i < s.len() && s[i] == c {
        Some(choose|i: int| 0 <= i < s.len() && s[i] == c && forall|j: int| 0 <= j < i ==> s[j] != c)
    } else {
        None
    }
}

/// Characterizes `first_index_of` without `choose`.
pub open spec fn is_first_index(s: Seq<char>, c: char, i: int) -> bool {
    0 <= i < s.len() && s[i] == c && forall|j: int| 0 <= j < i ==> s[j] != c
}

pub open spec fn is_last_index(s: Seq<char>, c: char, i: int) -> bool {
    0 <= i < s.len() && s[i] == c && forall|j: int| i < j < s.len() ==> s[j] != c
}

pub open spec fn contains_char(s: Seq<char>, c: char) -> bool {
    exists|i: int| 0 <= i < s.len() && s[i] == c
}

/// Finds the first occurrence of a character.
pub fn find_char(s: &Vec<char>, c: char) -> (res: Option<usize>)
    ensures
        res matches Some(i) ==> is_first_index(s@, c, i as int),
        res is None ==> !contains_char(s@, c),
{
    let mut i: usize = 0;
    while i < s.len()
        invariant
            i <= s.len(),
            forall|j: int| 0 <= j < i ==> s@[j] != c,
        decreases s.len() - i,
    {
        if s[i] == c {
            return Some(i);
        }
        i = i + 1;
    }
    None
}

/// Finds the last occurrence of a character.
pub fn rfind_char(s: &Vec<char>, c: char) -> (res: Option<usize>)
    ensures
        res matches Some(i) ==> is_last_index(s@, c, i as int),
        res is None ==> !contains_char(s@, c),
{
    let mut i: usize = s.len();
    while i > 0
        invariant
            i <= s.len(),
            forall|j: int| i <= j < s.len() ==> s@[j] != c,
        decreases i,
    {
        if s[i - 1] == c {
            return Some(i - 1);
        }
        i = i - 1;
    }
    None
}

/// Whether `needle` occurs in `hay` at all.
pub open spec fn contains_seq(hay: Seq<char>, needle: Seq<char>) -> bool {
    exists|i: int| occurs_at(hay, needle, i)
}

/// First occurrence of a character sequence, as `str::find` with a pattern string.
pub open spec fn is_first_occurrence(hay: Seq<char>, needle: Seq<char>, i: int) -> bool {
    occurs_at(hay, needle, i) && forall|j: int| 0 <= j < i ==> !occurs_at(hay, needle, j)
}

/// Tests for an occurrence at a given position.
pub fn matches_at(hay: &Vec<char>, needle: &Vec<char>, i: usize) -> (res: bool)
    ensures
        res == occurs_at(hay@, needle@, i as int),
{
    if i > hay.len() || needle.len() > hay.len() - i {
        return false;
    }
    let mut k: usize = 0;
    while k < needle.len()
        invariant
            k <= needle.len(),
            i + needle.len() <= hay.len(),
            forall|m: int| 0 <= m < k ==> hay@[i + m] == needle@[m],
        decreases needle.len() - k,
    {
        if hay[i + k] != needle[k] {
            assert(hay@.subrange(i as int, i + needle.len())[k as int] != needle@[k as int]);
            return false;
        }
        k = k + 1;
    }
    assert(hay@.subrange(i as int, i + needle@.len()) =~= needle@);
    true
}

/// Finds the first occurrence of a character sequence.
pub fn find_seq(hay: &Vec<char>, needle: &Vec<char>) -> (res: Option<usize>)
    ensures
        res matches Some(i) ==> is_first_occurrence(hay@, needle@, i as int),
        res is None ==> !contains_seq(hay@, needle@),
{
    let mut i: usize = 0;
    while i < hay.len()
        invariant
            i <= hay.len(),
            forall|j: int| 0 <= j < i ==> !occurs_at(hay@, needle@, j),
        decreases hay.len() - i,
    {
        if matches_at(hay, needle, i) {
            return Some(i);
        }
        i = i + 1;
    }
    if matches_at(hay, needle, i) {
        return Some(i);
    }
    None
}

/// Whether `s` starts with `prefix`.
pub fn starts_with(s: &Vec<char>, prefix: &Vec<char>) -> (res: bool)
    ensures
        res == occurs_at(s@, prefix@, 0),
{
    matches_at(s, prefix, 0)
}

/// Whitespace in the sense of `char::is_whitespace`, restricted to the
/// characters this crate's formats use.
pub open spec fn is_ascii_space(c: char) -> bool {
    c == ' ' || c == '\t' || c == '\n' || c == '\r'
}

/// A copy of `s[from..to]`.
pub fn slice_chars(s: &Vec<char>, from: usize, to: usize) -> (res: Vec<char>)
    requires
        from <= to <= s.len(),
    ensures
        res@ == s@.subrange(from as int, to as int),
{
    let mut res: Vec<char> = Vec::new();
    let mut i: usize = from;
    while i < to
        invariant
            from <= i <= to,
            to <= s.len(),
            res@ =~= s@.subrange(from as int, i as int),
        decreases to - i,
    {
        res.push(s[i]);
        i = i + 1;
    }
    res
}

// ---------------------------------------------------------------------------
// Lines

/// Splits text at every occurrence of `c`, keeping empty pieces, as
/// `str::split` does with a character pattern.
pub open spec fn split_on(s: Seq<char>, c: char) -> Seq<Seq<char>>
    decreases s.len(),
{
    if s.len() == 0 {
        seq![Seq::empty()]
    } else {
        let rest = split_on(s.drop_last(), c);
        if s.last() == c {
            rest.push(Seq::empty())
        } else {
            rest.update(rest.len() - 1, rest.last().push(s.last()))
        }
    }
}

pub proof fn lemma_split_on_nonempty(s: Seq<char>, c: char)
    ensures
        split_on(s, c).len() > 0,
    decreases s.len(),
{
    if s.len() > 0 {
        lemma_split_on_nonempty(s.drop_last(), c);
    }
}

pub open spec fn strip_cr(l: Seq<char>) -> Seq<char> {
    if l.len() > 0 && l.last() == '\r' {
        l.drop_last()
    } else {
        l
    }
}

/// The lines of a text as `str::lines` yields them: split at `\n`, with a
/// trailing `\r` removed from each line and no final empty line after a
/// terminating newline.
pub open spec fn lines_of(s: Seq<char>) -> Seq<Seq<char>> {
    let p = split_on(s, '\n');
    let q = if p.last().len() == 0 {
        p.drop_last()
    } else {
        p
    };
    q.map_values(|l: Seq<char>| strip_cr(l))
}

/// Splits characters at every `c`.
pub fn split_chars_on(s: &Vec<char>, c: char) -> (res: Vec<Vec<char>>)
    ensures
        res@.len() == split_on(s@, c).len(),
        forall|i: int| 0 <= i < res@.len() ==> #[trigger] res@[i]@ == split_on(s@, c)[i],
{
    let mut res: Vec<Vec<char>> = Vec::new();
    let mut cur: Vec<char> = Vec::new();
    let mut i: usize = 0;
    proof {
        assert(s@.subrange(0, 0) =~= Seq::<char>::empty());
    }
    while i < s.len()
        invariant
            i <= s.len(),
            res@.len() + 1 == split_on(s@.subrange(0, i as int), c).len(),
            forall|k: int|
                0 <= k < res@.len() ==> #[trigger] res@[k]@ == split_on(
                    s@.subrange(0, i as int),
                    c,
                )[k],
            cur@ == split_on(s@.subrange(0, i as int), c).last(),
        decreases s.len() - i,
    {
        let ch = s[i];
        proof {
            assert(s@.subrange(0, i + 1).drop_last() =~= s@.subrange(0, i as int));
            lemma_split_on_nonempty(s@.subrange(0, i as int), c);
        }
        if ch == c {
            res.push(cur);
            cur = Vec::new();
        } else {
            cur.push(ch);
        }
        i = i + 1;
    }
    res.push(cur);
    assert(s@.subrange(0, s@.len() as int) =~= s@);
    res
}

/// The lines of a text, as `str::lines` yields them.
pub fn lines(s: &str) -> (res: Vec<Vec<char>>)
    ensures
        res@.len() == lines_of(s@).len(),
        forall|i: int| 0 <= i < res@.len() ==> #[trigger] res@[i]@ == lines_of(s@)[i],
{
    let chars = str_to_chars(s);
    let mut pieces = split_chars_on(&chars, '\n');
    proof {
        lemma_split_on_nonempty(s@, '\n');
    }
    let n = pieces.len();
    let keep = if pieces[n - 1].len() == 0 {
        n - 1
    } else {
        n
    };
    let ghost q = if split_on(s@, '\n').last().len() == 0 {
        split_on(s@, '\n').drop_last()
    } else {
        split_on(s@, '\n')
    };
    let mut res: Vec<Vec<char>> = Vec::new();
    let mut i: usize = 0;
    while i < keep
        invariant
            keep <= n,
            n == pieces@.len(),
            n == split_on(s@, '\n').len(),
            keep == q.len(),
            forall|k: int| 0 <= k < n ==> #[trigger] pieces@[k]@ == split_on(s@, '\n')[k],
            q == (if split_on(s@, '\n').last().len() == 0 {
                split_on(s@, '\n').drop_last()
            } else {
                split_on(s@, '\n')
            }),
            i <= keep,
            res@.len() == i,
            forall|k: int| 0 <= k < i ==> #[trigger] res@[k]@ == strip_cr(q[k]),
        decreases keep - i,
    {
        let mut line = pieces[i].clone();
        assert(line@ == pieces@[i as int]@);
        let m = line.len();
        if m > 0 && line[m - 1] == '\r' {
            line.pop();
        }
        assert(line@ == strip_cr(q[i as int]));
        res.push(line);
        i = i + 1;
    }
    res
}

/// Whether two character vectors are equal.
pub fn chars_equal(a: &Vec<char>, b: &[char]) -> (r: bool)
    ensures
        r == (a@ == b@),
{
    if a.len() != b.len() {
        return false;
    }
    let mut i: usize = 0;
    while i < a.len()
        invariant
            i <= a.len(),
            a.len() == b.len(),
            forall|k: int| 0 <= k < i ==> a@[k] == b@[k],
        decreases a.len() - i,
    {
        if a[i] != b[i] {
            return false;
        }
        i = i + 1;
    }
    assert(a@ =~= b@);
    true
}

// ---------------------------------------------------------------------------
// Unique positions

/// Position of the last occurrence of `c`, as `str::rfind` with a char.
pub open spec fn last_index_of(s: Seq<char>, c: char) -> Option<int> {
    if contains_char(s, c) {
        Some(choose|i: int| is_last_index(s, c, i))
    } else {
        None
    }
}

/// Position of the first occurrence of `needle`, as `str::find` with a string.
pub open spec fn first_occurrence_of(hay: Seq<char>, needle: Seq<char>) -> Option<int> {
    if contains_seq(hay, needle) {
        Some(choose|i: int| is_first_occurrence(hay, needle, i))
    } else {
        None
    }
}

/// An `Option<usize>` position as an `Option<int>`.
pub open spec fn opt_pos(o: Option<usize>) -> Option<int> {
    match o {
        Some(i) => Some(i as int),
        None => None,
    }
}

pub proof fn lemma_first_index_of(s: Seq<char>, c: char, i: int)
    requires
        is_first_index(s, c, i),
    ensures
        first_index_of(s, c) == Some(i),
{
    let j = choose|j: int| 0 <= j < s.len() && s[j] == c && forall|k: int| 0 <= k < j ==> s[k] != c;
    assert(0 <= j < s.len() && s[j] == c && forall|k: int| 0 <= k < j ==> s[k] != c);
    if j < i {
        assert(s[j] != c);
    }
    if i < j {
        assert(s[i] != c);
    }
}

pub proof fn lemma_last_index_of(s: Seq<char>, c: char, i: int)
    requires
        is_last_index(s, c, i),
    ensures
        last_index_of(s, c) == Some(i),
{
    let j = choose|j: int| is_last_index(s, c, j);
    assert(is_last_index(s, c, j));
    if j < i {
        assert(s[i] != c);
    }
    if i < j {
        assert(s[j] != c);
    }
}

pub proof fn lemma_first_occurrence_of(hay: Seq<char>, needle: Seq<char>, i: int)
    requires
        is_first_occurrence(hay, needle, i),
    ensures
        first_occurrence_of(hay, needle) == Some(i),
{
    let j = choose|j: int| is_first_occurrence(hay, needle, j);
    assert(is_first_occurrence(hay, needle, j));
    if j < i {
        assert(!occurs_at(hay, needle, j));
    }
    if i < j {
        assert(!occurs_at(hay, needle, i));
    }
}

proof fn lemma_first_exists(s: Seq<char>, c: char, k: int)
    requires
        0 <= k < s.len(),
        s[k] == c,
    ensures
        exists|i: int| is_first_index(s, c, i),
    decreases k,
{
    if exists|j: int| 0 <= j < k && s[j] == c {
        let j = choose|j: int| 0 <= j < k && s[j] == c;
        lemma_first_exists(s, c, j);
    } else {
        assert(is_first_index(s, c, k));
    }
}

proof fn lemma_last_exists(s: Seq<char>, c: char, k: int)
    requires
        0 <= k < s.len(),
        s[k] == c,
    ensures
        exists|i: int| is_last_index(s, c, i),
    decreases s.len() - k,
{
    if exists|j: int| k < j < s.len() && s[j] == c {
        let j = choose|j: int| k < j < s.len() && s[j] == c;
        lemma_last_exists(s, c, j);
    } else {
        assert(is_last_index(s, c, k));
    }
}

pub proof fn lemma_index_of_cases(s: Seq<char>, c: char)
    ensures
        first_index_of(s, c) matches Some(i) ==> is_first_index(s, c, i),
        first_index_of(s, c) is None ==> !contains_char(s, c),
        last_index_of(s, c) matches Some(i) ==> is_last_index(s, c, i),
        last_index_of(s, c) is None ==> !contains_char(s, c),
{
    if contains_char(s, c) {
        let k = choose|k: int| 0 <= k < s.len() && s[k] == c;
        lemma_first_exists(s, c, k);
        let m = choose|i: int| is_first_index(s, c, i);
        lemma_first_index_of(s, c, m);
        lemma_last_exists(s, c, k);
        let n = choose|i: int| is_last_index(s, c, i);
        lemma_last_index_of(s, c, n);
    }
}

/// Finds the first occurrence of a character: `str::find` with a char.
pub fn find_first(s: &Vec<char>, c: char) -> (res: Option<usize>)
    ensures
        opt_pos(res) == first_index_of(s@, c),
        res matches Some(i) ==> is_first_index(s@, c, i as int),
{
    let r = find_char(s, c);
    proof {
        match r {
            Some(i) => lemma_first_index_of(s@, c, i as int),
            None => {},
        }
    }
    r
}

/// Finds the last occurrence of a character: `str::rfind` with a char.
pub fn find_last(s: &Vec<char>, c: char) -> (res: Option<usize>)
    ensures
        opt_pos(res) == last_index_of(s@, c),
        res matches Some(i) ==> is_last_index(s@, c, i as int),
{
    let r = rfind_char(s, c);
    proof {
        match r {
            Some(i) => lemma_last_index_of(s@, c, i as int),
            None => {},
        }
    }
    r
}

/// Finds the first occurrence of a character sequence: `str::find` with a
/// string pattern.
pub fn find_first_seq(hay: &Vec<char>, needle: &Vec<char>) -> (res: Option<usize>)
    ensures
        opt_pos(res) == first_occurrence_of(hay@, needle@),
        res matches Some(i) ==> is_first_occurrence(hay@, needle@, i as int),
{
    let r = find_seq(hay, needle);
    proof {
        match r {
            Some(i) => lemma_first_occurrence_of(hay@, needle@, i as int),
            None => {},
        }
    }
    r
}

/// Whether `str::contains` would find `needle` in `hay`.
pub fn contains(hay: &Vec<char>, needle: &Vec<char>) -> (res: bool)
    ensures
        res == contains_seq(hay@, needle@),
{
    find_seq(hay, needle).is_some()
}

// ---------------------------------------------------------------------------
// Whitespace and words

/// The characters with the Unicode `White_Space` property, which is what
/// `char::is_whitespace` tests.
pub open spec fn is_white_space(c: char) -> bool {
    ('\u{9}' <= c && c <= '\u{d}') || c == ' ' || c == '\u{85}' || c == '\u{a0}'
        || c == '\u{1680}' || ('\u{2000}' <= c && c <= '\u{200a}') || c == '\u{2028}'
        || c == '\u{2029}' || c == '\u{202f}' || c == '\u{205f}' || c == '\u{3000}'
}

/// Tests for a white-space character.
pub fn is_whitespace(c: char) -> (res: bool)
    ensures
        res == is_white_space(c),
{
    ('\u{9}' <= c && c <= '\u{d}') || c == ' ' || c == '\u{85}' || c == '\u{a0}'
        || c == '\u{1680}' || ('\u{2000}' <= c && c <= '\u{200a}') || c == '\u{2028}'
        || c == '\u{2029}' || c == '\u{202f}' || c == '\u{205f}' || c == '\u{3000}'
}

/// The words of `s[i..]`, with `cur` the part of a word read before `i`:
/// maximal runs of non-white-space characters, as `str::split_whitespace`
/// yields them.
pub open spec fn words_acc(s: Seq<char>, i: int, cur: Seq<char>) -> Seq<Seq<char>>
    decreases s.len() - i,
{
    let done: Seq<Seq<char>> = if cur.len() > 0 {
        seq![cur]
    } else {
        Seq::empty()
    };
    if i < 0 || i >= s.len() {
        done
    } else if is_white_space(s[i]) {
        done + words_acc(s, i + 1, Seq::empty())
    } else {
        words_acc(s, i + 1, cur.push(s[i]))
    }
}

/// The words of a text, as `str::split_whitespace` yields them.
pub open spec fn words(s: Seq<char>) -> Seq<Seq<char>> {
    words_acc(s, 0, Seq::empty())
}

/// Splits a text into its white-space separated words.
pub fn split_whitespace(s: &Vec<char>) -> (res: Vec<Vec<char>>)
    ensures
        res@.len() == words(s@).len(),
        forall|k: int| 0 <= k < res@.len() ==> #[trigger] res@[k]@ == words(s@)[k],
{
    let mut res: Vec<Vec<char>> = Vec::new();
    let mut cur: Vec<char> = Vec::new();
    let mut i: usize = 0;
    let ghost done: Seq<Seq<char>> = Seq::empty();
    while i < s.len()
        invariant
            i <= s.len(),
            done.len() == res@.len(),
            forall|k: int| 0 <= k < res@.len() ==> #[trigger] res@[k]@ == done[k],
            words(s@) == done + words_acc(s@, i as int, cur@),
        decreases s.len() - i,
    {
        let ch = s[i];
        if is_whitespace(ch) {
            if cur.len() > 0 {
                proof {
                    assert(done + words_acc(s@, i as int, cur@) =~= done.push(cur@)
                        + words_acc(s@, i + 1, Seq::empty()));
                    done = done.push(cur@);
                }
                res.push(cur);
                cur = Vec::new();
            } else {
                proof {
                    assert(done + words_acc(s@, i as int, cur@) =~= done
                        + words_acc(s@, i + 1, Seq::empty()));
                }
                cur = Vec::new();
            }
        } else {
            cur.push(ch);
        }
        i = i + 1;
    }
    if cur.len() > 0 {
        proof {
            assert(done + words_acc(s@, i as int, cur@) =~= done.push(cur@));
            done = done.push(cur@);
        }
        res.push(cur);
    } else {
        assert(done + words_acc(s@, i as int, cur@) =~= done);
    }
    res
}

// ---------------------------------------------------------------------------
// Tables of text pairs

/// The views of a table of texts keyed by text.
pub open spec fn pairs_view(reqs: Seq<(String, String)>) -> Seq<(Seq<char>, Seq<char>)> {
    reqs.map_values(|p: (String, String)| (p.0@, p.1@))
}

/// The value recorded for `name` in a table of pairs; a later entry
/// overrides an earlier one, as with repeated map insertions.
pub open spec fn table_lookup(reqs: Seq<(Seq<char>, Seq<char>)>, name: Seq<char>) -> Option<Seq<char>>
    decreases reqs.len(),
{
    if reqs.len() == 0 {
        None
    } else if reqs.last().0 == name {
        Some(reqs.last().1)
    } else {
        table_lookup(reqs.drop_last(), name)
    }
}

/// Looks up the value recorded for a key.
pub fn table_get<'a>(reqs: &'a Vec<(String, String)>, name: &String) -> (res: Option<&'a String>)
    ensures
        match table_lookup(pairs_view(reqs@), name@) {
            Some(t) => res matches Some(r) && r@ == t,
            None => res is None,
        },
{
    let ghost all = pairs_view(reqs@);
    let mut i: usize = reqs.len();
    proof {
        assert(all.subrange(0, all.len() as int) =~= all);
    }
    while i > 0
        invariant
            i <= reqs@.len(),
            all == pairs_view(reqs@),
            all.len() == reqs@.len(),
            table_lookup(all, name@) == table_lookup(all.subrange(0, i as int), name@),
        decreases i,
    {
        let ghost pre = all.subrange(0, i as int);
        proof {
            assert(pre.last() == all[i - 1]);
            assert(pre.drop_last() =~= all.subrange(0, i - 1));
        }
        if reqs[i - 1].0 == *name {
            return Some(&reqs[i - 1].1);
        }
        i = i - 1;
    }
    None
}

// ---------------------------------------------------------------------------
// ASCII case, trimming and splitting

/// The ASCII lower-case form of a character, as `char::to_ascii_lowercase`.
pub open spec fn ascii_lower(c: char) -> char {
    if 'A' <= c && c <= 'Z' {
        (((c as u8) + 32) as u8) as char
    } else {
        c
    }
}

/// The ASCII upper-case form of a character, as `char::to_ascii_uppercase`.
pub open spec fn ascii_upper(c: char) -> char {
    if 'a' <= c && c <= 'z' {
        (((c as u8) - 32) as u8) as char
    } else {
        c
    }
}

pub open spec fn ascii_lowercase(s: Seq<char>) -> Seq<char> {
    s.map_values(|c: char| ascii_lower(c))
}

/// Whether a text is made of ASCII characters only.
pub open spec fn is_ascii_text(t: Seq<char>) -> bool {
    forall|i: int| 0 <= i < t.len() ==> (t[i] as u32) < 128
}

/// The lower-case form of a text as `str::to_lowercase` gives it: the ASCII
/// lower-casing on ASCII text, the Unicode lower-casing otherwise.
pub open spec fn lowercased(s: Seq<char>) -> Seq<char> {
    if is_ascii_text(s) {
        ascii_lowercase(s)
    } else {
        lowercase_chars(s)
    }
}

pub open spec fn ascii_uppercase(s: Seq<char>) -> Seq<char> {
    s.map_values(|c: char| ascii_upper(c))
}

fn lower_char(c: char) -> (r: char)
    ensures
        r == ascii_lower(c),
{
    if 'A' <= c && c <= 'Z' {
        let v: u8 = (c as u8) + 32;
        v as char
    } else {
        c
    }
}

fn upper_char(c: char) -> (r: char)
    ensures
        r == ascii_upper(c),
{
    if 'a' <= c && c <= 'z' {
        let v: u8 = (c as u8) - 32;
        v as char
    } else {
        c
    }
}

/// A copy of a string with ASCII letters in lower case, as
/// `str::make_ascii_lowercase` leaves it.
pub fn to_ascii_lowercase(s: &str) -> (res: String)
    ensures
        res@ == ascii_lowercase(s@),
{
    let v = str_to_chars(s);
    let mut out: Vec<char> = Vec::new();
    let mut i: usize = 0;
    while i < v.len()
        invariant
            i <= v@.len(),
            out@ =~= ascii_lowercase(v@.subrange(0, i as int)),
        decreases v.len() - i,
    {
        out.push(lower_char(v[i]));
        i = i + 1;
    }
    assert(v@.subrange(0, v@.len() as int) =~= v@);
    chars_to_string(&out)
}

/// A copy of a string with ASCII letters in upper case, as
/// `str::make_ascii_uppercase` leaves it.
pub fn to_ascii_uppercase(s: &str) -> (res: String)
    ensures
        res@ == ascii_uppercase(s@),
{
    let v = str_to_chars(s);
    let mut out: Vec<char> = Vec::new();
    let mut i: usize = 0;
    while i < v.len()
        invariant
            i <= v@.len(),
            out@ =~= ascii_uppercase(v@.subrange(0, i as int)),
        decreases v.len() - i,
    {
        out.push(upper_char(v[i]));
        i = i + 1;
    }
    assert(v@.subrange(0, v@.len() as int) =~= v@);
    chars_to_string(&out)
}

/// The number of leading white-space characters.
pub open spec fn leading_space(s: Seq<char>) -> nat
    decreases s.len(),
{
    if s.len() > 0 && is_white_space(s[0]) {
        1 + leading_space(s.drop_first())
    } else {
        0
    }
}

/// The number of trailing white-space characters.
pub open spec fn trailing_space(s: Seq<char>) -> nat
    decreases s.len(),
{
    if s.len() > 0 && is_white_space(s.last()) {
        1 + trailing_space(s.drop_last())
    } else {
        0
    }
}

/// A text without leading and trailing white space, as `str::trim` gives it.
pub open spec fn trim(s: Seq<char>) -> Seq<char> {
    let a = s.skip(leading_space(s) as int);
    a.take(a.len() - trailing_space(a))
}

pub proof fn lemma_leading_space(s: Seq<char>)
    ensures
        leading_space(s) <= s.len(),
    decreases s.len(),
{
    if s.len() > 0 && is_white_space(s[0]) {
        lemma_leading_space(s.drop_first());
    }
}

pub proof fn lemma_trailing_space(s: Seq<char>)
    ensures
        trailing_space(s) <= s.len(),
    decreases s.len(),
{
    if s.len() > 0 && is_white_space(s.last()) {
        lemma_trailing_space(s.drop_last());
    }
}

/// Removes leading and trailing white space.
pub fn trim_chars(s: &Vec<char>) -> (res: Vec<char>)
    ensures
        res@ == trim(s@),
{
    let n = s.len();
    let mut i: usize = 0;
    proof {
        assert(s@.skip(0) =~= s@);
    }
    while i < n && is_whitespace(s[i])
        invariant
            i <= n,
            n == s@.len(),
            leading_space(s@) == i + leading_space(s@.skip(i as int)),
        decreases n - i,
    {
        proof {
            assert(s@.skip(i as int).drop_first() =~= s@.skip(i + 1));
            assert(s@.skip(i as int)[0] == s@[i as int]);
        }
        i = i + 1;
    }
    proof {
        if i < n {
            assert(s@.skip(i as int)[0] == s@[i as int]);
        }
    }
    let ghost a = s@.skip(i as int);
    let mut j: usize = n;
    proof {
        assert(a.take(a.len() as int) =~= a);
    }
    while j > i && is_whitespace(s[j - 1])
        invariant
            i <= j <= n,
            n == s@.len(),
            a == s@.skip(i as int),
            trailing_space(a) == (n - j) + trailing_space(a.take(j - i)),
        decreases j,
    {
        proof {
            assert(a.take(j - i).drop_last() =~= a.take(j - 1 - i));
            assert(a.take(j - i).last() == s@[j - 1]);
        }
        j = j - 1;
    }
    proof {
        if j > i {
            assert(a.take(j - i).last() == s@[j - 1]);
        }
        assert(a.take(a.len() - trailing_space(a)) =~= s@.subrange(i as int, j as int));
    }
    slice_chars(s, i, j)
}

/// Splits a text at the first occurrence of `c`, as `str::split_once`.
pub open spec fn split_once(s: Seq<char>, c: char) -> Option<(Seq<char>, Seq<char>)> {
    match first_index_of(s, c) {
        Some(i) => Some((s.take(i), s.skip(i + 1))),
        None => None,
    }
}

/// Splits at the first occurrence of a character.
pub fn split_once_chars(s: &Vec<char>, c: char) -> (res: Option<(Vec<char>, Vec<char>)>)
    ensures
        match split_once(s@, c) {
            Some((a, b)) => res matches Some((x, y)) && x@ == a && y@ == b,
            None => res is None,
        },
{
    match find_first(s, c) {
        Some(i) => {
            let a = slice_chars(s, 0, i);
            let b = slice_chars(s, i + 1, s.len());
            proof {
                assert(a@ =~= s@.take(i as int));
                assert(b@ =~= s@.skip(i + 1));
            }
            Some((a, b))
        },
        None => None,
    }
}

} // verus!
