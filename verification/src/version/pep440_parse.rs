//! The PEP-440 version grammar, as Cranko accepts it.
//!
//! A version is read from lower-cased text as: optional whitespace, an
//! optional `v`, an optional `{epoch}!`, a first release number, and then a
//! chain of segments. After a release number the next segment may be a
//! pre-release tag, an explicit post-release tag, a dev tag, a local
//! identifier, an unlabeled post-release (`-N`) or another release number
//! (`.N`), tried in that order; after a pre-release tag only a post tag, a dev
//! tag or a local identifier may follow; after a post tag only a dev tag or a
//! local identifier; after a dev tag only a local identifier. Tags may be
//! surrounded by single separators (`.`, `-`, `_`) and take an optional
//! number that defaults to zero. Trailing whitespace is allowed; anything
//! else left over is an error. Numbers that do not fit a `usize` are treated
//! as absent.

use vstd::prelude::*;

use crate::errors::Error;
use crate::text::{
    char_alphanumeric, chars_to_string, digit_value, digits_value, is_alphanumeric,
    is_ascii_space, is_digit, lemma_digits_value_push, occurs_at, owned, str_to_chars,
    to_lowercase, lowercased, slice_chars,
};
use crate::version::pep440::{Pep440Model, Pep440Prerelease, Pep440Version};

verus! {

// ---------------------------------------------------------------------------
// Lexical pieces

pub open spec fn at_char(s: Seq<char>, i: int, c: char) -> bool {
    0 <= i < s.len() && s[i] == c
}

pub open spec fn is_separator(c: char) -> bool {
    c == '.' || c == '-' || c == '_'
}

/// Skips spaces, tabs, carriage returns and newlines.
pub open spec fn skip_spaces(s: Seq<char>, i: int) -> int
    decreases s.len() - i,
{
    if 0 <= i < s.len() && is_ascii_space(s[i]) {
        skip_spaces(s, i + 1)
    } else {
        i
    }
}

pub open spec fn digit_run_end(s: Seq<char>, i: int) -> int
    decreases s.len() - i,
{
    if 0 <= i < s.len() && is_digit(s[i]) {
        digit_run_end(s, i + 1)
    } else {
        i
    }
}

/// A non-empty run of digits whose value fits a `usize`.
pub open spec fn spec_unsigned(s: Seq<char>, i: int) -> Option<(usize, int)> {
    let j = digit_run_end(s, i);
    if j > i && digits_value(s.subrange(i, j)) <= usize::MAX {
        Some((digits_value(s.subrange(i, j)) as usize, j))
    } else {
        None
    }
}

/// An optional number, zero when absent.
pub open spec fn opt_unsigned(s: Seq<char>, i: int) -> (usize, int) {
    match spec_unsigned(s, i) {
        Some(p) => p,
        None => (0, i),
    }
}

pub open spec fn opt_sep(s: Seq<char>, i: int) -> int {
    if 0 <= i < s.len() && is_separator(s[i]) {
        i + 1
    } else {
        i
    }
}

pub open spec fn t_alpha() -> Seq<char> {
    seq!['a', 'l', 'p', 'h', 'a']
}

pub open spec fn t_beta() -> Seq<char> {
    seq!['b', 'e', 't', 'a']
}

pub open spec fn t_rc() -> Seq<char> {
    seq!['r', 'c']
}

pub open spec fn t_preview() -> Seq<char> {
    seq!['p', 'r', 'e', 'v', 'i', 'e', 'w']
}

pub open spec fn t_pre() -> Seq<char> {
    seq!['p', 'r', 'e']
}

pub open spec fn t_post() -> Seq<char> {
    seq!['p', 'o', 's', 't']
}

pub open spec fn t_rev() -> Seq<char> {
    seq!['r', 'e', 'v']
}

pub open spec fn t_dev() -> Seq<char> {
    seq!['d', 'e', 'v']
}

/// Which pre-release spelling starts at `k` (kind 0 alpha, 1 beta, 2 rc) and
/// its length. Longer spellings are tried before their prefixes.
pub open spec fn pre_tag_match(s: Seq<char>, k: int) -> Option<(int, int)> {
    if occurs_at(s, t_alpha(), k) {
        Some((0, 5))
    } else if occurs_at(s, seq!['a'], k) {
        Some((0, 1))
    } else if occurs_at(s, t_beta(), k) {
        Some((1, 4))
    } else if occurs_at(s, seq!['b'], k) {
        Some((1, 1))
    } else if occurs_at(s, seq!['c'], k) {
        Some((2, 1))
    } else if occurs_at(s, t_rc(), k) {
        Some((2, 2))
    } else if occurs_at(s, t_preview(), k) {
        Some((2, 7))
    } else if occurs_at(s, t_pre(), k) {
        Some((2, 3))
    } else {
        None
    }
}

pub open spec fn make_pre(kind: int, n: usize) -> Pep440Prerelease {
    if kind == 0 {
        Pep440Prerelease::Alpha(n)
    } else if kind == 1 {
        Pep440Prerelease::Beta(n)
    } else {
        Pep440Prerelease::Rc(n)
    }
}

pub open spec fn spec_pre_tag(s: Seq<char>, i: int) -> Option<(Pep440Prerelease, int)> {
    let k = opt_sep(s, i);
    match pre_tag_match(s, k) {
        None => None,
        Some((kind, len)) => {
            let (n, k3) = opt_unsigned(s, opt_sep(s, k + len));
            Some((make_pre(kind, n), k3))
        },
    }
}

/// An explicit post-release tag: `post`, `rev` or `r`; longer spellings
/// are tried before their prefixes.
pub open spec fn spec_post_tag(s: Seq<char>, i: int) -> Option<(usize, int)> {
    let k = opt_sep(s, i);
    let len = if occurs_at(s, t_post(), k) {
        4int
    } else if occurs_at(s, t_rev(), k) {
        3int
    } else if occurs_at(s, seq!['r'], k) {
        1int
    } else {
        0int
    };
    if len == 0 {
        None
    } else {
        Some(opt_unsigned(s, opt_sep(s, k + len)))
    }
}

pub open spec fn spec_dev_tag(s: Seq<char>, i: int) -> Option<(usize, int)> {
    let k = opt_sep(s, i);
    if occurs_at(s, t_dev(), k) {
        Some(opt_unsigned(s, opt_sep(s, k + 3)))
    } else {
        None
    }
}

pub open spec fn is_local_char(c: char) -> bool {
    char_alphanumeric(c) || is_separator(c)
}

pub open spec fn local_run_end(s: Seq<char>, i: int) -> int
    decreases s.len() - i,
{
    if 0 <= i < s.len() && is_local_char(s[i]) {
        local_run_end(s, i + 1)
    } else {
        i
    }
}

pub open spec fn spec_local(s: Seq<char>, i: int) -> Option<(Seq<char>, int)> {
    if at_char(s, i, '+') && local_run_end(s, i + 1) > i + 1 {
        Some((s.subrange(i + 1, local_run_end(s, i + 1)), local_run_end(s, i + 1)))
    } else {
        None
    }
}

pub open spec fn spec_unlabeled_post(s: Seq<char>, i: int) -> Option<(usize, int)> {
    if at_char(s, i, '-') {
        spec_unsigned(s, i + 1)
    } else {
        None
    }
}

pub open spec fn spec_dot_unsigned(s: Seq<char>, i: int) -> Option<(usize, int)> {
    if at_char(s, i, '.') {
        spec_unsigned(s, i + 1)
    } else {
        None
    }
}

// ---------------------------------------------------------------------------
// Segments

pub enum SegTok {
    Release(usize),
    Pre(Pep440Prerelease),
    Post(usize),
    Dev(usize),
    Local(Seq<char>),
}

pub open spec fn after_local(s: Seq<char>, i: int) -> Option<(SegTok, int)> {
    match spec_local(s, i) {
        Some((l, j)) => Some((SegTok::Local(l), j)),
        None => None,
    }
}

pub open spec fn after_dev(s: Seq<char>, i: int) -> Option<(SegTok, int)> {
    after_local(s, i)
}

pub open spec fn after_post(s: Seq<char>, i: int) -> Option<(SegTok, int)> {
    match spec_dev_tag(s, i) {
        Some((n, j)) => Some((SegTok::Dev(n), j)),
        None => after_dev(s, i),
    }
}

pub open spec fn after_pre(s: Seq<char>, i: int) -> Option<(SegTok, int)> {
    match spec_post_tag(s, i) {
        Some((n, j)) => Some((SegTok::Post(n), j)),
        None => after_post(s, i),
    }
}

pub open spec fn after_release(s: Seq<char>, i: int) -> Option<(SegTok, int)> {
    match spec_pre_tag(s, i) {
        Some((p, j)) => Some((SegTok::Pre(p), j)),
        None => match after_pre(s, i) {
            Some(r) => Some(r),
            None => match spec_unlabeled_post(s, i) {
                Some((n, j)) => Some((SegTok::Post(n), j)),
                None => match spec_dot_unsigned(s, i) {
                    Some((n, j)) => Some((SegTok::Release(n), j)),
                    None => None,
                },
            },
        },
    }
}

/// The segment that may follow `prev` at position `i`.
pub open spec fn next_seg(s: Seq<char>, i: int, prev: SegTok) -> Option<(SegTok, int)> {
    match prev {
        SegTok::Release(_) => after_release(s, i),
        SegTok::Pre(_) => after_pre(s, i),
        SegTok::Post(_) => after_post(s, i),
        SegTok::Dev(_) => after_dev(s, i),
        SegTok::Local(_) => None,
    }
}

pub open spec fn apply_seg(acc: Pep440Model, seg: SegTok) -> Pep440Model {
    match seg {
        SegTok::Release(n) => Pep440Model { segments: acc.segments.push(n), ..acc },
        SegTok::Pre(p) => Pep440Model { pre_release: Some(p), ..acc },
        SegTok::Post(n) => Pep440Model { post_release: Some(n), ..acc },
        SegTok::Dev(n) => Pep440Model { dev_release: Some(n), ..acc },
        SegTok::Local(l) => Pep440Model { local_identifier: Some(l), ..acc },
    }
}

/// Records `seg`, then reads the segments that follow it from position `i`;
/// returns the version and the position where reading stopped.
pub open spec fn spec_segments_from(s: Seq<char>, i: int, seg: SegTok, acc: Pep440Model) -> (
    Pep440Model,
    int,
)
    decreases s.len() - i,
{
    let acc2 = apply_seg(acc, seg);
    match next_seg(s, i, seg) {
        Some((seg2, j)) => if i < j <= s.len() {
            spec_segments_from(s, j, seg2, acc2)
        } else {
            (acc2, i)
        },
        None => (acc2, i),
    }
}

pub open spec fn empty_model(epoch: usize) -> Pep440Model {
    Pep440Model {
        epoch,
        segments: Seq::empty(),
        pre_release: None,
        post_release: None,
        dev_release: None,
        local_identifier: None,
    }
}

pub open spec fn spec_epoch(s: Seq<char>, i: int) -> (usize, int) {
    match spec_unsigned(s, i) {
        Some((n, j)) => if at_char(s, j, '!') {
            (n, j + 1)
        } else {
            (0, i)
        },
        None => (0, i),
    }
}

/// The version that already-lower-cased text denotes, if any.
pub open spec fn spec_parse_pep440(s: Seq<char>) -> Option<Pep440Model> {
    let i0 = skip_spaces(s, 0);
    let i1 = if at_char(s, i0, 'v') {
        i0 + 1
    } else {
        i0
    };
    let (epoch, i2) = spec_epoch(s, i1);
    match spec_unsigned(s, i2) {
        None => None,
        Some((n, i3)) => {
            let (v, k) = spec_segments_from(s, i3, SegTok::Release(n), empty_model(epoch));
            if skip_spaces(s, k) == s.len() {
                Some(v)
            } else {
                None
            }
        },
    }
}

// ---------------------------------------------------------------------------
// Executable parsing

pub open spec fn pos_view<T>(o: Option<(T, usize)>) -> Option<(T, int)> {
    match o {
        Some((t, j)) => Some((t, j as int)),
        None => None,
    }
}

fn char_at(s: &Vec<char>, i: usize, c: char) -> (r: bool)
    ensures
        r == at_char(s@, i as int, c),
{
    i < s.len() && s[i] == c
}

fn is_sep_char(c: char) -> (r: bool)
    ensures
        r == is_separator(c),
{
    c == '.' || c == '-' || c == '_'
}

fn skip_spaces_exec(s: &Vec<char>, i: usize) -> (r: usize)
    requires
        i <= s.len(),
    ensures
        r as int == skip_spaces(s@, i as int),
        i <= r <= s.len(),
{
    let mut j = i;
    while j < s.len() && (s[j] == ' ' || s[j] == '\t' || s[j] == '\n' || s[j] == '\r')
        invariant
            i <= j <= s.len(),
            skip_spaces(s@, i as int) == skip_spaces(s@, j as int),
        decreases s.len() - j,
    {
        j = j + 1;
    }
    j
}

pub proof fn lemma_digit_run(s: Seq<char>, i: int, j: int)
    requires
        0 <= i <= j <= s.len(),
        forall|k: int| i <= k < j ==> is_digit(s[k]),
    ensures
        digit_run_end(s, i) == digit_run_end(s, j),
    decreases j - i,
{
    if i < j {
        lemma_digit_run(s, i + 1, j);
    }
}

proof fn lemma_digits_grow(ds: Seq<char>, c: char)
    requires
        is_digit(c),
    ensures
        digits_value(ds.push(c)) >= digits_value(ds),
        digits_value(ds.push(c)) == digits_value(ds) * 10 + digit_value(c),
{
    lemma_digits_value_push(ds, c);
}

fn parse_unsigned(s: &Vec<char>, i: usize) -> (res: Option<(usize, usize)>)
    requires
        i <= s.len(),
    ensures
        pos_view(res) == spec_unsigned(s@, i as int),
        res matches Some((_, j)) ==> i < j <= s.len(),
{
    let mut j = i;
    let mut val: usize = 0;
    let mut overflow = false;
    while j < s.len() && '0' <= s[j] && s[j] <= '9'
        invariant
            i <= j <= s.len(),
            forall|k: int| i <= k < j ==> is_digit(s@[k]),
            !overflow ==> val as int == digits_value(s@.subrange(i as int, j as int)),
            overflow ==> digits_value(s@.subrange(i as int, j as int)) > usize::MAX,
        decreases s.len() - j,
    {
        let c = s[j];
        let d: usize = (c as u32 - 48u32) as usize;
        proof {
            assert(s@.subrange(i as int, j + 1) =~= s@.subrange(i as int, j as int).push(c));
            lemma_digits_grow(s@.subrange(i as int, j as int), c);
        }
        if !overflow {
            match val.checked_mul(10) {
                Some(m) => match m.checked_add(d) {
                    Some(v) => {
                        val = v;
                    },
                    None => {
                        overflow = true;
                    },
                },
                None => {
                    overflow = true;
                },
            }
        }
        j = j + 1;
    }
    proof {
        lemma_digit_run(s@, i as int, j as int);
    }
    if j == i || overflow {
        None
    } else {
        Some((val, j))
    }
}

fn opt_unsigned_exec(s: &Vec<char>, i: usize) -> (res: (usize, usize))
    requires
        i <= s.len(),
    ensures
        (res.0, res.1 as int) == opt_unsigned(s@, i as int),
        i <= res.1 <= s.len(),
{
    match parse_unsigned(s, i) {
        Some(p) => p,
        None => (0, i),
    }
}

fn opt_sep_exec(s: &Vec<char>, i: usize) -> (r: usize)
    requires
        i <= s.len(),
    ensures
        r as int == opt_sep(s@, i as int),
        i <= r <= s.len(),
{
    if i < s.len() && is_sep_char(s[i]) {
        i + 1
    } else {
        i
    }
}

fn tag_at(s: &Vec<char>, i: usize, t: &[char]) -> (r: bool)
    ensures
        r == occurs_at(s@, t@, i as int),
{
    if i > s.len() || t.len() > s.len() - i {
        return false;
    }
    let mut k: usize = 0;
    while k < t.len()
        invariant
            k <= t.len(),
            i + t.len() <= s.len(),
            forall|m: int| 0 <= m < k ==> s@[i + m] == t@[m],
        decreases t.len() - k,
    {
        if s[i + k] != t[k] {
            assert(s@.subrange(i as int, i + t.len())[k as int] != t@[k as int]);
            return false;
        }
        k = k + 1;
    }
    assert(s@.subrange(i as int, i + t@.len()) =~= t@);
    true
}

fn pre_tag_exec(s: &Vec<char>, i: usize) -> (res: Option<(Pep440Prerelease, usize)>)
    requires
        i <= s.len(),
    ensures
        pos_view(res) == spec_pre_tag(s@, i as int),
        res matches Some((_, j)) ==> i < j <= s.len(),
{
    let k = opt_sep_exec(s, i);
    assert(t_alpha() =~= ['a', 'l', 'p', 'h', 'a']@);
    assert(seq!['a'] =~= ['a']@);
    assert(t_beta() =~= ['b', 'e', 't', 'a']@);
    assert(seq!['b'] =~= ['b']@);
    assert(seq!['c'] =~= ['c']@);
    assert(t_rc() =~= ['r', 'c']@);
    assert(t_preview() =~= ['p', 'r', 'e', 'v', 'i', 'e', 'w']@);
    assert(t_pre() =~= ['p', 'r', 'e']@);
    let (kind, len): (u8, usize) = if tag_at(s, k, &['a', 'l', 'p', 'h', 'a']) {
        (0, 5)
    } else if tag_at(s, k, &['a']) {
        (0, 1)
    } else if tag_at(s, k, &['b', 'e', 't', 'a']) {
        (1, 4)
    } else if tag_at(s, k, &['b']) {
        (1, 1)
    } else if tag_at(s, k, &['c']) {
        (2, 1)
    } else if tag_at(s, k, &['r', 'c']) {
        (2, 2)
    } else if tag_at(s, k, &['p', 'r', 'e', 'v', 'i', 'e', 'w']) {
        (2, 7)
    } else if tag_at(s, k, &['p', 'r', 'e']) {
        (2, 3)
    } else {
        return None;
    };
    let k2 = opt_sep_exec(s, k + len);
    let (n, k3) = opt_unsigned_exec(s, k2);
    let p = if kind == 0 {
        Pep440Prerelease::Alpha(n)
    } else if kind == 1 {
        Pep440Prerelease::Beta(n)
    } else {
        Pep440Prerelease::Rc(n)
    };
    Some((p, k3))
}

fn post_tag_exec(s: &Vec<char>, i: usize) -> (res: Option<(usize, usize)>)
    requires
        i <= s.len(),
    ensures
        pos_view(res) == spec_post_tag(s@, i as int),
        res matches Some((_, j)) ==> i < j <= s.len(),
{
    let k = opt_sep_exec(s, i);
    assert(t_post() =~= ['p', 'o', 's', 't']@);
    assert(seq!['r'] =~= ['r']@);
    assert(t_rev() =~= ['r', 'e', 'v']@);
    let len: usize = if tag_at(s, k, &['p', 'o', 's', 't']) {
        4
    } else if tag_at(s, k, &['r', 'e', 'v']) {
        3
    } else if tag_at(s, k, &['r']) {
        1
    } else {
        return None;
    };
    let k2 = opt_sep_exec(s, k + len);
    Some(opt_unsigned_exec(s, k2))
}

fn dev_tag_exec(s: &Vec<char>, i: usize) -> (res: Option<(usize, usize)>)
    requires
        i <= s.len(),
    ensures
        pos_view(res) == spec_dev_tag(s@, i as int),
        res matches Some((_, j)) ==> i < j <= s.len(),
{
    let k = opt_sep_exec(s, i);
    assert(t_dev() =~= ['d', 'e', 'v']@);
    if tag_at(s, k, &['d', 'e', 'v']) {
        let k2 = opt_sep_exec(s, k + 3);
        Some(opt_unsigned_exec(s, k2))
    } else {
        None
    }
}

fn local_exec(s: &Vec<char>, i: usize) -> (res: Option<(Vec<char>, usize)>)
    requires
        i <= s.len(),
    ensures
        match res {
            Some((l, j)) => spec_local(s@, i as int) == Some((l@, j as int)) && i < j <= s.len(),
            None => spec_local(s@, i as int) is None,
        },
{
    if !char_at(s, i, '+') {
        return None;
    }
    let mut j = i + 1;
    while j < s.len() && (is_alphanumeric(s[j]) || is_sep_char(s[j]))
        invariant
            i + 1 <= j <= s.len(),
            local_run_end(s@, (i + 1) as int) == local_run_end(s@, j as int),
        decreases s.len() - j,
    {
        j = j + 1;
    }
    if j == i + 1 {
        return None;
    }
    let l = slice_chars(s, i + 1, j);
    Some((l, j))
}

fn unlabeled_post_exec(s: &Vec<char>, i: usize) -> (res: Option<(usize, usize)>)
    requires
        i <= s.len(),
    ensures
        pos_view(res) == spec_unlabeled_post(s@, i as int),
        res matches Some((_, j)) ==> i < j <= s.len(),
{
    if char_at(s, i, '-') {
        parse_unsigned(s, i + 1)
    } else {
        None
    }
}

fn dot_unsigned_exec(s: &Vec<char>, i: usize) -> (res: Option<(usize, usize)>)
    requires
        i <= s.len(),
    ensures
        pos_view(res) == spec_dot_unsigned(s@, i as int),
        res matches Some((_, j)) ==> i < j <= s.len(),
{
    if char_at(s, i, '.') {
        parse_unsigned(s, i + 1)
    } else {
        None
    }
}

enum Segment {
    Release(usize),
    PreRelease(Pep440Prerelease),
    PostRelease(usize),
    DevRelease(usize),
    LocalIdentifier(Vec<char>),
}

spec fn seg_view(seg: Segment) -> SegTok {
    match seg {
        Segment::Release(n) => SegTok::Release(n),
        Segment::PreRelease(p) => SegTok::Pre(p),
        Segment::PostRelease(n) => SegTok::Post(n),
        Segment::DevRelease(n) => SegTok::Dev(n),
        Segment::LocalIdentifier(l) => SegTok::Local(l@),
    }
}

spec fn seg_pos_view(o: Option<(Segment, usize)>) -> Option<(SegTok, int)> {
    match o {
        Some((seg, j)) => Some((seg_view(seg), j as int)),
        None => None,
    }
}

fn after_local_exec(s: &Vec<char>, i: usize) -> (res: Option<(Segment, usize)>)
    requires
        i <= s.len(),
    ensures
        seg_pos_view(res) == after_local(s@, i as int),
        res matches Some((_, j)) ==> i < j <= s.len(),
{
    match local_exec(s, i) {
        Some((l, j)) => Some((Segment::LocalIdentifier(l), j)),
        None => None,
    }
}

fn after_post_exec(s: &Vec<char>, i: usize) -> (res: Option<(Segment, usize)>)
    requires
        i <= s.len(),
    ensures
        seg_pos_view(res) == after_post(s@, i as int),
        res matches Some((_, j)) ==> i < j <= s.len(),
{
    match dev_tag_exec(s, i) {
        Some((n, j)) => Some((Segment::DevRelease(n), j)),
        None => after_local_exec(s, i),
    }
}

fn after_pre_exec(s: &Vec<char>, i: usize) -> (res: Option<(Segment, usize)>)
    requires
        i <= s.len(),
    ensures
        seg_pos_view(res) == after_pre(s@, i as int),
        res matches Some((_, j)) ==> i < j <= s.len(),
{
    match post_tag_exec(s, i) {
        Some((n, j)) => Some((Segment::PostRelease(n), j)),
        None => after_post_exec(s, i),
    }
}

fn after_release_exec(s: &Vec<char>, i: usize) -> (res: Option<(Segment, usize)>)
    requires
        i <= s.len(),
    ensures
        seg_pos_view(res) == after_release(s@, i as int),
        res matches Some((_, j)) ==> i < j <= s.len(),
{
    match pre_tag_exec(s, i) {
        Some((p, j)) => {
            return Some((Segment::PreRelease(p), j));
        },
        None => {},
    }
    match after_pre_exec(s, i) {
        Some(r) => {
            return Some(r);
        },
        None => {},
    }
    match unlabeled_post_exec(s, i) {
        Some((n, j)) => {
            return Some((Segment::PostRelease(n), j));
        },
        None => {},
    }
    match dot_unsigned_exec(s, i) {
        Some((n, j)) => Some((Segment::Release(n), j)),
        None => None,
    }
}

fn next_seg_exec(s: &Vec<char>, i: usize, prev: &Segment) -> (res: Option<(Segment, usize)>)
    requires
        i <= s.len(),
    ensures
        seg_pos_view(res) == next_seg(s@, i as int, seg_view(*prev)),
        res matches Some((_, j)) ==> i < j <= s.len(),
{
    match prev {
        Segment::Release(_) => after_release_exec(s, i),
        Segment::PreRelease(_) => after_pre_exec(s, i),
        Segment::PostRelease(_) => after_post_exec(s, i),
        Segment::DevRelease(_) => after_local_exec(s, i),
        Segment::LocalIdentifier(_) => None,
    }
}

fn apply_seg_exec(acc: &mut Pep440Version, seg: Segment)
    ensures
        final(acc)@ == apply_seg(old(acc)@, seg_view(seg)),
        final(acc).segments@.len() >= old(acc).segments@.len(),
{
    match seg {
        Segment::Release(n) => {
            acc.segments.push(n);
        },
        Segment::PreRelease(p) => {
            acc.pre_release = Some(p);
        },
        Segment::PostRelease(n) => {
            acc.post_release = Some(n);
        },
        Segment::DevRelease(n) => {
            acc.dev_release = Some(n);
        },
        Segment::LocalIdentifier(l) => {
            acc.local_identifier = Some(chars_to_string(&l));
        },
    }
}

/// Reads a PEP-440 version from already-lower-cased characters.
pub fn parse_pep440_chars(s: &Vec<char>) -> (res: Option<Pep440Version>)
    ensures
        match res {
            Some(v) => spec_parse_pep440(s@) == Some(v@) && v@.wf(),
            None => spec_parse_pep440(s@) is None,
        },
{
    let i0 = skip_spaces_exec(s, 0);
    let i1 = if char_at(s, i0, 'v') {
        i0 + 1
    } else {
        i0
    };
    let (epoch, i2) = match parse_unsigned(s, i1) {
        Some((n, j)) => if char_at(s, j, '!') {
            (n, j + 1)
        } else {
            (0, i1)
        },
        None => (0, i1),
    };
    assert((epoch, i2 as int) == spec_epoch(s@, i1 as int));
    let (n, i3) = match parse_unsigned(s, i2) {
        Some(p) => p,
        None => {
            return None;
        },
    };
    let mut acc = Pep440Version {
        epoch,
        segments: Vec::new(),
        pre_release: None,
        post_release: None,
        dev_release: None,
        local_identifier: None,
    };
    assert(acc@ =~= empty_model(epoch));
    let mut seg = Segment::Release(n);
    let mut i = i3;
    let ghost target = spec_segments_from(s@, i3 as int, SegTok::Release(n), empty_model(epoch));
    let ghost first = seg_view(seg);
    loop
        invariant_except_break
            spec_segments_from(s@, i as int, seg_view(seg), acc@) == target,
            acc.segments@.len() > 0 || seg_view(seg) is Release,
        invariant
            i <= s.len(),
            target == spec_segments_from(s@, i3 as int, SegTok::Release(n), empty_model(epoch)),
        ensures
            target == (acc@, i as int),
            acc.segments@.len() > 0,
        decreases s.len() - i,
    {
        let next = next_seg_exec(s, i, &seg);
        let ghost old_seg = seg_view(seg);
        let ghost old_acc = acc@;
        let was_release = match seg {
            Segment::Release(_) => true,
            _ => false,
        };
        apply_seg_exec(&mut acc, seg);
        proof {
            if was_release {
                assert(acc@.segments.len() > 0);
            }
        }
        match next {
            Some((seg2, j)) => {
                seg = seg2;
                i = j;
            },
            None => {
                break;
            },
        }
    }
    let k = skip_spaces_exec(s, i);
    if k == s.len() {
        Some(acc)
    } else {
        None
    }
}

impl Pep440Version {
    /// Parses PEP-440 version text. The text is lower-cased first, so tags
    /// are recognized in any case.
    pub fn parse(text: &str) -> (res: Result<Pep440Version, Error>)
        ensures
            match res {
                Ok(v) => spec_parse_pep440(lowercased(text@)) == Some(v@) && v@.wf(),
                Err(e) => spec_parse_pep440(lowercased(text@)) is None && (e matches Error::Pep440Syntax(t) && t@ == text@),
            },
    {
        let lower = to_lowercase(text);
        let chars = str_to_chars(lower.as_str());
        match parse_pep440_chars(&chars) {
            Some(v) => Ok(v),
            None => Err(Error::Pep440Syntax(owned(text))),
        }
    }
}

// ---------------------------------------------------------------------------
// The `sys.version_info` tuple form
//
// `(major, minor, micro, 'level', serial)` with optional whitespace around
// every item, either quote character, and arbitrary text before the opening
// parenthesis. The level is one of `alpha`, `beta`, `candidate`, `final` or
// `dev`. Text after the closing parenthesis is ignored.

pub open spec fn skip_until(s: Seq<char>, i: int, c: char) -> int
    decreases s.len() - i,
{
    if 0 <= i < s.len() && s[i] != c {
        skip_until(s, i + 1, c)
    } else {
        i
    }
}

/// Optional spaces, a number, optional spaces.
pub open spec fn tuple_num(s: Seq<char>, i: int) -> Option<(usize, int)> {
    match spec_unsigned(s, skip_spaces(s, i)) {
        Some((n, j)) => Some((n, skip_spaces(s, j))),
        None => None,
    }
}

/// A comma and optional spaces.
pub open spec fn tuple_comma(s: Seq<char>, i: int) -> Option<int> {
    if at_char(s, i, ',') {
        Some(skip_spaces(s, i + 1))
    } else {
        None
    }
}

pub open spec fn t_candidate() -> Seq<char> {
    seq!['c', 'a', 'n', 'd', 'i', 'd', 'a', 't', 'e']
}

pub open spec fn t_final() -> Seq<char> {
    seq!['f', 'i', 'n', 'a', 'l']
}

/// The pre-release and dev markers that a release level and serial denote.
pub open spec fn level_markers(level: Seq<char>, serial: usize) -> Option<
    (Option<Pep440Prerelease>, Option<usize>),
> {
    if level == t_alpha() {
        Some((Some(Pep440Prerelease::Alpha(serial)), None))
    } else if level == t_beta() {
        Some((Some(Pep440Prerelease::Beta(serial)), None))
    } else if level == t_candidate() {
        Some((Some(Pep440Prerelease::Rc(serial)), None))
    } else if level == t_final() {
        Some((None, None))
    } else if level == t_dev() {
        Some((None, Some(serial)))
    } else {
        None
    }
}

/// The quoted level starting at `i`: its text and the position after the
/// closing quote.
pub open spec fn tuple_level_item(s: Seq<char>, i: int) -> Option<(Seq<char>, int)> {
    if at_char(s, i, '\'') || at_char(s, i, '"') {
        let e = skip_until(s, i + 1, s[i]);
        if at_char(s, e, s[i]) {
            Some((s.subrange(i + 1, e), e + 1))
        } else {
            None
        }
    } else {
        None
    }
}

/// The version that a tuple literal denotes, if any.
pub open spec fn spec_parse_tuple(s: Seq<char>) -> Option<Pep440Model> {
    let p = skip_until(s, 0, '(');
    if !at_char(s, p, '(') {
        None
    } else {
        match tuple_num(s, p + 1) {
            None => None,
            Some((major, i1)) => match tuple_comma(s, i1) {
                None => None,
                Some(i2) => match tuple_num(s, i2) {
                    None => None,
                    Some((minor, i3)) => match tuple_comma(s, i3) {
                        None => None,
                        Some(i4) => match tuple_num(s, i4) {
                            None => None,
                            Some((micro, i5)) => match tuple_comma(s, i5) {
                                None => None,
                                Some(i6) => match tuple_level_item(s, i6) {
                                    None => None,
                                    Some((level, i7)) => match tuple_comma(s, skip_spaces(s, i7)) {
                                        None => None,
                                        Some(i8) => match tuple_num(s, i8) {
                                            None => None,
                                            Some((serial, i9)) => if at_char(s, i9, ')') {
                                                match level_markers(level, serial) {
                                                    None => None,
                                                    Some((pre, dev)) => Some(
                                                        Pep440Model {
                                                            epoch: 0,
                                                            segments: seq![major, minor, micro],
                                                            pre_release: pre,
                                                            post_release: None,
                                                            dev_release: dev,
                                                            local_identifier: None,
                                                        },
                                                    ),
                                                }
                                            } else {
                                                None
                                            },
                                        },
                                    },
                                },
                            },
                        },
                    },
                },
            },
        }
    }
}

fn skip_until_exec(s: &Vec<char>, i: usize, c: char) -> (r: usize)
    requires
        i <= s.len(),
    ensures
        r as int == skip_until(s@, i as int, c),
        i <= r <= s.len(),
{
    let mut j = i;
    while j < s.len() && s[j] != c
        invariant
            i <= j <= s.len(),
            skip_until(s@, i as int, c) == skip_until(s@, j as int, c),
        decreases s.len() - j,
    {
        j = j + 1;
    }
    j
}

fn tuple_num_exec(s: &Vec<char>, i: usize) -> (res: Option<(usize, usize)>)
    requires
        i <= s.len(),
    ensures
        pos_view(res) == tuple_num(s@, i as int),
        res matches Some((_, j)) ==> j <= s.len(),
{
    let k = skip_spaces_exec(s, i);
    match parse_unsigned(s, k) {
        Some((n, j)) => Some((n, skip_spaces_exec(s, j))),
        None => None,
    }
}

fn tuple_comma_exec(s: &Vec<char>, i: usize) -> (res: Option<usize>)
    requires
        i <= s.len(),
    ensures
        match res {
            Some(j) => tuple_comma(s@, i as int) == Some(j as int) && j <= s.len(),
            None => tuple_comma(s@, i as int) is None,
        },
{
    if char_at(s, i, ',') {
        Some(skip_spaces_exec(s, i + 1))
    } else {
        None
    }
}

fn same_chars(a: &Vec<char>, b: &[char]) -> (r: bool)
    ensures
        r == (a@ == b@),
{
    if a.len() != b.len() {
        return false;
    }
    let mut i: usize = 0;
    while i < a.len()
        invariant
            i <= a.len(),
            a.len() == b.len(),
            forall|k: int| 0 <= k < i ==> a@[k] == b@[k],
        decreases a.len() - i,
    {
        if a[i] != b[i] {
            return false;
        }
        i = i + 1;
    }
    assert(a@ =~= b@);
    true
}

fn tuple_body(s: &Vec<char>, p: usize) -> (res: Option<Pep440Version>)
    requires
        p < s.len(),
        s@[p as int] == '(',
        skip_until(s@, 0, '(') == p,
    ensures
        match res {
            Some(v) => spec_parse_tuple(s@) == Some(v@) && v@.wf(),
            None => spec_parse_tuple(s@) is None,
        },
{
    let (major, i1) = tuple_num_exec(s, p + 1)?;
    let i2 = tuple_comma_exec(s, i1)?;
    let (minor, i3) = tuple_num_exec(s, i2)?;
    let i4 = tuple_comma_exec(s, i3)?;
    let (micro, i5) = tuple_num_exec(s, i4)?;
    let i6 = tuple_comma_exec(s, i5)?;
    if !(char_at(s, i6, '\'') || char_at(s, i6, '"')) {
        return None;
    }
    let delim = s[i6];
    let e = skip_until_exec(s, i6 + 1, delim);
    if !char_at(s, e, delim) {
        return None;
    }
    let level = slice_chars(s, i6 + 1, e);
    let i7 = skip_spaces_exec(s, e + 1);
    let i8 = tuple_comma_exec(s, i7)?;
    let (serial, i9) = tuple_num_exec(s, i8)?;
    if !char_at(s, i9, ')') {
        return None;
    }
    assert(t_alpha() =~= ['a', 'l', 'p', 'h', 'a']@);
    assert(t_beta() =~= ['b', 'e', 't', 'a']@);
    assert(t_candidate() =~= ['c', 'a', 'n', 'd', 'i', 'd', 'a', 't', 'e']@);
    assert(t_final() =~= ['f', 'i', 'n', 'a', 'l']@);
    assert(t_dev() =~= ['d', 'e', 'v']@);
    let (pre, dev) = if same_chars(&level, &['a', 'l', 'p', 'h', 'a']) {
        (Some(Pep440Prerelease::Alpha(serial)), None)
    } else if same_chars(&level, &['b', 'e', 't', 'a']) {
        (Some(Pep440Prerelease::Beta(serial)), None)
    } else if same_chars(&level, &['c', 'a', 'n', 'd', 'i', 'd', 'a', 't', 'e']) {
        (Some(Pep440Prerelease::Rc(serial)), None)
    } else if same_chars(&level, &['f', 'i', 'n', 'a', 'l']) {
        (None, None)
    } else if same_chars(&level, &['d', 'e', 'v']) {
        (None, Some(serial))
    } else {
        return None;
    };
    let mut segments: Vec<usize> = Vec::new();
    segments.push(major);
    segments.push(minor);
    segments.push(micro);
    let v = Pep440Version {
        epoch: 0,
        segments,
        pre_release: pre,
        post_release: None,
        dev_release: dev,
        local_identifier: None,
    };
    assert(v@.segments =~= seq![major, minor, micro]);
    Some(v)
}

/// Reads a `sys.version_info`-like tuple literal.
pub fn parse_tuple_chars(s: &Vec<char>) -> (res: Option<Pep440Version>)
    ensures
        match res {
            Some(v) => spec_parse_tuple(s@) == Some(v@) && v@.wf(),
            None => spec_parse_tuple(s@) is None,
        },
{
    let p = skip_until_exec(s, 0, '(');
    if !char_at(s, p, '(') {
        return None;
    }
    tuple_body(s, p)
}

impl Pep440Version {
    /// Parses a version from a `sys.version_info`-like tuple literal, such as
    /// `VERSION = (1, 2, 0, 'beta', 3)`.
    pub fn parse_from_tuple_literal(text: &str) -> (res: Result<Pep440Version, Error>)
        ensures
            match res {
                Ok(v) => spec_parse_tuple(text@) == Some(v@) && v@.wf(),
                Err(e) => spec_parse_tuple(text@) is None && (e matches Error::TupleLiteralSyntax(t)
                    && t@ == text@),
            },
    {
        let chars = str_to_chars(text);
        match parse_tuple_chars(&chars) {
            Some(v) => Ok(v),
            None => Err(Error::TupleLiteralSyntax(owned(text))),
        }
    }
}

impl std::str::FromStr for Pep440Version {
    type Err = Error;

    fn from_str(s: &str) -> (res: Result<Pep440Version, Error>)
        ensures
            match res {
                Ok(v) => spec_parse_pep440(lowercased(s@)) == Some(v@) && v@.wf(),
                Err(e) => spec_parse_pep440(lowercased(s@)) is None && (e matches Error::Pep440Syntax(t) && t@
                    == s@),
            },
    {
        Pep440Version::parse(s)
    }
}

} // verus!
