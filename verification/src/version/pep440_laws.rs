//! Reading back the normalized text of a PEP-440 version.

use vstd::prelude::*;

use crate::text::{all_digits, decimal, digits_value, is_digit, lemma_decimal_digits, occurs_at};
use crate::version::pep440::{
    dotted_tail, epoch_text, expressible_as_tuple, local_text, markers_text, prerelease_text, release_text,
    render, seg_at, tuple_level, tuple_text, Pep440Model, Pep440Prerelease,
};
use crate::version::pep440_parse::{
    after_dev, after_local, after_post, after_pre, after_release, apply_seg, at_char,
    digit_run_end, empty_model, is_local_char, lemma_digit_run, local_run_end, next_seg, opt_sep,
    opt_unsigned, pre_tag_match, skip_spaces, spec_dev_tag, spec_dot_unsigned, spec_epoch,
    spec_local, spec_parse_pep440, spec_post_tag, spec_pre_tag, spec_segments_from,
    spec_unlabeled_post, spec_unsigned, t_alpha, t_beta, t_dev, t_post, t_pre, t_preview, t_rc,
    SegTok, skip_until, spec_parse_tuple, t_candidate, t_final, tuple_comma, tuple_level_item,
    tuple_num, level_markers,
};
use crate::text::{ascii_lowercase, is_ascii_space, is_ascii_text, lowercased};

verus! {

/// Position `i` ends a number: the text ends there or a non-digit follows.
pub open spec fn number_ends(s: Seq<char>, i: int) -> bool {
    i == s.len() || (0 <= i < s.len() && !is_digit(s[i]))
}

/// The decimal text of `n` stands at `i` and ends a number.
proof fn lemma_unsigned_at(s: Seq<char>, i: int, n: usize)
    requires
        0 <= i,
        i + decimal(n as nat).len() <= s.len(),
        s.subrange(i, i + decimal(n as nat).len()) == decimal(n as nat),
        number_ends(s, i + decimal(n as nat).len()),
    ensures
        spec_unsigned(s, i) == Some((n, i + decimal(n as nat).len())),
{
    let d = decimal(n as nat);
    let j = i + d.len();
    lemma_decimal_digits(n as nat);
    assert forall|k: int| i <= k < j implies is_digit(s[k]) by {
        assert(s[k] == s.subrange(i, j)[k - i]);
    }
    lemma_digit_run(s, i, j);
    assert(digit_run_end(s, j) == j);
}

/// The text of one segment token as the normalized rendering writes it.
pub open spec fn tok_text(t: SegTok) -> Seq<char> {
    match t {
        SegTok::Release(n) => seq!['.'] + decimal(n as nat),
        SegTok::Pre(p) => seq!['.'] + prerelease_text(p),
        SegTok::Post(n) => seq!['.', 'p', 'o', 's', 't'] + decimal(n as nat),
        SegTok::Dev(n) => seq!['.', 'd', 'e', 'v'] + decimal(n as nat),
        SegTok::Local(l) => seq!['+'] + l,
    }
}

pub open spec fn toks_text(ts: Seq<SegTok>) -> Seq<char>
    decreases ts.len(),
{
    if ts.len() == 0 {
        Seq::empty()
    } else {
        tok_text(ts[0]) + toks_text(ts.drop_first())
    }
}

pub open spec fn rank(t: SegTok) -> int {
    match t {
        SegTok::Release(_) => 0,
        SegTok::Pre(_) => 1,
        SegTok::Post(_) => 2,
        SegTok::Dev(_) => 3,
        SegTok::Local(_) => 4,
    }
}

/// Token `t` may follow token `prev`.
pub open spec fn follows(prev: SegTok, t: SegTok) -> bool {
    prev is Release || rank(t) > rank(prev)
}

/// A local identifier that the grammar reads back whole.
pub open spec fn local_ok(l: Seq<char>) -> bool {
    l.len() > 0 && forall|i: int| 0 <= i < l.len() ==> is_local_char(#[trigger] l[i])
}

pub open spec fn tok_ok(t: SegTok) -> bool {
    match t {
        SegTok::Local(l) => local_ok(l),
        _ => true,
    }
}

/// A chain of tokens that may follow `first`, with a local identifier only
/// at the end.
pub open spec fn chain_ok(first: SegTok, ts: Seq<SegTok>) -> bool {
    &&& forall|k: int| 0 <= k < ts.len() ==> tok_ok(#[trigger] ts[k])
    &&& ts.len() > 0 ==> follows(first, ts[0])
    &&& forall|k: int| 0 <= k < ts.len() - 1 ==> follows(#[trigger] ts[k], ts[k + 1])
}

pub open spec fn fold_toks(acc: Pep440Model, ts: Seq<SegTok>) -> Pep440Model
    decreases ts.len(),
{
    if ts.len() == 0 {
        acc
    } else {
        fold_toks(apply_seg(acc, ts[0]), ts.drop_first())
    }
}

proof fn lemma_not_at(s: Seq<char>, tag: Seq<char>, k: int, m: int)
    requires
        0 <= m < tag.len(),
        0 <= k + m < s.len(),
        s[k + m] != tag[m],
    ensures
        !occurs_at(s, tag, k),
{
    if occurs_at(s, tag, k) {
        assert(s.subrange(k, k + tag.len())[m] == s[k + m]);
    }
}

proof fn lemma_at(s: Seq<char>, tag: Seq<char>, k: int)
    requires
        0 <= k,
        k + tag.len() <= s.len(),
        forall|m: int| 0 <= m < tag.len() ==> s[k + m] == tag[m],
    ensures
        occurs_at(s, tag, k),
{
    assert(s.subrange(k, k + tag.len()) =~= tag);
}

/// Nothing follows at the end of the text.
proof fn lemma_next_seg_end(s: Seq<char>, prev: SegTok)
    ensures
        next_seg(s, s.len() as int, prev) is None,
{
    let n = s.len() as int;
    assert(opt_sep(s, n) == n);
    assert(!occurs_at(s, t_alpha(), n));
    assert(!occurs_at(s, seq!['a'], n));
    assert(!occurs_at(s, t_beta(), n));
    assert(!occurs_at(s, seq!['b'], n));
    assert(!occurs_at(s, seq!['c'], n));
    assert(!occurs_at(s, t_rc(), n));
    assert(!occurs_at(s, t_preview(), n));
    assert(!occurs_at(s, t_pre(), n));
    assert(!occurs_at(s, t_post(), n));
    assert(!occurs_at(s, seq!['r'], n));
    assert(!occurs_at(s, t_dev(), n));
}

/// No tag starts with a character that is not a letter of the tags.
proof fn lemma_no_tag_at(s: Seq<char>, k: int)
    requires
        0 <= k < s.len(),
        s[k] != 'a' && s[k] != 'b' && s[k] != 'c' && s[k] != 'r' && s[k] != 'p' && s[k] != 'd',
    ensures
        pre_tag_match(s, k) is None,
        !occurs_at(s, t_post(), k),
        !occurs_at(s, seq!['r'], k),
        !occurs_at(s, t_dev(), k),
{
    lemma_not_at(s, t_alpha(), k, 0);
    lemma_not_at(s, seq!['a'], k, 0);
    lemma_not_at(s, t_beta(), k, 0);
    lemma_not_at(s, seq!['b'], k, 0);
    lemma_not_at(s, seq!['c'], k, 0);
    lemma_not_at(s, t_rc(), k, 0);
    lemma_not_at(s, t_preview(), k, 0);
    lemma_not_at(s, t_pre(), k, 0);
    lemma_not_at(s, t_post(), k, 0);
    lemma_not_at(s, seq!['r'], k, 0);
    lemma_not_at(s, t_dev(), k, 0);
}

proof fn lemma_local_run(s: Seq<char>, i: int)
    requires
        0 <= i <= s.len(),
        forall|k: int| i <= k < s.len() ==> is_local_char(#[trigger] s[k]),
    ensures
        local_run_end(s, i) == s.len(),
    decreases s.len() - i,
{
    if i < s.len() {
        lemma_local_run(s, i + 1);
    }
}

/// The text of a token at `i`, ending at `e`.
pub open spec fn tok_at(s: Seq<char>, i: int, t: SegTok) -> bool {
    0 <= i && i + tok_text(t).len() <= s.len() && s.subrange(i, i + tok_text(t).len()) == tok_text(t)
}

/// After a token's text comes the end of the text, or the start of another
/// token.
pub open spec fn tok_bounded(s: Seq<char>, e: int) -> bool {
    e == s.len() || (0 <= e < s.len() && (s[e] == '.' || s[e] == '+'))
}

proof fn lemma_tok_char(s: Seq<char>, i: int, t: SegTok, m: int)
    requires
        tok_at(s, i, t),
        0 <= m < tok_text(t).len(),
    ensures
        s[i + m] == tok_text(t)[m],
{
    assert(s.subrange(i, i + tok_text(t).len())[m] == s[i + m]);
}

/// The digits of a number within a token.
proof fn lemma_tok_number(s: Seq<char>, i: int, t: SegTok, pre: int, n: usize)
    requires
        tok_at(s, i, t),
        0 <= pre,
        tok_text(t).len() == pre + decimal(n as nat).len(),
        forall|m: int| 0 <= m < decimal(n as nat).len() ==> tok_text(t)[pre + m] == decimal(n as nat)[m],
        tok_bounded(s, i + tok_text(t).len()),
    ensures
        spec_unsigned(s, i + pre) == Some((n, i + tok_text(t).len())),
        opt_unsigned(s, i + pre) == (n, i + tok_text(t).len()),
{
    let d = decimal(n as nat);
    assert forall|m: int| 0 <= m < d.len() implies s.subrange(i + pre, i + pre + d.len())[m] == d[m] by {
        lemma_tok_char(s, i, t, pre + m);
    }
    assert(s.subrange(i + pre, i + pre + d.len()) =~= d);
    lemma_unsigned_at(s, i + pre, n);
}

proof fn lemma_digit_first(n: usize)
    ensures
        is_digit(decimal(n as nat)[0]),
        decimal(n as nat).len() > 0,
{
    lemma_decimal_digits(n as nat);
}

proof fn lemma_release_tok(s: Seq<char>, i: int, n: usize)
    requires
        tok_at(s, i, SegTok::Release(n)),
        tok_bounded(s, i + tok_text(SegTok::Release(n)).len()),
    ensures
        after_release(s, i) == Some((SegTok::Release(n), i + tok_text(SegTok::Release(n)).len())),
{
    let t = SegTok::Release(n);
    let d = decimal(n as nat);
    lemma_digit_first(n);
    lemma_tok_char(s, i, t, 0);
    lemma_tok_char(s, i, t, 1);
    assert(tok_text(t)[1] == d[0]);
    lemma_no_tag_at(s, i + 1);
    assert(opt_sep(s, i) == i + 1);
    assert(spec_pre_tag(s, i) is None);
    assert(spec_post_tag(s, i) is None);
    assert(spec_dev_tag(s, i) is None);
    assert(spec_local(s, i) is None);
    assert(spec_unlabeled_post(s, i) is None);
    lemma_tok_number(s, i, t, 1, n);
}

proof fn lemma_pre_tok(s: Seq<char>, i: int, p: Pep440Prerelease)
    requires
        tok_at(s, i, SegTok::Pre(p)),
        tok_bounded(s, i + tok_text(SegTok::Pre(p)).len()),
    ensures
        spec_pre_tag(s, i) == Some((p, i + tok_text(SegTok::Pre(p)).len())),
{
    let t = SegTok::Pre(p);
    lemma_tok_char(s, i, t, 0);
    assert(opt_sep(s, i) == i + 1);
    let k = i + 1;
    match p {
        Pep440Prerelease::Alpha(n) => {
            lemma_digit_first(n);
            lemma_tok_char(s, i, t, 1);
            lemma_tok_char(s, i, t, 2);
            assert(tok_text(t)[2] == decimal(n as nat)[0]);
            lemma_not_at(s, t_alpha(), k, 1);
            lemma_at(s, seq!['a'], k);
            assert(pre_tag_match(s, k) == Some((0int, 1int)));
            assert(opt_sep(s, k + 1) == k + 1);
            lemma_tok_number(s, i, t, 2, n);
        },
        Pep440Prerelease::Beta(n) => {
            lemma_digit_first(n);
            lemma_tok_char(s, i, t, 1);
            lemma_tok_char(s, i, t, 2);
            assert(tok_text(t)[2] == decimal(n as nat)[0]);
            lemma_not_at(s, t_alpha(), k, 0);
            lemma_not_at(s, seq!['a'], k, 0);
            lemma_not_at(s, t_beta(), k, 1);
            lemma_at(s, seq!['b'], k);
            assert(pre_tag_match(s, k) == Some((1int, 1int)));
            assert(opt_sep(s, k + 1) == k + 1);
            lemma_tok_number(s, i, t, 2, n);
        },
        Pep440Prerelease::Rc(n) => {
            lemma_digit_first(n);
            lemma_tok_char(s, i, t, 1);
            lemma_tok_char(s, i, t, 2);
            lemma_tok_char(s, i, t, 3);
            assert(tok_text(t)[3] == decimal(n as nat)[0]);
            lemma_not_at(s, t_alpha(), k, 0);
            lemma_not_at(s, seq!['a'], k, 0);
            lemma_not_at(s, t_beta(), k, 0);
            lemma_not_at(s, seq!['b'], k, 0);
            lemma_not_at(s, seq!['c'], k, 0);
            lemma_at(s, t_rc(), k);
            assert(pre_tag_match(s, k) == Some((2int, 2int)));
            assert(opt_sep(s, k + 2) == k + 2);
            lemma_tok_number(s, i, t, 3, n);
        },
    }
}

proof fn lemma_post_tok(s: Seq<char>, i: int, n: usize)
    requires
        tok_at(s, i, SegTok::Post(n)),
        tok_bounded(s, i + tok_text(SegTok::Post(n)).len()),
    ensures
        spec_pre_tag(s, i) is None,
        spec_post_tag(s, i) == Some((n, i + tok_text(SegTok::Post(n)).len())),
{
    let t = SegTok::Post(n);
    lemma_digit_first(n);
    lemma_tok_char(s, i, t, 0);
    lemma_tok_char(s, i, t, 1);
    lemma_tok_char(s, i, t, 2);
    lemma_tok_char(s, i, t, 3);
    lemma_tok_char(s, i, t, 4);
    lemma_tok_char(s, i, t, 5);
    assert(tok_text(t)[5] == decimal(n as nat)[0]);
    assert(opt_sep(s, i) == i + 1);
    let k = i + 1;
    lemma_not_at(s, t_alpha(), k, 0);
    lemma_not_at(s, seq!['a'], k, 0);
    lemma_not_at(s, t_beta(), k, 0);
    lemma_not_at(s, seq!['b'], k, 0);
    lemma_not_at(s, seq!['c'], k, 0);
    lemma_not_at(s, t_rc(), k, 0);
    lemma_not_at(s, t_preview(), k, 1);
    lemma_not_at(s, t_pre(), k, 1);
    assert(pre_tag_match(s, k) is None);
    lemma_at(s, t_post(), k);
    assert(opt_sep(s, k + 4) == k + 4);
    lemma_tok_number(s, i, t, 5, n);
}

proof fn lemma_dev_tok(s: Seq<char>, i: int, n: usize)
    requires
        tok_at(s, i, SegTok::Dev(n)),
        tok_bounded(s, i + tok_text(SegTok::Dev(n)).len()),
    ensures
        spec_pre_tag(s, i) is None,
        spec_post_tag(s, i) is None,
        spec_dev_tag(s, i) == Some((n, i + tok_text(SegTok::Dev(n)).len())),
{
    let t = SegTok::Dev(n);
    lemma_digit_first(n);
    lemma_tok_char(s, i, t, 0);
    lemma_tok_char(s, i, t, 1);
    lemma_tok_char(s, i, t, 2);
    lemma_tok_char(s, i, t, 3);
    lemma_tok_char(s, i, t, 4);
    assert(tok_text(t)[4] == decimal(n as nat)[0]);
    assert(opt_sep(s, i) == i + 1);
    let k = i + 1;
    lemma_not_at(s, t_alpha(), k, 0);
    lemma_not_at(s, seq!['a'], k, 0);
    lemma_not_at(s, t_beta(), k, 0);
    lemma_not_at(s, seq!['b'], k, 0);
    lemma_not_at(s, seq!['c'], k, 0);
    lemma_not_at(s, t_rc(), k, 0);
    lemma_not_at(s, t_preview(), k, 0);
    lemma_not_at(s, t_pre(), k, 0);
    lemma_not_at(s, t_post(), k, 0);
    lemma_not_at(s, seq!['r'], k, 0);
    lemma_at(s, t_dev(), k);
    assert(opt_sep(s, k + 3) == k + 3);
    lemma_tok_number(s, i, t, 4, n);
}

proof fn lemma_local_tok(s: Seq<char>, i: int, l: Seq<char>)
    requires
        tok_at(s, i, SegTok::Local(l)),
        local_ok(l),
        i + tok_text(SegTok::Local(l)).len() == s.len(),
    ensures
        spec_pre_tag(s, i) is None,
        spec_post_tag(s, i) is None,
        spec_dev_tag(s, i) is None,
        spec_local(s, i) == Some((l, s.len() as int)),
{
    let t = SegTok::Local(l);
    lemma_tok_char(s, i, t, 0);
    assert(opt_sep(s, i) == i);
    lemma_no_tag_at(s, i);
    assert forall|k: int| i + 1 <= k < s.len() implies is_local_char(#[trigger] s[k]) by {
        lemma_tok_char(s, i, t, k - i);
        assert(tok_text(t)[k - i] == l[k - i - 1]);
    }
    lemma_local_run(s, i + 1);
    assert(s.subrange(i + 1, s.len() as int) =~= l) by {
        assert forall|m: int| 0 <= m < l.len() implies s.subrange(i + 1, s.len() as int)[m] == l[m] by {
            lemma_tok_char(s, i, t, m + 1);
        }
    }
}

/// The token at `i` is the one that the grammar reads next.
proof fn lemma_next_tok(s: Seq<char>, i: int, prev: SegTok, t: SegTok)
    requires
        follows(prev, t),
        tok_ok(t),
        tok_at(s, i, t),
        t is Local ==> i + tok_text(t).len() == s.len(),
        !(t is Local) ==> tok_bounded(s, i + tok_text(t).len()),
    ensures
        next_seg(s, i, prev) == Some((t, i + tok_text(t).len())),
{
    match t {
        SegTok::Release(n) => {
            lemma_release_tok(s, i, n);
        },
        SegTok::Pre(p) => {
            lemma_pre_tok(s, i, p);
        },
        SegTok::Post(n) => {
            lemma_post_tok(s, i, n);
        },
        SegTok::Dev(n) => {
            lemma_dev_tok(s, i, n);
        },
        SegTok::Local(l) => {
            lemma_local_tok(s, i, l);
        },
    }
}

proof fn lemma_tok_text_nonempty(t: SegTok)
    ensures
        tok_text(t).len() > 0,
        tok_text(t)[0] == '.' || tok_text(t)[0] == '+',
{
}

proof fn lemma_toks_text_concat(a: Seq<SegTok>, b: Seq<SegTok>)
    ensures
        toks_text(a + b) == toks_text(a) + toks_text(b),
    decreases a.len(),
{
    if a.len() == 0 {
        assert(a + b =~= b);
    } else {
        assert((a + b).drop_first() =~= a.drop_first() + b);
        lemma_toks_text_concat(a.drop_first(), b);
        assert((a + b)[0] == a[0]);
    }
}

proof fn lemma_fold_concat(acc: Pep440Model, a: Seq<SegTok>, b: Seq<SegTok>)
    ensures
        fold_toks(acc, a + b) == fold_toks(fold_toks(acc, a), b),
    decreases a.len(),
{
    if a.len() == 0 {
        assert(a + b =~= b);
    } else {
        assert((a + b).drop_first() =~= a.drop_first() + b);
        assert((a + b)[0] == a[0]);
        lemma_fold_concat(apply_seg(acc, a[0]), a.drop_first(), b);
    }
}

/// The grammar reads a chain of tokens to the end of the text.
proof fn lemma_segments(s: Seq<char>, i: int, t0: SegTok, acc: Pep440Model, ts: Seq<SegTok>)
    requires
        0 <= i <= s.len(),
        s.subrange(i, s.len() as int) == toks_text(ts),
        chain_ok(t0, ts),
    ensures
        spec_segments_from(s, i, t0, acc) == (fold_toks(apply_seg(acc, t0), ts), s.len() as int),
    decreases ts.len(),
{
    let acc2 = apply_seg(acc, t0);
    if ts.len() == 0 {
        assert(s.subrange(i, s.len() as int).len() == 0);
        lemma_next_seg_end(s, t0);
    } else {
        let t = ts[0];
        let tt = tok_text(t);
        let rest = toks_text(ts.drop_first());
        let e = i + tt.len();
        lemma_tok_text_nonempty(t);
        assert(s.subrange(i, s.len() as int) == tt + rest);
        assert(tok_at(s, i, t)) by {
            assert(s.subrange(i, e) =~= tt) by {
                assert forall|m: int| 0 <= m < tt.len() implies s.subrange(i, e)[m] == tt[m] by {
                    assert(s.subrange(i, s.len() as int)[m] == (tt + rest)[m]);
                }
            }
        }
        assert(s.subrange(e, s.len() as int) =~= rest) by {
            assert forall|m: int| 0 <= m < rest.len() implies s.subrange(e, s.len() as int)[m] == rest[m] by {
                assert(s.subrange(i, s.len() as int)[tt.len() + m] == (tt + rest)[tt.len() + m]);
            }
        }
        if ts.len() > 1 {
            assert(follows(ts[0], ts[1]));
            assert(!(t is Local));
            lemma_tok_text_nonempty(ts[1]);
            assert(ts.drop_first()[0] == ts[1]);
            assert(rest[0] == tok_text(ts[1])[0]);
            assert(s[e] == s.subrange(e, s.len() as int)[0]);
        } else {
            assert(ts.drop_first().len() == 0);
            assert(rest.len() == 0);
        }
        assert(tok_ok(ts[0]));
        lemma_next_tok(s, i, t0, t);
        assert(chain_ok(t, ts.drop_first())) by {
            assert forall|k: int| 0 <= k < ts.drop_first().len() implies tok_ok(#[trigger] ts.drop_first()[k]) by {
                assert(ts.drop_first()[k] == ts[k + 1]);
            }
            assert forall|k: int| 0 <= k < ts.drop_first().len() - 1 implies follows(
                #[trigger] ts.drop_first()[k],
                ts.drop_first()[k + 1],
            ) by {
                assert(ts.drop_first()[k] == ts[k + 1]);
                assert(ts.drop_first()[k + 1] == ts[k + 2]);
            }
        }
        lemma_segments(s, e, t, acc2, ts.drop_first());
    }
}

/// Release tokens for segments.
pub open spec fn release_toks(segs: Seq<usize>) -> Seq<SegTok> {
    segs.map_values(|n: usize| SegTok::Release(n))
}

proof fn lemma_release_text(segs: Seq<usize>)
    ensures
        toks_text(release_toks(segs)) == dotted_tail(segs),
    decreases segs.len(),
{
    if segs.len() > 0 {
        lemma_release_text(segs.drop_last());
        assert(release_toks(segs) =~= release_toks(segs.drop_last()) + seq![SegTok::Release(segs.last())]);
        lemma_toks_text_concat(release_toks(segs.drop_last()), seq![SegTok::Release(segs.last())]);
        lemma_single_text(SegTok::Release(segs.last()));
    } else {
        assert(release_toks(segs) =~= Seq::<SegTok>::empty());
    }
}

proof fn lemma_release_fold(acc: Pep440Model, segs: Seq<usize>)
    ensures
        fold_toks(acc, release_toks(segs)) == (Pep440Model { segments: acc.segments + segs, ..acc }),
    decreases segs.len(),
{
    if segs.len() == 0 {
        assert(release_toks(segs) =~= Seq::<SegTok>::empty());
        assert(acc.segments + segs =~= acc.segments);
    } else {
        assert(release_toks(segs).drop_first() =~= release_toks(segs.drop_first()));
        lemma_release_fold(apply_seg(acc, SegTok::Release(segs[0])), segs.drop_first());
        assert(acc.segments.push(segs[0]) + segs.drop_first() =~= acc.segments + segs);
    }
}

/// The tokens after the release segments.
pub open spec fn marker_toks(v: Pep440Model) -> Seq<SegTok> {
    let a: Seq<SegTok> = match v.pre_release {
        Some(p) => seq![SegTok::Pre(p)],
        None => Seq::empty(),
    };
    let b = match v.post_release {
        Some(n) => a.push(SegTok::Post(n)),
        None => a,
    };
    let c = match v.dev_release {
        Some(n) => b.push(SegTok::Dev(n)),
        None => b,
    };
    match v.local_identifier {
        Some(l) => c.push(SegTok::Local(l)),
        None => c,
    }
}

proof fn lemma_single_text(t: SegTok)
    ensures
        toks_text(seq![t]) == tok_text(t),
{
    assert(seq![t].drop_first() =~= Seq::<SegTok>::empty());
    assert(toks_text(Seq::<SegTok>::empty()) == Seq::<char>::empty());
    assert(seq![t][0] == t);
    assert(tok_text(t) + Seq::<char>::empty() =~= tok_text(t));
}

proof fn lemma_push_text(ts: Seq<SegTok>, t: SegTok)
    ensures
        toks_text(ts.push(t)) == toks_text(ts) + tok_text(t),
{
    assert(ts.push(t) =~= ts + seq![t]);
    lemma_toks_text_concat(ts, seq![t]);
    lemma_single_text(t);
}

proof fn lemma_fold_push(acc: Pep440Model, ts: Seq<SegTok>, t: SegTok)
    ensures
        fold_toks(acc, ts.push(t)) == apply_seg(fold_toks(acc, ts), t),
{
    assert(ts.push(t) =~= ts + seq![t]);
    lemma_fold_concat(acc, ts, seq![t]);
    assert(seq![t].drop_first() =~= Seq::<SegTok>::empty());
    assert(seq![t][0] == t);
    let x = fold_toks(acc, ts);
    assert(fold_toks(apply_seg(x, t), Seq::<SegTok>::empty()) == apply_seg(x, t));
    assert(fold_toks(x, seq![t]) == fold_toks(apply_seg(x, t), seq![t].drop_first()));
}

proof fn lemma_increasing_push(ts: Seq<SegTok>, t: SegTok)
    requires
        increasing(ts),
        ts.len() > 0 ==> rank(ts.last()) < rank(t),
    ensures
        increasing(ts.push(t)),
{
    let c = ts.push(t);
    assert forall|k: int| 0 <= k < c.len() - 1 implies rank(#[trigger] c[k]) < rank(c[k + 1]) by {
        assert(c[k] == ts[k]);
        if k + 1 < ts.len() {
            assert(c[k + 1] == ts[k + 1]);
        } else {
            assert(c[k + 1] == t);
        }
    }
}

/// A version whose normalized text the grammar reads back: it has a
/// release segment, and its local identifier, if any, is non-empty and made
/// of alphanumeric characters and separators.
pub open spec fn readable(v: Pep440Model) -> bool {
    v.wf() && match v.local_identifier {
        Some(l) => local_ok(l),
        None => true,
    }
}

proof fn lemma_marker_text(v: Pep440Model)
    ensures
        toks_text(marker_toks(v)) == markers_text(v) + local_text(v),
{
    let a: Seq<SegTok> = match v.pre_release {
        Some(p) => seq![SegTok::Pre(p)],
        None => Seq::empty(),
    };
    let b = match v.post_release {
        Some(n) => a.push(SegTok::Post(n)),
        None => a,
    };
    let c = match v.dev_release {
        Some(n) => b.push(SegTok::Dev(n)),
        None => b,
    };
    let ta = match v.pre_release {
        Some(p) => seq!['.'] + prerelease_text(p),
        None => Seq::<char>::empty(),
    };
    assert(toks_text(a) == ta) by {
        if let Some(p) = v.pre_release {
            lemma_single_text(SegTok::Pre(p));
        }
    }
    let tb = ta + match v.post_release {
        Some(n) => seq!['.', 'p', 'o', 's', 't'] + decimal(n as nat),
        None => Seq::<char>::empty(),
    };
    assert(toks_text(b) =~= tb) by {
        if let Some(n) = v.post_release {
            lemma_push_text(a, SegTok::Post(n));
        }
    }
    let tc = tb + match v.dev_release {
        Some(n) => seq!['.', 'd', 'e', 'v'] + decimal(n as nat),
        None => Seq::<char>::empty(),
    };
    assert(toks_text(c) =~= tc) by {
        if let Some(n) = v.dev_release {
            lemma_push_text(b, SegTok::Dev(n));
        }
    }
    assert(tc =~= markers_text(v));
    if let Some(l) = v.local_identifier {
        lemma_push_text(c, SegTok::Local(l));
    }
    assert(toks_text(marker_toks(v)) =~= markers_text(v) + local_text(v));
}

/// Ranks strictly increase along a sequence of tokens.
pub open spec fn increasing(ts: Seq<SegTok>) -> bool {
    forall|k: int| 0 <= k < ts.len() - 1 ==> rank(#[trigger] ts[k]) < rank(ts[k + 1])
}

proof fn lemma_marker_shape(v: Pep440Model)
    ensures
        increasing(marker_toks(v)),
        forall|k: int| 0 <= k < marker_toks(v).len() ==> rank(#[trigger] marker_toks(v)[k]) >= 1,
        forall|k: int| 0 <= k < marker_toks(v).len() ==> (#[trigger] marker_toks(v)[k] is Local
            ==> v.local_identifier == Some(marker_toks(v)[k]->Local_0)),
{
    let a: Seq<SegTok> = match v.pre_release {
        Some(p) => seq![SegTok::Pre(p)],
        None => Seq::empty(),
    };
    let b = match v.post_release {
        Some(n) => a.push(SegTok::Post(n)),
        None => a,
    };
    let c = match v.dev_release {
        Some(n) => b.push(SegTok::Dev(n)),
        None => b,
    };
    let m = marker_toks(v);
    assert(increasing(a));
    assert(forall|k: int| 0 <= k < a.len() ==> rank(#[trigger] a[k]) == 1);
    if let Some(n) = v.post_release {
        lemma_increasing_push(a, SegTok::Post(n));
    }
    assert(forall|k: int| 0 <= k < b.len() ==> 1 <= rank(#[trigger] b[k]) <= 2) by {
        assert forall|k: int| 0 <= k < b.len() implies 1 <= rank(#[trigger] b[k]) <= 2 by {
            if k < a.len() {
                assert(b[k] == a[k]);
            }
        }
    }
    if let Some(n) = v.dev_release {
        lemma_increasing_push(b, SegTok::Dev(n));
    }
    assert(forall|k: int| 0 <= k < c.len() ==> 1 <= rank(#[trigger] c[k]) <= 3) by {
        assert forall|k: int| 0 <= k < c.len() implies 1 <= rank(#[trigger] c[k]) <= 3 by {
            if k < b.len() {
                assert(c[k] == b[k]);
            }
        }
    }
    if let Some(l) = v.local_identifier {
        lemma_increasing_push(c, SegTok::Local(l));
    }
    assert forall|k: int| 0 <= k < m.len() implies rank(#[trigger] m[k]) >= 1 && (m[k] is Local
        ==> v.local_identifier == Some(m[k]->Local_0)) by {
        if k < c.len() {
            assert(m[k] == c[k]);
        }
    }
}

proof fn lemma_marker_fold(acc: Pep440Model, v: Pep440Model)
    requires
        acc.pre_release is None,
        acc.post_release is None,
        acc.dev_release is None,
        acc.local_identifier is None,
    ensures
        fold_toks(acc, marker_toks(v)) == (Pep440Model {
            pre_release: v.pre_release,
            post_release: v.post_release,
            dev_release: v.dev_release,
            local_identifier: v.local_identifier,
            ..acc
        }),
{
    let e = Seq::<SegTok>::empty();
    let a: Seq<SegTok> = match v.pre_release {
        Some(p) => seq![SegTok::Pre(p)],
        None => Seq::empty(),
    };
    let b = match v.post_release {
        Some(n) => a.push(SegTok::Post(n)),
        None => a,
    };
    let c = match v.dev_release {
        Some(n) => b.push(SegTok::Dev(n)),
        None => b,
    };
    assert(fold_toks(acc, e) == acc);
    let f1 = fold_toks(acc, a);
    assert(f1 == Pep440Model { pre_release: v.pre_release, ..acc }) by {
        if let Some(p) = v.pre_release {
            assert(a == e.push(SegTok::Pre(p)));
            lemma_fold_push(acc, e, SegTok::Pre(p));
        } else {
            assert(a == e);
        }
    }
    let f2 = fold_toks(acc, b);
    assert(f2 == Pep440Model { post_release: v.post_release, ..f1 }) by {
        if let Some(n) = v.post_release {
            lemma_fold_push(acc, a, SegTok::Post(n));
        }
    }
    let f3 = fold_toks(acc, c);
    assert(f3 == Pep440Model { dev_release: v.dev_release, ..f2 }) by {
        if let Some(n) = v.dev_release {
            lemma_fold_push(acc, b, SegTok::Dev(n));
        }
    }
    let f4 = fold_toks(acc, marker_toks(v));
    assert(f4 == Pep440Model { local_identifier: v.local_identifier, ..f3 }) by {
        if let Some(l) = v.local_identifier {
            lemma_fold_push(acc, c, SegTok::Local(l));
        }
    }
}

/// Reading the normalized text of a PEP-440 version gives the version
/// back, for every version with a release segment whose local identifier,
/// if any, is made of alphanumeric characters and separators.
/// The tokens after the first release number.
pub open spec fn tail_toks(v: Pep440Model) -> Seq<SegTok> {
    release_toks(v.segments.skip(1)) + marker_toks(v)
}

proof fn lemma_render_split(v: Pep440Model)
    requires
        v.wf(),
    ensures
        render(v) == epoch_text(v) + decimal(v.segments[0] as nat) + toks_text(tail_toks(v)),
{
    lemma_release_text(v.segments.skip(1));
    lemma_marker_text(v);
    lemma_toks_text_concat(release_toks(v.segments.skip(1)), marker_toks(v));
    assert(render(v) =~= epoch_text(v) + decimal(v.segments[0] as nat) + toks_text(tail_toks(v)));
}

proof fn lemma_tail_chain(v: Pep440Model)
    requires
        readable(v),
    ensures
        chain_ok(SegTok::Release(v.segments[0]), tail_toks(v)),
{
    let rel = release_toks(v.segments.skip(1));
    let mk = marker_toks(v);
    let ts = tail_toks(v);
    lemma_marker_shape(v);
    assert forall|k: int| 0 <= k < ts.len() implies tok_ok(#[trigger] ts[k]) by {
        if k >= rel.len() {
            assert(ts[k] == mk[k - rel.len()]);
            if mk[k - rel.len()] is Local {
                assert(v.local_identifier == Some(mk[k - rel.len()]->Local_0));
            }
        } else {
            assert(ts[k] == rel[k]);
        }
    }
    assert forall|k: int| 0 <= k < ts.len() - 1 implies follows(#[trigger] ts[k], ts[k + 1]) by {
        if k < rel.len() {
            assert(ts[k] == rel[k]);
        } else {
            assert(ts[k] == mk[k - rel.len()]);
            assert(ts[k + 1] == mk[k + 1 - rel.len()]);
        }
    }
}

/// The front of the text: the epoch and the first release number.
proof fn lemma_render_front(v: Pep440Model)
    requires
        v.wf(),
    ensures
        skip_spaces(render(v), 0) == 0,
        !at_char(render(v), 0, 'v'),
        spec_epoch(render(v), 0) == (v.epoch, epoch_text(v).len() as int),
        spec_unsigned(render(v), epoch_text(v).len() as int) == Some(
            (v.segments[0], epoch_text(v).len() as int + decimal(v.segments[0] as nat).len()),
        ),
{
    lemma_render_split(v);
    let s = render(v);
    let seg0 = v.segments[0];
    let et = epoch_text(v);
    let d0 = decimal(seg0 as nat);
    let tail = toks_text(tail_toks(v));
    let e = et.len() as int;
    let i3 = e + d0.len();
    lemma_decimal_digits(seg0 as nat);
    assert(number_ends(s, i3)) by {
        if tail.len() > 0 {
            let ts = tail_toks(v);
            assert(ts.len() > 0);
            lemma_tok_text_nonempty(ts[0]);
            assert(tail[0] == tok_text(ts[0])[0]);
            assert(s[i3] == tail[0]);
        }
    }
    assert(s.subrange(e, i3) =~= d0);
    lemma_unsigned_at(s, e, seg0);
    if v.epoch != 0 {
        lemma_decimal_digits(v.epoch as nat);
        let de = decimal(v.epoch as nat);
        assert(s[0] == de[0]);
        assert(s.subrange(0, de.len() as int) =~= de);
        assert(s[de.len() as int] == '!');
        lemma_unsigned_at(s, 0, v.epoch);
    } else {
        assert(s[0] == d0[0]);
        assert(!at_char(s, i3, '!'));
    }
}

/// Reading the normalized text of a PEP-440 version gives the version
/// back, for every version with a release segment whose local identifier,
/// if any, is made of alphanumeric characters and separators.
pub proof fn law_pep440_render_parse(v: Pep440Model)
    requires
        readable(v),
    ensures
        spec_parse_pep440(render(v)) == Some(v),
{
    let s = render(v);
    let seg0 = v.segments[0];
    let ts = tail_toks(v);
    lemma_render_split(v);
    lemma_render_front(v);
    lemma_tail_chain(v);
    let i3: int = epoch_text(v).len() as int + decimal(seg0 as nat).len();
    assert(s.subrange(i3, s.len() as int) =~= toks_text(ts));
    lemma_segments(s, i3, SegTok::Release(seg0), empty_model(v.epoch), ts);
    assert(skip_spaces(s, s.len() as int) == s.len());
    let acc1 = apply_seg(empty_model(v.epoch), SegTok::Release(seg0));
    let rel = release_toks(v.segments.skip(1));
    lemma_fold_concat(acc1, rel, marker_toks(v));
    lemma_release_fold(acc1, v.segments.skip(1));
    let acc2 = fold_toks(acc1, rel);
    assert(acc2.segments =~= v.segments);
    lemma_marker_fold(acc2, v);
}


/// Text of ASCII characters none of which is an upper-case letter: text that
/// lower-casing leaves as it is.
pub open spec fn lower_ascii(t: Seq<char>) -> bool {
    forall|i: int| 0 <= i < t.len() ==> (#[trigger] t[i] as u32) < 128 && !('A' <= t[i] && t[i] <= 'Z')
}

proof fn lemma_lower_ascii_concat(a: Seq<char>, b: Seq<char>)
    requires
        lower_ascii(a),
        lower_ascii(b),
    ensures
        lower_ascii(a + b),
{
    assert forall|i: int| 0 <= i < (a + b).len() implies ((#[trigger] (a + b)[i]) as u32) < 128 && !('A' <= (a
        + b)[i] && (a + b)[i] <= 'Z') by {
        if i < a.len() {
            assert((a + b)[i] == a[i]);
        } else {
            assert((a + b)[i] == b[i - a.len()]);
        }
    }
}

proof fn lemma_lower_ascii_decimal(n: nat)
    ensures
        lower_ascii(decimal(n)),
{
    lemma_decimal_digits(n);
    let d = decimal(n);
    assert forall|i: int| 0 <= i < d.len() implies ((#[trigger] d[i]) as u32) < 128 && !('A' <= d[i] && d[i]
        <= 'Z') by {
        assert(is_digit(d[i]));
    }
}

proof fn lemma_lower_ascii_dotted(segs: Seq<usize>)
    ensures
        lower_ascii(dotted_tail(segs)),
    decreases segs.len(),
{
    if segs.len() > 0 {
        lemma_lower_ascii_dotted(segs.drop_last());
        lemma_lower_ascii_decimal(segs.last() as nat);
        lemma_lower_ascii_concat(dotted_tail(segs.drop_last()), seq!['.']);
        lemma_lower_ascii_concat(dotted_tail(segs.drop_last()) + seq!['.'], decimal(segs.last() as nat));
    }
}

/// The rendered text of a version whose local label is lower-case ASCII is
/// lower-case ASCII throughout.
proof fn lemma_lower_ascii_render(v: Pep440Model)
    requires
        v.wf(),
        v.local_identifier matches Some(l) ==> lower_ascii(l),
    ensures
        lower_ascii(render(v)),
{
    lemma_lower_ascii_decimal(v.epoch as nat);
    lemma_lower_ascii_concat(decimal(v.epoch as nat), seq!['!']);
    lemma_lower_ascii_decimal(v.segments[0] as nat);
    lemma_lower_ascii_dotted(v.segments.skip(1));
    lemma_lower_ascii_concat(decimal(v.segments[0] as nat), dotted_tail(v.segments.skip(1)));
    let pre = match v.pre_release {
        Some(p) => seq!['.'] + prerelease_text(p),
        None => Seq::<char>::empty(),
    };
    let post = match v.post_release {
        Some(n) => seq!['.', 'p', 'o', 's', 't'] + decimal(n as nat),
        None => Seq::<char>::empty(),
    };
    let dev = match v.dev_release {
        Some(n) => seq!['.', 'd', 'e', 'v'] + decimal(n as nat),
        None => Seq::<char>::empty(),
    };
    match v.pre_release {
        Some(p) => {
            let n = match p {
                Pep440Prerelease::Alpha(n) => n,
                Pep440Prerelease::Beta(n) => n,
                Pep440Prerelease::Rc(n) => n,
            };
            lemma_lower_ascii_decimal(n as nat);
            let tag: Seq<char> = match p {
                Pep440Prerelease::Alpha(_) => seq!['a'],
                Pep440Prerelease::Beta(_) => seq!['b'],
                Pep440Prerelease::Rc(_) => seq!['r', 'c'],
            };
            assert(prerelease_text(p) == tag + decimal(n as nat));
            lemma_lower_ascii_concat(tag, decimal(n as nat));
            lemma_lower_ascii_concat(seq!['.'], prerelease_text(p));
        },
        None => {},
    }
    match v.post_release {
        Some(n) => {
            lemma_lower_ascii_decimal(n as nat);
            lemma_lower_ascii_concat(seq!['.', 'p', 'o', 's', 't'], decimal(n as nat));
        },
        None => {},
    }
    match v.dev_release {
        Some(n) => {
            lemma_lower_ascii_decimal(n as nat);
            lemma_lower_ascii_concat(seq!['.', 'd', 'e', 'v'], decimal(n as nat));
        },
        None => {},
    }
    assert(markers_text(v) == pre + post + dev);
    lemma_lower_ascii_concat(pre, post);
    lemma_lower_ascii_concat(pre + post, dev);
    match v.local_identifier {
        Some(l) => lemma_lower_ascii_concat(seq!['+'], l),
        None => {},
    }
    lemma_lower_ascii_concat(epoch_text(v), release_text(v));
    lemma_lower_ascii_concat(epoch_text(v) + release_text(v), markers_text(v));
    lemma_lower_ascii_concat(epoch_text(v) + release_text(v) + markers_text(v), local_text(v));
}

/// Lower-casing leaves lower-case ASCII text unchanged.
pub proof fn lemma_lowercased_keeps(t: Seq<char>)
    requires
        lower_ascii(t),
    ensures
        lowercased(t) == t,
{
    assert(is_ascii_text(t));
    assert(ascii_lowercase(t) =~= t);
}

/// The normalized text of a version reads back as that version through the
/// parser's lower-casing too, wherever its local label is lower-case ASCII:
/// what `Pep440Version::parse` gives back on the text that `to_string`
/// writes is the version that was written.
pub proof fn law_pep440_text_roundtrip(v: Pep440Model)
    requires
        readable(v),
        v.local_identifier matches Some(l) ==> lower_ascii(l),
    ensures
        spec_parse_pep440(lowercased(render(v))) == Some(v),
{
    lemma_lower_ascii_render(v);
    lemma_lowercased_keeps(render(v));
    law_pep440_render_parse(v);
}

// ---------------------------------------------------------------------------
// The tuple form

/// A number written at `i`, followed by neither a digit nor a space, reads
/// as that number.
proof fn lemma_tuple_num_at(s: Seq<char>, i: int, n: usize)
    requires
        0 <= i,
        i + decimal(n as nat).len() < s.len(),
        s.subrange(i, i + decimal(n as nat).len()) == decimal(n as nat),
        !is_digit(s[i + decimal(n as nat).len()]),
        !is_ascii_space(s[i + decimal(n as nat).len()]),
    ensures
        tuple_num(s, i) == Some((n, i + decimal(n as nat).len())),
{
    let d = decimal(n as nat);
    lemma_decimal_digits(n as nat);
    assert(s[i] == d[0]);
    assert(is_digit(d[0]));
    assert(skip_spaces(s, i) == i);
    lemma_unsigned_at(s, i, n);
    assert(skip_spaces(s, i + d.len()) == i + d.len());
}

/// A comma and one space, followed by no space.
proof fn lemma_comma_space(s: Seq<char>, i: int)
    requires
        0 <= i,
        i + 2 < s.len(),
        s[i] == ',',
        s[i + 1] == ' ',
        !is_ascii_space(s[i + 2]),
    ensures
        tuple_comma(s, i) == Some(i + 2),
{
    assert(skip_spaces(s, i + 2) == i + 2);
    assert(skip_spaces(s, i + 1) == skip_spaces(s, i + 2));
}

proof fn lemma_skip_until_text(s: Seq<char>, a: int, t: Seq<char>, c: char)
    requires
        0 <= a,
        a + t.len() < s.len(),
        s.subrange(a, a + t.len()) == t,
        forall|k: int| 0 <= k < t.len() ==> t[k] != c,
        s[a + t.len()] == c,
    ensures
        skip_until(s, a, c) == a + t.len(),
    decreases t.len(),
{
    if t.len() > 0 {
        assert(s[a] == t[0]);
        assert(s.subrange(a + 1, a + 1 + t.drop_first().len()) =~= t.drop_first());
        lemma_skip_until_text(s, a + 1, t.drop_first(), c);
    }
}

/// Where the parts of the tuple text of a version stand.
#[verifier::spinoff_prover]
#[verifier::rlimit(50)]
proof fn lemma_tuple_layout(v: Pep440Model)
    requires
        v.wf(),
        expressible_as_tuple(v),
    ensures
        ({
            let s = tuple_text(v);
            let lv = tuple_level(v).unwrap();
            let d0 = decimal(v.segments[0] as nat);
            let d1 = decimal(seg_at(v.segments, 1) as nat);
            let d2 = decimal(seg_at(v.segments, 2) as nat);
            let ds = decimal(lv.1 as nat);
            let o2: int = 1 + d0.len() as int;
            let o4: int = o2 + 2 + d1.len();
            let o6: int = o4 + 2 + d2.len();
            let e: int = o6 + 3 + lv.0.len();
            let f: int = e + 3 + ds.len();
            &&& s.len() == f + 1
            &&& s[0] == '('
            &&& s.subrange(1, o2) == d0
            &&& s[o2] == ',' && s[o2 + 1] == ' '
            &&& s.subrange(o2 + 2, o4) == d1
            &&& s[o4] == ',' && s[o4 + 1] == ' '
            &&& s.subrange(o4 + 2, o6) == d2
            &&& s[o6] == ',' && s[o6 + 1] == ' ' && s[o6 + 2] == '\''
            &&& s.subrange(o6 + 3, e) == lv.0
            &&& s[e] == '\'' && s[e + 1] == ',' && s[e + 2] == ' '
            &&& s.subrange(e + 3, f) == ds
            &&& s[f] == ')'
        }),
{
    let s = tuple_text(v);
    let lv = tuple_level(v).unwrap();
    let d0 = decimal(v.segments[0] as nat);
    let d1 = decimal(seg_at(v.segments, 1) as nat);
    let d2 = decimal(seg_at(v.segments, 2) as nat);
    let ds = decimal(lv.1 as nat);
    let o2: int = 1 + d0.len() as int;
    let o4: int = o2 + 2 + d1.len();
    let o6: int = o4 + 2 + d2.len();
    let e: int = o6 + 3 + lv.0.len();
    let f: int = e + 3 + ds.len();
    assert(s.subrange(1, o2) =~= d0);
    assert(s.subrange(o2 + 2, o4) =~= d1);
    assert(s.subrange(o4 + 2, o6) =~= d2);
    assert(s.subrange(o6 + 3, e) =~= lv.0);
    assert(s.subrange(e + 3, f) =~= ds);
}

/// A text laid out as a tuple literal reads as the version it writes.
#[verifier::spinoff_prover]
#[verifier::rlimit(50)]
proof fn lemma_parse_tuple_layout(s: Seq<char>, a0: usize, a1: usize, a2: usize, lvl: Seq<char>, serial: usize)
    requires
        forall|k: int| 0 <= k < lvl.len() ==> lvl[k] != '\'',
        ({
            let d0 = decimal(a0 as nat);
            let d1 = decimal(a1 as nat);
            let d2 = decimal(a2 as nat);
            let ds = decimal(serial as nat);
            let o2: int = 1 + d0.len() as int;
            let o4: int = o2 + 2 + d1.len();
            let o6: int = o4 + 2 + d2.len();
            let e: int = o6 + 3 + lvl.len();
            let f: int = e + 3 + ds.len();
            &&& s.len() == f + 1
            &&& s[0] == '('
            &&& s.subrange(1, o2) == d0
            &&& s[o2] == ',' && s[o2 + 1] == ' '
            &&& s.subrange(o2 + 2, o4) == d1
            &&& s[o4] == ',' && s[o4 + 1] == ' '
            &&& s.subrange(o4 + 2, o6) == d2
            &&& s[o6] == ',' && s[o6 + 1] == ' ' && s[o6 + 2] == '\''
            &&& s.subrange(o6 + 3, e) == lvl
            &&& s[e] == '\'' && s[e + 1] == ',' && s[e + 2] == ' '
            &&& s.subrange(e + 3, f) == ds
            &&& s[f] == ')'
        }),
    ensures
        spec_parse_tuple(s) == match level_markers(lvl, serial) {
            None => None,
            Some((pre, dev)) => Some(
                Pep440Model {
                    epoch: 0,
                    segments: seq![a0, a1, a2],
                    pre_release: pre,
                    post_release: None,
                    dev_release: dev,
                    local_identifier: None,
                },
            ),
        },
{
    let d0 = decimal(a0 as nat);
    let d1 = decimal(a1 as nat);
    let d2 = decimal(a2 as nat);
    let ds = decimal(serial as nat);
    lemma_decimal_digits(a0 as nat);
    lemma_decimal_digits(a1 as nat);
    lemma_decimal_digits(a2 as nat);
    lemma_decimal_digits(serial as nat);
    let o2: int = 1 + d0.len() as int;
    let o3: int = o2 + 2;
    let o4: int = o3 + d1.len();
    let o5: int = o4 + 2;
    let o6: int = o5 + d2.len();
    let q1: int = o6 + 2;
    let e: int = q1 + 1 + lvl.len();
    assert(s[o3] == s.subrange(o2 + 2, o4)[0]);
    assert(s[o5] == s.subrange(o4 + 2, o6)[0]);
    assert(s[e + 3] == s.subrange(e + 3, e + 3 + ds.len())[0]);
    assert(skip_until(s, 0, '(') == 0);
    lemma_tuple_num_at(s, 1, a0);
    lemma_comma_space(s, o2);
    lemma_tuple_num_at(s, o3, a1);
    lemma_comma_space(s, o4);
    lemma_tuple_num_at(s, o5, a2);
    lemma_comma_space(s, o6);
    lemma_skip_until_text(s, q1 + 1, lvl, '\'');
    assert(tuple_level_item(s, q1) == Some((lvl, e + 1)));
    assert(skip_spaces(s, e + 1) == e + 1);
    lemma_comma_space(s, e + 1);
    lemma_tuple_num_at(s, e + 3, serial);
}

/// Reading back the `sys.version_info` tuple of a version gives the
/// version with its release padded to three numbers, for every version that
/// the tuple form expresses, that has epoch 0 and no local identifier.
#[verifier::spinoff_prover]
#[verifier::rlimit(50)]
pub proof fn law_tuple_render_parse(v: Pep440Model)
    requires
        v.wf(),
        expressible_as_tuple(v),
        v.epoch == 0,
        v.local_identifier is None,
    ensures
        spec_parse_tuple(tuple_text(v)) == Some(
            Pep440Model {
                epoch: 0,
                segments: seq![v.segments[0], seg_at(v.segments, 1) as usize, seg_at(v.segments, 2) as usize],
                pre_release: v.pre_release,
                post_release: None,
                dev_release: v.dev_release,
                local_identifier: None,
            },
        ),
{
    let lv = tuple_level(v).unwrap();
    lemma_tuple_layout(v);
    assert(forall|k: int| 0 <= k < lv.0.len() ==> lv.0[k] != '\'');
    lemma_parse_tuple_layout(
        tuple_text(v),
        v.segments[0],
        seg_at(v.segments, 1) as usize,
        seg_at(v.segments, 2) as usize,
        lv.0,
        lv.1,
    );
    assert(t_alpha() =~= seq!['a', 'l', 'p', 'h', 'a']);
    assert(t_beta() =~= seq!['b', 'e', 't', 'a']);
    assert(t_final() =~= seq!['f', 'i', 'n', 'a', 'l']);
    assert(t_candidate() =~= seq!['c', 'a', 'n', 'd', 'i', 'd', 'a', 't', 'e']);
    assert(t_dev() =~= seq!['d', 'e', 'v']);
}

} // verus!
