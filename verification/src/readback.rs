//! What the text that the release workflow writes gives back when it is
//! read: the information blocks of commits, and drafted changelogs.

use vstd::prelude::*;

use crate::changelog::{curly_formatted, spec_rc_bump, summary_lines};
use crate::repository::{block_body, info_block, spec_info_message};
use crate::text::{leading_space, lines_of, occurs_at, split_on, strip_cr, trailing_space, trim};

verus! {

/// Lines, each followed by a newline.
pub open spec fn joined_lines(ls: Seq<Seq<char>>) -> Seq<char>
    decreases ls.len(),
{
    if ls.len() == 0 {
        Seq::empty()
    } else {
        ls[0] + seq!['\n'] + joined_lines(ls.drop_first())
    }
}

proof fn lemma_split_concat(a: Seq<char>, b: Seq<char>, c: char)
    ensures
        split_on(a + seq![c] + b, c) == split_on(a, c) + split_on(b, c),
    decreases b.len(),
{
    let s = a + seq![c] + b;
    if b.len() == 0 {
        assert(s.drop_last() =~= a);
        assert(split_on(b, c) =~= seq![Seq::<char>::empty()]);
        assert(split_on(s, c) =~= split_on(a, c) + split_on(b, c));
    } else {
        let b1 = b.drop_last();
        assert(s.drop_last() =~= a + seq![c] + b1);
        lemma_split_concat(a, b1, c);
        crate::text::lemma_split_on_nonempty(b1, c);
        crate::text::lemma_split_on_nonempty(a, c);
        assert(s.last() == b.last());
        let ra = split_on(a, c);
        let rb = split_on(b1, c);
        if b.last() == c {
            assert(split_on(s, c) =~= ra + split_on(b, c));
        } else {
            assert((ra + rb).last() == rb.last());
            assert((ra + rb).update((ra + rb).len() - 1, (ra + rb).last().push(b.last())) =~= ra + rb.update(
                rb.len() - 1,
                rb.last().push(b.last()),
            ));
        }
    }
}

proof fn lemma_split_free(a: Seq<char>, c: char)
    requires
        forall|i: int| 0 <= i < a.len() ==> a[i] != c,
    ensures
        split_on(a, c) == seq![a],
    decreases a.len(),
{
    if a.len() > 0 {
        lemma_split_free(a.drop_last(), c);
        assert(a.drop_last().push(a.last()) =~= a);
        assert(seq![a.drop_last()].update(0, a.drop_last().push(a.last())) =~= seq![a]);
    } else {
        assert(a =~= Seq::<char>::empty());
    }
}

proof fn lemma_split_pieces_lack(a: Seq<char>, c: char, d: char)
    requires
        forall|i: int| 0 <= i < a.len() ==> a[i] != d,
    ensures
        forall|k: int, i: int|
            0 <= k < split_on(a, c).len() && 0 <= i < split_on(a, c)[k].len() ==> split_on(a, c)[k][i] != d,
    decreases a.len(),
{
    if a.len() > 0 {
        lemma_split_pieces_lack(a.drop_last(), c, d);
        crate::text::lemma_split_on_nonempty(a.drop_last(), c);
    }
}

proof fn lemma_joined_push(ls: Seq<Seq<char>>, l: Seq<char>)
    ensures
        joined_lines(ls.push(l)) == joined_lines(ls) + l + seq!['\n'],
    decreases ls.len(),
{
    if ls.len() == 0 {
        assert(ls.push(l).drop_first() =~= Seq::<Seq<char>>::empty());
        assert(ls.push(l)[0] == l);
        assert(joined_lines(Seq::<Seq<char>>::empty()) == Seq::<char>::empty());
        assert(joined_lines(ls) == Seq::<char>::empty());
        assert(joined_lines(ls.push(l)) =~= joined_lines(ls) + l + seq!['\n']);
    } else {
        assert(ls.push(l).drop_first() =~= ls.drop_first().push(l));
        assert(ls.push(l)[0] == ls[0]);
        lemma_joined_push(ls.drop_first(), l);
        assert(joined_lines(ls.push(l)) =~= joined_lines(ls) + l + seq!['\n']);
    }
}

proof fn lemma_joined_split(b: Seq<char>)
    ensures
        joined_lines(split_on(b, '\n')) == b + seq!['\n'],
    decreases b.len(),
{
    if b.len() == 0 {
        let e = Seq::<char>::empty();
        assert(seq![e].drop_first() =~= Seq::<Seq<char>>::empty());
        assert(joined_lines(Seq::<Seq<char>>::empty()) == Seq::<char>::empty());
        assert(seq![e][0] == e);
        assert(b =~= e);
        assert(joined_lines(seq![e]) =~= b + seq!['\n']);
    } else {
        let b1 = b.drop_last();
        lemma_joined_split(b1);
        let ys = split_on(b1, '\n');
        crate::text::lemma_split_on_nonempty(b1, '\n');
        if b.last() == '\n' {
            lemma_joined_push(ys, Seq::empty());
            assert(b1 + seq!['\n'] + Seq::<char>::empty() + seq!['\n'] =~= b + seq!['\n']);
        } else {
            let n = ys.len();
            let ys2 = ys.update(n - 1, ys.last().push(b.last()));
            assert(ys2 =~= ys.drop_last().push(ys.last().push(b.last())));
            assert(ys =~= ys.drop_last().push(ys.last()));
            lemma_joined_push(ys.drop_last(), ys.last());
            lemma_joined_push(ys.drop_last(), ys.last().push(b.last()));
            let j = joined_lines(ys.drop_last());
            assert(joined_lines(ys) == j + ys.last() + seq!['\n']);
            assert(j + ys.last() + seq!['\n'] == b1 + seq!['\n']);
            let w = j + ys.last();
            assert((w + seq!['\n']).drop_last() =~= w);
            assert((b1 + seq!['\n']).drop_last() =~= b1);
            assert(w == b1);
            assert(b.drop_last() =~= b1);
            assert(split_on(b, '\n') == ys2);
            assert(j + ys.last().push(b.last()) + seq!['\n'] =~= w.push(b.last()) + seq!['\n']);
            assert(b =~= b1.push(b.last()));
        }
    }
}

proof fn lemma_block_body_closed(xs: Seq<Seq<char>>)
    requires
        forall|k: int| 0 <= k < xs.len() ==> xs[k] != seq!['+', '+', '+'],
    ensures
        block_body(xs + seq![seq!['+', '+', '+']]) == (joined_lines(xs), false),
    decreases xs.len(),
{
    let t = seq![seq!['+', '+', '+']];
    if xs.len() == 0 {
        assert(xs + t =~= t);
        assert(t.drop_first() =~= Seq::<Seq<char>>::empty());
    } else {
        assert((xs + t).drop_first() =~= xs.drop_first() + t);
        assert((xs + t)[0] == xs[0]);
        lemma_block_body_closed(xs.drop_first());
    }
}

proof fn lemma_message_split(summary: Seq<char>, marker: Seq<char>, body: Seq<char>)
    requires
        forall|i: int| 0 <= i < summary.len() ==> summary[i] != '\n',
        forall|i: int| 0 <= i < marker.len() ==> marker[i] != '\n',
    ensures
        split_on(spec_info_message(summary, marker, body), '\n') == seq![summary, Seq::<char>::empty(), marker]
            + split_on(body, '\n') + seq![seq!['+', '+', '+'], Seq::<char>::empty()],
{
    reveal_strlit("\n\n");
    reveal_strlit("\n");
    reveal_strlit("\n+++\n");
    let nl = '\n';
    let e = Seq::<char>::empty();
    let plus = seq!['+', '+', '+'];
    let m = spec_info_message(summary, marker, body);
    let r4 = plus + seq![nl] + e;
    let r3 = body + seq![nl] + r4;
    let r2 = marker + seq![nl] + r3;
    let r1 = e + seq![nl] + r2;
    assert(m =~= summary + seq![nl] + r1);
    lemma_split_concat(summary, r1, nl);
    lemma_split_concat(e, r2, nl);
    lemma_split_concat(marker, r3, nl);
    lemma_split_concat(body, r4, nl);
    lemma_split_concat(plus, e, nl);
    lemma_split_free(summary, nl);
    lemma_split_free(e, nl);
    lemma_split_free(marker, nl);
    lemma_split_free(plus, nl);
    assert(split_on(m, nl) =~= seq![summary, e, marker] + split_on(body, nl) + seq![plus, e]);
}

proof fn lemma_message_lines(summary: Seq<char>, marker: Seq<char>, body: Seq<char>)
    requires
        forall|i: int| 0 <= i < summary.len() ==> summary[i] != '\n' && summary[i] != '\r',
        marker.len() > 0,
        forall|i: int| 0 <= i < marker.len() ==> marker[i] != '\n' && marker[i] != '\r',
        forall|i: int| 0 <= i < body.len() ==> body[i] != '\r',
    ensures
        lines_of(spec_info_message(summary, marker, body)) == seq![summary, Seq::<char>::empty(), marker]
            + split_on(body, '\n') + seq![seq!['+', '+', '+']],
{
    let nl = '\n';
    let e = Seq::<char>::empty();
    let plus = seq!['+', '+', '+'];
    let m = spec_info_message(summary, marker, body);
    lemma_message_split(summary, marker, body);
    let sb = split_on(body, nl);
    let p = split_on(m, nl);
    assert(p.last() == e);
    let q = p.drop_last();
    assert(q =~= seq![summary, e, marker] + sb + seq![plus]);
    lemma_split_pieces_lack(body, nl, '\r');
    let ls = lines_of(m);
    assert forall|k: int| 0 <= k < q.len() implies strip_cr(q[k]) == q[k] by {
        if 3 <= k < 3 + sb.len() {
            assert(q[k] == sb[k - 3]);
            if q[k].len() > 0 {
                assert(q[k].last() != '\r');
            }
        } else if k == 0 {
            if summary.len() > 0 {
                assert(summary.last() != '\r');
            }
        } else if k == 2 {
            assert(marker.last() != '\r');
        }
    }
    assert(ls =~= q);
}

/// The information block of a message written with an information block
/// reads back as the block's text followed by a newline, and as terminated,
/// where the summary is one line that does not begin with the marker, the
/// marker is one non-empty line, the text holds no carriage return and no
/// line of it is exactly `+++`.
pub proof fn law_info_block_roundtrip(summary: Seq<char>, marker: Seq<char>, body: Seq<char>)
    requires
        forall|i: int| 0 <= i < summary.len() ==> summary[i] != '\n' && summary[i] != '\r',
        !occurs_at(summary, marker, 0),
        marker.len() > 0,
        forall|i: int| 0 <= i < marker.len() ==> marker[i] != '\n' && marker[i] != '\r',
        forall|i: int| 0 <= i < body.len() ==> body[i] != '\r',
        forall|k: int| 0 <= k < split_on(body, '\n').len() ==> split_on(body, '\n')[k] != seq!['+', '+', '+'],
    ensures
        info_block(lines_of(spec_info_message(summary, marker, body)), marker) == (body + seq!['\n'], false),
{
    let e = Seq::<char>::empty();
    let plus = seq!['+', '+', '+'];
    let sb = split_on(body, '\n');
    lemma_message_lines(summary, marker, body);
    let ls = lines_of(spec_info_message(summary, marker, body));
    assert(ls[0] == summary);
    assert(!occurs_at(e, marker, 0));
    assert(occurs_at(marker, marker, 0)) by {
        assert(marker.subrange(0, marker.len() as int) =~= marker);
    }
    assert(ls.drop_first() =~= seq![e, marker] + sb + seq![plus]);
    assert(ls.drop_first()[0] == e);
    assert(ls.drop_first().drop_first() =~= seq![marker] + sb + seq![plus]);
    assert(ls.drop_first().drop_first()[0] == marker);
    assert(ls.drop_first().drop_first().drop_first() =~= sb + seq![plus]);
    let l1 = ls.drop_first();
    let l2 = l1.drop_first();
    let l3 = l2.drop_first();
    assert(info_block(ls, marker) == info_block(l1, marker));
    assert(info_block(l1, marker) == info_block(l2, marker));
    assert(info_block(l2, marker) == block_body(l3));
    lemma_block_body_closed(sb);
    lemma_joined_split(body);
}

proof fn lemma_first_line(a: Seq<char>, b: Seq<char>)
    requires
        forall|i: int| 0 <= i < a.len() ==> a[i] != '\n' && a[i] != '\r',
    ensures
        lines_of(a + seq!['\n'] + b).len() > 0,
        lines_of(a + seq!['\n'] + b)[0] == a,
{
    lemma_split_concat(a, b, '\n');
    lemma_split_free(a, '\n');
    crate::text::lemma_split_on_nonempty(b, '\n');
    let p = split_on(a + seq!['\n'] + b, '\n');
    assert(p.len() >= 2);
    assert(p[0] == a);
    if a.len() > 0 {
        assert(a.last() != '\r');
    }
}

/// A changelog whose pending section was drafted with a header template
/// that the formatter fills in as `# rc: micro bump` and a newline, written
/// one element of the section per line in front of the earlier text, reads
/// back as a release request for a micro bump.
pub proof fn law_drafted_request_reads_back(
    header: Seq<char>,
    footer: Seq<char>,
    summaries: Seq<Seq<char>>,
    earlier: Seq<char>,
)
    requires
        curly_formatted(header, seq![("bump_spec"@, "micro bump"@)]) == Some("# rc: micro bump\n"@),
        curly_formatted(footer, seq![("bump_spec"@, "micro bump"@)]) is Some,
    ensures
        ({
            let f = curly_formatted(footer, seq![("bump_spec"@, "micro bump"@)]).unwrap();
            let section = seq!["# rc: micro bump\n"@] + summary_lines(summaries) + seq![f];
            spec_rc_bump(lines_of(joined_lines(section) + earlier)) == Some("micro bump"@)
        }),
{
    reveal_strlit("# rc: micro bump\n");
    reveal_strlit("# rc:");
    reveal_strlit("micro bump");
    reveal_strlit("# rc: micro bump");
    let f = curly_formatted(footer, seq![("bump_spec"@, "micro bump"@)]).unwrap();
    let h = "# rc: micro bump\n"@;
    let section = seq![h] + summary_lines(summaries) + seq![f];
    let a = "# rc: micro bump"@;
    assert(a.len() == 16);
    assert(h =~= a + seq!['\n']);
    assert(section[0] == h);
    let rest = joined_lines(section.drop_first()) + earlier;
    assert(joined_lines(section) + earlier =~= a + seq!['\n'] + (seq!['\n'] + rest));
    lemma_first_line(a, seq!['\n'] + rest);
    let ls = lines_of(joined_lines(section) + earlier);
    assert(ls[0] == a);
    assert(occurs_at(a, "# rc:"@, 0)) by {
        assert(a.subrange(0, 5) =~= "# rc:"@);
    }
    let t = a.skip(5);
    assert(t =~= seq![' '] + "micro bump"@);
    let m = "micro bump"@;
    assert(leading_space(m) == 0);
    assert(t.drop_first() =~= m);
    assert(leading_space(t) == 1);
    assert(t.skip(1) =~= m);
    assert(trailing_space(m) == 0);
    assert(trim(t) =~= m);
    assert(leading_space(a) == 0);
    assert(trailing_space(a) == 0);
    assert(trim(a) =~= a);
}

} // verus!
