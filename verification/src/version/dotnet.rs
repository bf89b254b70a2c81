//! .NET `System.Version` versions.

use vstd::prelude::*;

use crate::errors::Error;
use crate::text::{
    decimal, is_digit, lemma_decimal_digits, all_digits, append_chars, chars_to_string, digits_value, i32_to_chars, lemma_digits_value_push,
    owned, signed_decimal, str_to_chars,
};

verus! {

/// A version compatible with .NET's `System.Version`: four numbers written
/// `{major}.{minor}.{build}.{revision}`.
#[derive(Clone, Copy, Debug, Default, PartialEq, Eq, PartialOrd, Ord, Structural)]
pub struct DotNetVersion {
    pub major: i32,
    pub minor: i32,
    pub build: i32,
    pub revision: i32,
}

/// Splits text at every occurrence of `c`, keeping empty pieces, as
/// `str::split` does with a character pattern.
pub open spec fn split_char(s: Seq<char>, c: char) -> Seq<Seq<char>>
    decreases s.len(),
{
    if s.len() == 0 {
        seq![Seq::empty()]
    } else {
        let rest = split_char(s.drop_last(), c);
        if s.last() == c {
            rest.push(Seq::empty())
        } else {
            rest.update(rest.len() - 1, rest.last().push(s.last()))
        }
    }
}

pub proof fn lemma_split_char_nonempty(s: Seq<char>, c: char)
    ensures
        split_char(s, c).len() > 0,
    decreases s.len(),
{
    if s.len() > 0 {
        lemma_split_char_nonempty(s.drop_last(), c);
    }
}

/// How `i32::from_str` reads text: an optional `+` or `-` followed by at
/// least one ASCII digit, with a value inside the `i32` range.
pub open spec fn spec_parse_i32(t: Seq<char>) -> Option<i32> {
    let signed = t.len() > 0 && (t[0] == '+' || t[0] == '-');
    let ds = if signed {
        t.skip(1)
    } else {
        t
    };
    let v: int = if signed && t[0] == '-' {
        -digits_value(ds)
    } else {
        digits_value(ds) as int
    };
    if ds.len() > 0 && all_digits(ds) && i32::MIN <= v <= i32::MAX {
        Some(v as i32)
    } else {
        None
    }
}

/// The .NET version that text denotes: exactly four dot-separated pieces,
/// each an `i32`.
pub open spec fn spec_parse_dotnet(s: Seq<char>) -> Option<DotNetVersion> {
    let p = split_char(s, '.');
    if p.len() == 4 && spec_parse_i32(p[0]) is Some && spec_parse_i32(p[1]) is Some
        && spec_parse_i32(p[2]) is Some && spec_parse_i32(p[3]) is Some {
        Some(
            DotNetVersion {
                major: spec_parse_i32(p[0]).unwrap(),
                minor: spec_parse_i32(p[1]).unwrap(),
                build: spec_parse_i32(p[2]).unwrap(),
                revision: spec_parse_i32(p[3]).unwrap(),
            },
        )
    } else {
        None
    }
}

/// `{major}.{minor}.{build}.{revision}`.
pub open spec fn render_dotnet(v: DotNetVersion) -> Seq<char> {
    signed_decimal(v.major as int) + seq!['.'] + signed_decimal(v.minor as int) + seq!['.']
        + signed_decimal(v.build as int) + seq!['.'] + signed_decimal(v.revision as int)
}

/// Lexicographic precedence over (major, minor, build, revision): -1, 0 or 1.
pub open spec fn dotnet_order(a: DotNetVersion, b: DotNetVersion) -> int {
    if a.major != b.major {
        if a.major < b.major {
            -1
        } else {
            1
        }
    } else if a.minor != b.minor {
        if a.minor < b.minor {
            -1
        } else {
            1
        }
    } else if a.build != b.build {
        if a.build < b.build {
            -1
        } else {
            1
        }
    } else if a.revision != b.revision {
        if a.revision < b.revision {
            -1
        } else {
            1
        }
    } else {
        0
    }
}

/// Splits characters at every `c`.
pub fn split_chars(s: &Vec<char>, c: char) -> (res: Vec<Vec<char>>)
    ensures
        res@.len() == split_char(s@, c).len(),
        forall|i: int| 0 <= i < res@.len() ==> #[trigger] res@[i]@ == split_char(s@, c)[i],
{
    let mut res: Vec<Vec<char>> = Vec::new();
    let mut cur: Vec<char> = Vec::new();
    let mut i: usize = 0;
    proof {
        assert(s@.subrange(0, 0) =~= Seq::<char>::empty());
    }
    while i < s.len()
        invariant
            i <= s.len(),
            res@.len() + 1 == split_char(s@.subrange(0, i as int), c).len(),
            forall|k: int|
                0 <= k < res@.len() ==> #[trigger] res@[k]@ == split_char(
                    s@.subrange(0, i as int),
                    c,
                )[k],
            cur@ == split_char(s@.subrange(0, i as int), c).last(),
        decreases s.len() - i,
    {
        let ch = s[i];
        proof {
            assert(s@.subrange(0, i + 1).drop_last() =~= s@.subrange(0, i as int));
            lemma_split_char_nonempty(s@.subrange(0, i as int), c);
        }
        if ch == c {
            res.push(cur);
            cur = Vec::new();
        } else {
            cur.push(ch);
        }
        i = i + 1;
    }
    res.push(cur);
    assert(s@.subrange(0, s@.len() as int) =~= s@);
    res
}

fn digit_of(c: char) -> (d: u32)
    requires
        '0' <= c <= '9',
    ensures
        d as int == c as int - '0' as int,
{
    (c as u32) - 48u32
}

/// Reads an `i32` as `i32::from_str` does.
pub fn parse_i32(t: &Vec<char>) -> (res: Option<i32>)
    ensures
        res == spec_parse_i32(t@),
{
    let signed = t.len() > 0 && (t[0] == '+' || t[0] == '-');
    let neg = signed && t[0] == '-';
    let start: usize = if signed {
        1
    } else {
        0
    };
    let ghost ds = if signed {
        t@.skip(1)
    } else {
        t@
    };
    if start >= t.len() {
        assert(ds.len() == 0);
        return None;
    }
    // magnitude accumulated in i64; the limit keeps it from overflowing
    let mut val: i64 = 0;
    let mut i: usize = start;
    let mut too_big = false;
    while i < t.len()
        invariant
            start <= i <= t.len(),
            start == (if signed {
                1int
            } else {
                0int
            }),
            ds == t@.skip(start as int),
            signed == (t@.len() > 0 && (t@[0] == '+' || t@[0] == '-')),
            neg == (signed && t@[0] == '-'),
            ds == (if signed {
                t@.skip(1)
            } else {
                t@
            }),
            all_digits(t@.subrange(start as int, i as int)),
            !too_big ==> val == digits_value(t@.subrange(start as int, i as int)),
            !too_big ==> 0 <= val <= 2147483648,
            too_big ==> digits_value(t@.subrange(start as int, i as int)) > 2147483648,
        decreases t.len() - i,
    {
        let ch = t[i];
        if !('0' <= ch && ch <= '9') {
            assert(ds.len() == t@.len() - start);
            assert(ds[i - start] == ch);
            assert(!crate::text::is_digit(ds[i - start]));
            assert(!all_digits(ds));
            return None;
        }
        let d = digit_of(ch);
        proof {
            assert(t@.subrange(start as int, i + 1) =~= t@.subrange(start as int, i as int).push(
                ch,
            ));
            lemma_digits_value_push(t@.subrange(start as int, i as int), ch);
        }
        if !too_big {
            let nv: i64 = val * 10 + d as i64;
            if nv > 2147483648 {
                too_big = true;
            } else {
                val = nv;
            }
        }
        i = i + 1;
    }
    assert(t@.subrange(start as int, t@.len() as int) =~= ds);
    if too_big {
        return None;
    }
    let v: i64 = if neg {
        -val
    } else {
        val
    };
    if v < -2147483648 || v > 2147483647 {
        None
    } else {
        Some(v as i32)
    }
}

impl DotNetVersion {
    /// Parses `{major}.{minor}.{build}.{revision}`.
    pub fn parse(text: &str) -> (res: Result<DotNetVersion, Error>)
        ensures
            match res {
                Ok(v) => spec_parse_dotnet(text@) == Some(v),
                Err(e) => spec_parse_dotnet(text@) is None && (e matches Error::DotNetSyntax(t)
                    && t@ == text@),
            },
    {
        let chars = str_to_chars(text);
        let pieces = split_chars(&chars, '.');
        if pieces.len() != 4 {
            return Err(Error::DotNetSyntax(owned(text)));
        }
        let a = parse_i32(&pieces[0]);
        let b = parse_i32(&pieces[1]);
        let c = parse_i32(&pieces[2]);
        let d = parse_i32(&pieces[3]);
        match (a, b, c, d) {
            (Some(major), Some(minor), Some(build), Some(revision)) => Ok(
                DotNetVersion { major, minor, build, revision },
            ),
            _ => Err(Error::DotNetSyntax(owned(text))),
        }
    }

    /// The version's text.
    pub fn to_chars(&self) -> (res: Vec<char>)
        ensures
            res@ == render_dotnet(*self),
    {
        let mut out = i32_to_chars(self.major);
        out.push('.');
        let t = i32_to_chars(self.minor);
        append_chars(&mut out, &t);
        out.push('.');
        let t = i32_to_chars(self.build);
        append_chars(&mut out, &t);
        out.push('.');
        let t = i32_to_chars(self.revision);
        append_chars(&mut out, &t);
        assert(out@ =~= render_dotnet(*self));
        out
    }

    /// The version's text, as a string.
    pub fn to_string(&self) -> (res: String)
        ensures
            res@ == render_dotnet(*self),
    {
        let c = self.to_chars();
        chars_to_string(&c)
    }

    /// The version `0.0.0.0`.
    pub fn zero() -> (res: DotNetVersion)
        ensures
            res == (DotNetVersion { major: 0, minor: 0, build: 0, revision: 0 }),
    {
        DotNetVersion { major: 0, minor: 0, build: 0, revision: 0 }
    }

    /// Compares two versions field by field: -1, 0 or 1.
    pub fn compare(&self, other: &DotNetVersion) -> (r: i8)
        ensures
            r as int == dotnet_order(*self, *other),
    {
        if self.major != other.major {
            if self.major < other.major {
                -1
            } else {
                1
            }
        } else if self.minor != other.minor {
            if self.minor < other.minor {
                -1
            } else {
                1
            }
        } else if self.build != other.build {
            if self.build < other.build {
                -1
            } else {
                1
            }
        } else if self.revision != other.revision {
            if self.revision < other.revision {
                -1
            } else {
                1
            }
        } else {
            0
        }
    }
}

impl std::str::FromStr for DotNetVersion {
    type Err = Error;

    fn from_str(s: &str) -> (res: Result<DotNetVersion, Error>)
        ensures
            match spec_parse_dotnet(s@) {
                Some(v) => res == Ok::<DotNetVersion, Error>(v),
                None => res matches Err(Error::DotNetSyntax(t)) && t@ == s@,
            },
    {
        DotNetVersion::parse(s)
    }
}

// ---------------------------------------------------------------------------
// Laws

proof fn lemma_parse_i32_rendered(n: i32)
    ensures
        spec_parse_i32(signed_decimal(n as int)) == Some(n),
{
    if n >= 0 {
        lemma_decimal_digits(n as nat);
        let t = decimal(n as nat);
        assert(is_digit(t[0]));
    } else {
        let m = (-(n as int)) as nat;
        lemma_decimal_digits(m);
        let t = seq!['-'] + decimal(m);
        assert(t[0] == '-');
        assert(t.skip(1) =~= decimal(m));
    }
}

/// A text without separators is one piece.
proof fn lemma_split_char_single(s: Seq<char>, c: char)
    requires
        forall|i: int| 0 <= i < s.len() ==> s[i] != c,
    ensures
        split_char(s, c) == seq![s],
    decreases s.len(),
{
    if s.len() > 0 {
        lemma_split_char_single(s.drop_last(), c);
        assert(s.drop_last().push(s.last()) =~= s);
    } else {
        assert(s =~= Seq::<char>::empty());
    }
}

/// Appending a separator and a piece without separators adds that piece.
proof fn lemma_split_char_append(x: Seq<char>, y: Seq<char>, c: char)
    requires
        forall|i: int| 0 <= i < y.len() ==> y[i] != c,
    ensures
        split_char(x + seq![c] + y, c) == split_char(x, c).push(y),
    decreases y.len(),
{
    if y.len() == 0 {
        assert(x + seq![c] + y =~= x.push(c));
        assert((x + seq![c] + y).drop_last() =~= x);
        assert(y =~= Seq::<char>::empty());
    } else {
        let y2 = y.drop_last();
        lemma_split_char_append(x, y2, c);
        let whole = x + seq![c] + y;
        assert(whole.drop_last() =~= x + seq![c] + y2);
        assert(whole.last() == y.last());
        lemma_split_char_nonempty(whole.drop_last(), c);
        assert(y2.push(y.last()) =~= y);
        assert(split_char(x, c).push(y2).update(split_char(x, c).len() as int, y) =~= split_char(x, c).push(y));
        assert(y.last() != c);
    }
}

proof fn lemma_signed_decimal_no_dot(n: i32)
    ensures
        forall|i: int| 0 <= i < signed_decimal(n as int).len() ==> signed_decimal(n as int)[i] != '.',
{
    let t = signed_decimal(n as int);
    if n >= 0 {
        lemma_decimal_digits(n as nat);
        assert forall|i: int| 0 <= i < t.len() implies t[i] != '.' by {
            assert(is_digit(t[i]));
        }
    } else {
        let m = (-(n as int)) as nat;
        lemma_decimal_digits(m);
        assert forall|i: int| 0 <= i < t.len() implies t[i] != '.' by {
            if i > 0 {
                assert(t[i] == decimal(m)[i - 1]);
                assert(is_digit(decimal(m)[i - 1]));
            }
        }
    }
}

/// Reading the text of a .NET version gives the version back.
pub proof fn law_dotnet_render_parse(v: DotNetVersion)
    ensures
        spec_parse_dotnet(render_dotnet(v)) == Some(v),
{
    let a = signed_decimal(v.major as int);
    let b = signed_decimal(v.minor as int);
    let c = signed_decimal(v.build as int);
    let d = signed_decimal(v.revision as int);
    lemma_signed_decimal_no_dot(v.major);
    lemma_signed_decimal_no_dot(v.minor);
    lemma_signed_decimal_no_dot(v.build);
    lemma_signed_decimal_no_dot(v.revision);
    lemma_split_char_single(a, '.');
    lemma_split_char_append(a, b, '.');
    lemma_split_char_append(a + seq!['.'] + b, c, '.');
    lemma_split_char_append(a + seq!['.'] + b + seq!['.'] + c, d, '.');
    let p = split_char(render_dotnet(v), '.');
    assert(p =~= seq![a, b, c, d]);
    lemma_parse_i32_rendered(v.major);
    lemma_parse_i32_rendered(v.minor);
    lemma_parse_i32_rendered(v.build);
    lemma_parse_i32_rendered(v.revision);
}

} // verus!
