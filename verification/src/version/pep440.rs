//! Python PEP-440 versions: representation, rendering, ordering and the
//! `sys.version_info` tuple form.

use vstd::prelude::*;

use crate::errors::Error;
use crate::text::{append_chars, chars_to_string, decimal, str_to_chars, usize_to_chars};

verus! {

/// A pre-release marker of a PEP-440 version.
#[derive(Clone, Copy, Debug, PartialEq, Eq, Structural)]
pub enum Pep440Prerelease {
    Alpha(usize),
    Beta(usize),
    Rc(usize),
}

/// A version compatible with the Python PEP-440 specification.
///
/// Versions are stored in normalized form; the text they came from is not
/// necessarily reproduced when they are rendered again.
#[derive(Clone, Debug)]
pub struct Pep440Version {
    pub epoch: usize,
    pub segments: Vec<usize>,
    pub pre_release: Option<Pep440Prerelease>,
    pub post_release: Option<usize>,
    pub dev_release: Option<usize>,
    pub local_identifier: Option<String>,
}

/// The mathematical model of a PEP-440 version.
pub struct Pep440Model {
    pub epoch: usize,
    pub segments: Seq<usize>,
    pub pre_release: Option<Pep440Prerelease>,
    pub post_release: Option<usize>,
    pub dev_release: Option<usize>,
    pub local_identifier: Option<Seq<char>>,
}

pub open spec fn opt_string_view(o: Option<String>) -> Option<Seq<char>> {
    match o {
        Some(s) => Some(s@),
        None => None,
    }
}

impl View for Pep440Version {
    type V = Pep440Model;

    open spec fn view(&self) -> Pep440Model {
        Pep440Model {
            epoch: self.epoch,
            segments: self.segments@,
            pre_release: self.pre_release,
            post_release: self.post_release,
            dev_release: self.dev_release,
            local_identifier: opt_string_view(self.local_identifier),
        }
    }
}

impl Pep440Model {
    /// A version can be rendered only if it has at least one release segment.
    pub open spec fn wf(self) -> bool {
        self.segments.len() > 0
    }
}

// ---------------------------------------------------------------------------
// Rendering

pub open spec fn prerelease_text(p: Pep440Prerelease) -> Seq<char> {
    match p {
        Pep440Prerelease::Alpha(n) => seq!['a'] + decimal(n as nat),
        Pep440Prerelease::Beta(n) => seq!['b'] + decimal(n as nat),
        Pep440Prerelease::Rc(n) => seq!['r', 'c'] + decimal(n as nat),
    }
}

/// `.n1.n2...` for the release segments after the first.
pub open spec fn dotted_tail(segs: Seq<usize>) -> Seq<char>
    decreases segs.len(),
{
    if segs.len() == 0 {
        Seq::empty()
    } else {
        dotted_tail(segs.drop_last()) + seq!['.'] + decimal(segs.last() as nat)
    }
}

pub open spec fn epoch_text(v: Pep440Model) -> Seq<char> {
    if v.epoch != 0 {
        decimal(v.epoch as nat) + seq!['!']
    } else {
        Seq::empty()
    }
}

pub open spec fn release_text(v: Pep440Model) -> Seq<char>
    recommends
        v.wf(),
{
    decimal(v.segments[0] as nat) + dotted_tail(v.segments.skip(1))
}

pub open spec fn markers_text(v: Pep440Model) -> Seq<char> {
    (match v.pre_release {
        Some(p) => seq!['.'] + prerelease_text(p),
        None => Seq::empty(),
    }) + (match v.post_release {
        Some(n) => seq!['.', 'p', 'o', 's', 't'] + decimal(n as nat),
        None => Seq::empty(),
    }) + (match v.dev_release {
        Some(n) => seq!['.', 'd', 'e', 'v'] + decimal(n as nat),
        None => Seq::empty(),
    })
}

pub open spec fn local_text(v: Pep440Model) -> Seq<char> {
    match v.local_identifier {
        Some(l) => seq!['+'] + l,
        None => Seq::empty(),
    }
}

/// The normalized text of a version:
/// `[{epoch}!]{n1}[.{n2}...][.{pre}][.post{n}][.dev{n}][+{local}]`.
pub open spec fn render(v: Pep440Model) -> Seq<char>
    recommends
        v.wf(),
{
    epoch_text(v) + release_text(v) + markers_text(v) + local_text(v)
}

fn push_str_chars(dst: &mut Vec<char>, lit: &[char])
    ensures
        final(dst)@ == old(dst)@ + lit@,
{
    let mut i: usize = 0;
    while i < lit.len()
        invariant
            i <= lit.len(),
            dst@ =~= old(dst)@ + lit@.subrange(0, i as int),
        decreases lit.len() - i,
    {
        dst.push(lit[i]);
        i = i + 1;
    }
    assert(lit@.subrange(0, lit@.len() as int) =~= lit@);
}

impl Pep440Prerelease {
    /// Renders the marker as `a{n}`, `b{n}` or `rc{n}`.
    pub fn to_chars(&self) -> (res: Vec<char>)
        ensures
            res@ == prerelease_text(*self),
    {
        let mut out: Vec<char> = Vec::new();
        let n = match *self {
            Pep440Prerelease::Alpha(n) => {
                out.push('a');
                n
            },
            Pep440Prerelease::Beta(n) => {
                out.push('b');
                n
            },
            Pep440Prerelease::Rc(n) => {
                out.push('r');
                out.push('c');
                n
            },
        };
        let digits = usize_to_chars(n);
        append_chars(&mut out, &digits);
        assert(out@ =~= prerelease_text(*self));
        out
    }
}

impl Pep440Version {
    fn epoch_chars(&self) -> (res: Vec<char>)
        ensures
            res@ == epoch_text(self@),
    {
        let mut out: Vec<char> = Vec::new();
        if self.epoch != 0 {
            out = usize_to_chars(self.epoch);
            out.push('!');
        }
        out
    }

    fn release_chars(&self) -> (res: Vec<char>)
        requires
            self@.wf(),
        ensures
            res@ == release_text(self@),
    {
        let mut out = usize_to_chars(self.segments[0]);
        let ghost base = out@;
        let mut i: usize = 1;
        while i < self.segments.len()
            invariant
                1 <= i <= self.segments.len(),
                out@ == base + dotted_tail(self.segments@.subrange(1, i as int)),
            decreases self.segments.len() - i,
        {
            out.push('.');
            let d = usize_to_chars(self.segments[i]);
            append_chars(&mut out, &d);
            proof {
                let t = self.segments@.subrange(1, i + 1);
                assert(t.drop_last() =~= self.segments@.subrange(1, i as int));
                assert(out@ =~= base + dotted_tail(t));
            }
            i = i + 1;
        }
        assert(self.segments@.subrange(1, self.segments@.len() as int) =~= self.segments@.skip(
            1,
        ));
        out
    }

    fn markers_chars(&self) -> (res: Vec<char>)
        ensures
            res@ == markers_text(self@),
    {
        let mut out: Vec<char> = Vec::new();
        if let Some(p) = self.pre_release {
            out.push('.');
            let t = p.to_chars();
            append_chars(&mut out, &t);
        }
        let ghost a = out@;
        if let Some(n) = self.post_release {
            push_str_chars(&mut out, &['.', 'p', 'o', 's', 't']);
            let d = usize_to_chars(n);
            append_chars(&mut out, &d);
        }
        let ghost b = out@;
        if let Some(n) = self.dev_release {
            push_str_chars(&mut out, &['.', 'd', 'e', 'v']);
            let d = usize_to_chars(n);
            append_chars(&mut out, &d);
        }
        assert(out@ =~= markers_text(self@));
        out
    }

    fn local_chars(&self) -> (res: Vec<char>)
        ensures
            res@ == local_text(self@),
    {
        let mut out: Vec<char> = Vec::new();
        if let Some(l) = &self.local_identifier {
            out.push('+');
            let lc = str_to_chars(l.as_str());
            append_chars(&mut out, &lc);
        }
        assert(out@ =~= local_text(self@));
        out
    }

    /// The version's normalized text.
    pub fn to_chars(&self) -> (res: Vec<char>)
        requires
            self@.wf(),
        ensures
            res@ == render(self@),
    {
        let mut out = self.epoch_chars();
        let r = self.release_chars();
        append_chars(&mut out, &r);
        let m = self.markers_chars();
        append_chars(&mut out, &m);
        let l = self.local_chars();
        append_chars(&mut out, &l);
        out
    }

    /// The version's normalized text, as a string.
    pub fn to_string(&self) -> (res: String)
        requires
            self@.wf(),
        ensures
            res@ == render(self@),
    {
        let c = self.to_chars();
        chars_to_string(&c)
    }

    /// The all-zero version `0`.
    pub fn zero() -> (res: Pep440Version)
        ensures
            res@ == zero_model(),
    {
        let mut segments: Vec<usize> = Vec::new();
        segments.push(0);
        Pep440Version {
            epoch: 0,
            segments,
            pre_release: None,
            post_release: None,
            dev_release: None,
            local_identifier: None,
        }
    }
}

pub open spec fn zero_model() -> Pep440Model {
    Pep440Model {
        epoch: 0,
        segments: seq![0usize],
        pre_release: None,
        post_release: None,
        dev_release: None,
        local_identifier: None,
    }
}

// ---------------------------------------------------------------------------
// Ordering and equality

/// The release segment at position `i`, with absent positions read as zero.
pub open spec fn seg_at(s: Seq<usize>, i: int) -> int {
    if 0 <= i < s.len() {
        s[i] as int
    } else {
        0
    }
}

pub open spec fn order_int(a: int, b: int) -> int {
    if a < b {
        -1
    } else if a > b {
        1
    } else {
        0
    }
}

/// Compares release segments from position `i` on, zero-padding the shorter.
pub open spec fn compare_segments_from(a: Seq<usize>, b: Seq<usize>, i: nat) -> int
    decreases (if a.len() > b.len() {
        a.len()
    } else {
        b.len()
    }) - i,
{
    if i >= a.len() && i >= b.len() {
        0
    } else if seg_at(a, i as int) != seg_at(b, i as int) {
        order_int(seg_at(a, i as int), seg_at(b, i as int))
    } else {
        compare_segments_from(a, b, i + 1)
    }
}

/// The rank of a pre-release marker's kind.
pub open spec fn prerelease_kind_rank(p: Pep440Prerelease) -> int {
    match p {
        Pep440Prerelease::Alpha(_) => 100,
        Pep440Prerelease::Beta(_) => 200,
        Pep440Prerelease::Rc(_) => 300,
    }
}

/// The serial of a pre-release marker.
pub open spec fn prerelease_serial(p: Pep440Prerelease) -> int {
    match p {
        Pep440Prerelease::Alpha(n) => n as int,
        Pep440Prerelease::Beta(n) => n as int,
        Pep440Prerelease::Rc(n) => n as int,
    }
}

/// Ranks the pre/post/dev markers of a version within its release, compared
/// in order: the pre-release marker (a version with only a `.dev` marker
/// before any pre-release, one without pre-release after all of them), then
/// the post-release marker (none before any), then the `.dev` marker (any
/// before none), each kind of marker by its serial.
pub open spec fn within_release_score(v: Pep440Model) -> (int, int, int, int, int, int) {
    let pre_key = match v.pre_release {
        Some(p) => prerelease_kind_rank(p),
        None => if v.post_release is None && v.dev_release is Some {
            0
        } else {
            500
        },
    };
    let pre_n = match v.pre_release {
        Some(p) => prerelease_serial(p),
        None => 0,
    };
    let (post_f, post_n) = match v.post_release {
        Some(n) => (1int, n as int),
        None => (0int, 0int),
    };
    let (dev_f, dev_n) = match v.dev_release {
        Some(n) => (0int, n as int),
        None => (1int, 0int),
    };
    (pre_key, pre_n, post_f, post_n, dev_f, dev_n)
}

pub open spec fn order_score(a: (int, int, int, int, int, int), b: (int, int, int, int, int, int)) -> int {
    if a.0 != b.0 {
        order_int(a.0, b.0)
    } else if a.1 != b.1 {
        order_int(a.1, b.1)
    } else if a.2 != b.2 {
        order_int(a.2, b.2)
    } else if a.3 != b.3 {
        order_int(a.3, b.3)
    } else if a.4 != b.4 {
        order_int(a.4, b.4)
    } else {
        order_int(a.5, b.5)
    }
}

/// PEP-440 precedence: -1, 0 or 1 as `a` is older than, equivalent to, or
/// newer than `b`. The local identifier plays no part.
pub open spec fn pep440_order(a: Pep440Model, b: Pep440Model) -> int {
    if a.epoch != b.epoch {
        order_int(a.epoch as int, b.epoch as int)
    } else if compare_segments_from(a.segments, b.segments, 0) != 0 {
        compare_segments_from(a.segments, b.segments, 0)
    } else {
        order_score(within_release_score(a), within_release_score(b))
    }
}

/// Release segments are equal after zero-padding.
pub open spec fn segments_equiv(a: Seq<usize>, b: Seq<usize>) -> bool {
    forall|i: int| 0 <= i ==> #[trigger] seg_at(a, i) == seg_at(b, i)
}

/// PEP-440 equivalence: everything but the local identifier agrees, with
/// release segments compared after zero-padding.
pub open spec fn pep440_equiv(a: Pep440Model, b: Pep440Model) -> bool {
    &&& a.epoch == b.epoch
    &&& a.pre_release == b.pre_release
    &&& a.post_release == b.post_release
    &&& a.dev_release == b.dev_release
    &&& segments_equiv(a.segments, b.segments)
}

fn order_usize(a: usize, b: usize) -> (r: i8)
    ensures
        r == order_int(a as int, b as int),
{
    if a < b {
        -1
    } else if a > b {
        1
    } else {
        0
    }
}

fn score_of(v: &Pep440Version) -> (r: (usize, usize, usize, usize, usize, usize))
    ensures
        r.0 as int == within_release_score(v@).0,
        r.1 as int == within_release_score(v@).1,
        r.2 as int == within_release_score(v@).2,
        r.3 as int == within_release_score(v@).3,
        r.4 as int == within_release_score(v@).4,
        r.5 as int == within_release_score(v@).5,
{
    let (pre_key, pre_n): (usize, usize) = match v.pre_release {
        Some(Pep440Prerelease::Alpha(n)) => (100, n),
        Some(Pep440Prerelease::Beta(n)) => (200, n),
        Some(Pep440Prerelease::Rc(n)) => (300, n),
        None => if v.post_release.is_none() && v.dev_release.is_some() {
            (0, 0)
        } else {
            (500, 0)
        },
    };
    let (post_f, post_n): (usize, usize) = match v.post_release {
        Some(n) => (1, n),
        None => (0, 0),
    };
    let (dev_f, dev_n): (usize, usize) = match v.dev_release {
        Some(n) => (0, n),
        None => (1, 0),
    };
    (pre_key, pre_n, post_f, post_n, dev_f, dev_n)
}

impl Pep440Version {
    /// Compares two versions by PEP-440 precedence.
    pub fn compare(&self, other: &Pep440Version) -> (r: i8)
        ensures
            r as int == pep440_order(self@, other@),
    {
        if self.epoch != other.epoch {
            return order_usize(self.epoch, other.epoch);
        }
        let ns = self.segments.len();
        let no = other.segments.len();
        let n = if ns > no {
            ns
        } else {
            no
        };
        let mut i: usize = 0;
        while i < n
            invariant
                n == if ns > no {
                    ns
                } else {
                    no
                },
                ns == self.segments@.len(),
                no == other.segments@.len(),
                i <= n,
                self.epoch == other.epoch,
                compare_segments_from(self.segments@, other.segments@, 0) == compare_segments_from(
                    self.segments@,
                    other.segments@,
                    i as nat,
                ),
            decreases n - i,
        {
            let vs: usize = if i < ns {
                self.segments[i]
            } else {
                0
            };
            let vo: usize = if i < no {
                other.segments[i]
            } else {
                0
            };
            assert(seg_at(self.segments@, i as int) == vs as int);
            assert(seg_at(other.segments@, i as int) == vo as int);
            if vs != vo {
                assert(compare_segments_from(self.segments@, other.segments@, i as nat) == order_int(
                    vs as int,
                    vo as int,
                ));
                return order_usize(vs, vo);
            }
            i = i + 1;
        }
        assert(compare_segments_from(self.segments@, other.segments@, i as nat) == 0);
        let a = score_of(self);
        let b = score_of(other);
        if a.0 != b.0 {
            order_usize(a.0, b.0)
        } else if a.1 != b.1 {
            order_usize(a.1, b.1)
        } else if a.2 != b.2 {
            order_usize(a.2, b.2)
        } else if a.3 != b.3 {
            order_usize(a.3, b.3)
        } else if a.4 != b.4 {
            order_usize(a.4, b.4)
        } else {
            order_usize(a.5, b.5)
        }
    }

    /// Tests PEP-440 equivalence (the local identifier is ignored).
    pub fn equivalent(&self, other: &Pep440Version) -> (r: bool)
        ensures
            r == pep440_equiv(self@, other@),
    {
        if self.epoch != other.epoch || self.pre_release != other.pre_release
            || self.dev_release != other.dev_release || self.post_release != other.post_release {
            return false;
        }
        let ns = self.segments.len();
        let no = other.segments.len();
        let n = if ns > no {
            ns
        } else {
            no
        };
        let mut i: usize = 0;
        while i < n
            invariant
                n == if ns > no {
                    ns
                } else {
                    no
                },
                ns == self.segments@.len(),
                no == other.segments@.len(),
                i <= n,
                self.epoch == other.epoch,
                self.pre_release == other.pre_release,
                self.post_release == other.post_release,
                self.dev_release == other.dev_release,
                forall|j: int|
                    0 <= j < i ==> #[trigger] seg_at(self.segments@, j) == seg_at(
                        other.segments@,
                        j,
                    ),
            decreases n - i,
        {
            let vs: usize = if i < ns {
                self.segments[i]
            } else {
                0
            };
            let vo: usize = if i < no {
                other.segments[i]
            } else {
                0
            };
            if vs != vo {
                assert(seg_at(self.segments@, i as int) != seg_at(other.segments@, i as int));
                return false;
            }
            i = i + 1;
        }
        assert forall|j: int| 0 <= j implies #[trigger] seg_at(self.segments@, j) == seg_at(
            other.segments@,
            j,
        ) by {
            if j >= n {
            }
        }
        true
    }
}

// ---------------------------------------------------------------------------
// The order laws

proof fn lemma_compare_segments_antisym(a: Seq<usize>, b: Seq<usize>, i: nat)
    ensures
        compare_segments_from(a, b, i) == -compare_segments_from(b, a, i),
    decreases (if a.len() > b.len() {
        a.len()
    } else {
        b.len()
    }) - i,
{
    if i >= a.len() && i >= b.len() {
    } else if seg_at(a, i as int) != seg_at(b, i as int) {
    } else {
        lemma_compare_segments_antisym(a, b, i + 1);
    }
}

proof fn lemma_compare_segments_zero(a: Seq<usize>, b: Seq<usize>, i: nat)
    ensures
        compare_segments_from(a, b, i) == 0 <==> forall|j: int| j >= i ==> #[trigger] seg_at(a, j) == seg_at(b, j),
        -1 <= compare_segments_from(a, b, i) <= 1,
    decreases (if a.len() > b.len() {
        a.len()
    } else {
        b.len()
    }) - i,
{
    if i >= a.len() && i >= b.len() {
        assert forall|j: int| j >= i implies #[trigger] seg_at(a, j) == seg_at(b, j) by {}
    } else if seg_at(a, i as int) != seg_at(b, i as int) {
    } else {
        lemma_compare_segments_zero(a, b, i + 1);
        if compare_segments_from(a, b, i) == 0 {
            assert forall|j: int| j >= i implies #[trigger] seg_at(a, j) == seg_at(b, j) by {
                if j > i {
                    assert(j >= i + 1);
                }
            }
        }
    }
}

proof fn lemma_compare_segments_trans(a: Seq<usize>, b: Seq<usize>, c: Seq<usize>, i: nat, r: int)
    requires
        r == 1 || r == -1,
        compare_segments_from(a, b, i) == r || compare_segments_from(a, b, i) == 0,
        compare_segments_from(b, c, i) == r || compare_segments_from(b, c, i) == 0,
    ensures
        compare_segments_from(a, c, i) == r || (compare_segments_from(a, c, i) == 0 && compare_segments_from(
            a,
            b,
            i,
        ) == 0 && compare_segments_from(b, c, i) == 0),
    decreases (if a.len() > b.len() {
        if a.len() > c.len() {
            a.len()
        } else {
            c.len()
        }
    } else {
        if b.len() > c.len() {
            b.len()
        } else {
            c.len()
        }
    }) - i,
{
    lemma_compare_segments_zero(a, b, i);
    lemma_compare_segments_zero(b, c, i);
    lemma_compare_segments_zero(a, c, i);
    if i >= a.len() && i >= b.len() && i >= c.len() {
    } else if seg_at(a, i as int) == seg_at(b, i as int) && seg_at(b, i as int) == seg_at(
        c,
        i as int,
    ) {
        lemma_compare_segments_trans(a, b, c, i + 1, r);
    } else {
    }
}

/// PEP-440 precedence is antisymmetric: comparing in the other direction
/// flips the answer.
pub proof fn lemma_pep440_order_antisymmetric(a: Pep440Model, b: Pep440Model)
    ensures
        pep440_order(a, b) == -pep440_order(b, a),
        -1 <= pep440_order(a, b) <= 1,
{
    lemma_compare_segments_antisym(a.segments, b.segments, 0);
    lemma_compare_segments_zero(a.segments, b.segments, 0);
}

/// Two versions compare as equal exactly when they are PEP-440 equivalent.
pub proof fn lemma_pep440_order_zero_iff_equiv(a: Pep440Model, b: Pep440Model)
    ensures
        pep440_order(a, b) == 0 <==> pep440_equiv(a, b),
{
    lemma_compare_segments_zero(a.segments, b.segments, 0);
    if pep440_order(a, b) == 0 {
        assert(segments_equiv(a.segments, b.segments));
    }
    if pep440_equiv(a, b) {
        assert forall|j: int| j >= 0 implies #[trigger] seg_at(a.segments, j) == seg_at(
            b.segments,
            j,
        ) by {}
    }
}

/// PEP-440 precedence is transitive.
pub proof fn lemma_pep440_order_transitive(a: Pep440Model, b: Pep440Model, c: Pep440Model, r: int)
    requires
        r == 1 || r == -1,
        pep440_order(a, b) == r,
        pep440_order(b, c) == r,
    ensures
        pep440_order(a, c) == r,
{
    lemma_compare_segments_zero(a.segments, b.segments, 0);
    lemma_compare_segments_zero(b.segments, c.segments, 0);
    lemma_compare_segments_zero(a.segments, c.segments, 0);
    if a.epoch == b.epoch && b.epoch == c.epoch {
        let ab = compare_segments_from(a.segments, b.segments, 0);
        let bc = compare_segments_from(b.segments, c.segments, 0);
        if (ab == r || ab == 0) && (bc == r || bc == 0) {
            lemma_compare_segments_trans(a.segments, b.segments, c.segments, 0, r);
            if ab == 0 && bc == 0 {
                assert forall|j: int| j >= 0 implies #[trigger] seg_at(a.segments, j) == seg_at(
                    c.segments,
                    j,
                ) by {
                    assert(seg_at(a.segments, j) == seg_at(b.segments, j));
                    assert(seg_at(b.segments, j) == seg_at(c.segments, j));
                }
            }
        }
    }
}

// ---------------------------------------------------------------------------
// The `sys.version_info` tuple form

pub open spec fn tuple_level(v: Pep440Model) -> Option<(Seq<char>, usize)> {
    match (v.pre_release, v.post_release, v.dev_release) {
        (Some(Pep440Prerelease::Alpha(s)), None, None) => Some((seq!['a', 'l', 'p', 'h', 'a'], s)),
        (Some(Pep440Prerelease::Beta(s)), None, None) => Some((seq!['b', 'e', 't', 'a'], s)),
        (Some(Pep440Prerelease::Rc(s)), None, None) => Some(
            (seq!['c', 'a', 'n', 'd', 'i', 'd', 'a', 't', 'e'], s),
        ),
        (None, None, None) => Some((seq!['f', 'i', 'n', 'a', 'l'], 0)),
        (None, None, Some(s)) => Some((seq!['d', 'e', 'v'], s)),
        _ => None,
    }
}

/// The tuple text `({major}, {minor}, {micro}, '{level}', {serial})`.
pub open spec fn tuple_text(v: Pep440Model) -> Seq<char>
    recommends
        v.wf(),
        tuple_level(v) is Some,
{
    let lv = tuple_level(v).unwrap();
    seq!['('] + decimal(v.segments[0] as nat) + seq![',', ' '] + decimal(
        seg_at(v.segments, 1) as nat,
    ) + seq![',', ' '] + decimal(seg_at(v.segments, 2) as nat) + seq![',', ' ', '\''] + lv.0
        + seq!['\'', ',', ' '] + decimal(lv.1 as nat) + seq![')']
}

/// A version fits a `sys.version_info` tuple when it has at most three
/// release segments and its pre/post/dev markers match one of the tuple's
/// release levels.
pub open spec fn expressible_as_tuple(v: Pep440Model) -> bool {
    v.segments.len() <= 3 && tuple_level(v) is Some
}

impl Pep440Version {
    /// Renders the version as a `sys.version_info`-style tuple literal.
    ///
    /// Fails when the version has more than three release segments or a
    /// combination of pre/post/dev markers that the tuple cannot express.
    pub fn as_tuple_literal(&self) -> (res: Result<String, Error>)
        requires
            self@.wf(),
        ensures
            expressible_as_tuple(self@) ==> (res matches Ok(s) && s@ == tuple_text(self@)),
            !expressible_as_tuple(self@) ==> (res matches Err(Error::NotATupleVersion(t)) && t@
                == render(self@)),
    {
        let major = self.segments[0];
        let minor = if self.segments.len() > 1 {
            self.segments[1]
        } else {
            0
        };
        let micro = if self.segments.len() > 2 {
            self.segments[2]
        } else {
            0
        };
        if self.segments.len() > 3 {
            return Err(Error::NotATupleVersion(self.to_string()));
        }
        let (code, serial): (&[char], usize) = match (
            self.pre_release,
            self.post_release,
            self.dev_release,
        ) {
            (Some(Pep440Prerelease::Alpha(s)), None, None) => (&['a', 'l', 'p', 'h', 'a'], s),
            (Some(Pep440Prerelease::Beta(s)), None, None) => (&['b', 'e', 't', 'a'], s),
            (Some(Pep440Prerelease::Rc(s)), None, None) => (
                &['c', 'a', 'n', 'd', 'i', 'd', 'a', 't', 'e'],
                s,
            ),
            (None, None, None) => (&['f', 'i', 'n', 'a', 'l'], 0),
            (None, None, Some(s)) => (&['d', 'e', 'v'], s),
            _ => {
                return Err(Error::NotATupleVersion(self.to_string()));
            },
        };
        let mut out: Vec<char> = Vec::new();
        out.push('(');
        let t = usize_to_chars(major);
        append_chars(&mut out, &t);
        push_str_chars(&mut out, &[',', ' ']);
        let t = usize_to_chars(minor);
        append_chars(&mut out, &t);
        push_str_chars(&mut out, &[',', ' ']);
        let t = usize_to_chars(micro);
        append_chars(&mut out, &t);
        push_str_chars(&mut out, &[',', ' ', '\'']);
        push_str_chars(&mut out, code);
        push_str_chars(&mut out, &['\'', ',', ' ']);
        let t = usize_to_chars(serial);
        append_chars(&mut out, &t);
        out.push(')');
        assert(out@ =~= tuple_text(self@));
        Ok(chars_to_string(&out))
    }
}

} // verus!
