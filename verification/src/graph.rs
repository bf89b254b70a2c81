//! The graph of projects within the repository.
//!
//! A repository may hold several projects, each versioned on its own, that
//! depend on one another. Their dependencies form a directed acyclic graph.
//! Completing the graph gives every project a unique user-facing name and a
//! topological order.

use vstd::prelude::*;

use crate::config::{config_ignores, is_ignored, ProjectConfiguration};
use crate::errors::Error;
use crate::project::{
    same_but_paths, DepRequirement, Dependency, DependencyBuilder, DependencyTarget, Project,
    ProjectBuilder, ProjectId,
};
use crate::repository::{
    all_excludes, disjoint_exclusions, exclusions_for, is_prefix, names_view, some_exclusion_prefixes,
    terms_match, PathMatcher, TermModel,
};
use crate::text::{chars_to_string, str_to_chars};

verus! {

// ---------------------------------------------------------------------------
// User-facing names

/// The `n` narrowest qualified names, widest first: `q[n-1], ..., q[0]`.
pub open spec fn rev_prefix(q: Seq<Seq<char>>, n: int) -> Seq<Seq<char>> {
    Seq::new(n as nat, |i: int| q[n - 1 - i])
}

/// Names joined by colons.
pub open spec fn join_colon(s: Seq<Seq<char>>) -> Seq<char>
    decreases s.len(),
{
    if s.len() == 0 {
        Seq::empty()
    } else if s.len() == 1 {
        s[0]
    } else {
        join_colon(s.drop_last()) + seq![':'] + s.last()
    }
}

/// The name made of the `n` narrowest qualified names: if the qualified
/// names are `[foo, bar, baz]` and `n` is 2, the name is `bar:foo`.
pub open spec fn qualified_name(q: Seq<Seq<char>>, n: int) -> Seq<char> {
    join_colon(rev_prefix(q, n))
}

/// The full name of a project: all of its qualified names, widest first.
pub open spec fn full_name(q: Seq<Seq<char>>) -> Seq<char> {
    qualified_name(q, q.len() as int)
}

pub open spec fn has_no_colon(t: Seq<char>) -> bool {
    forall|j: int| 0 <= j < t.len() ==> t[j] != ':'
}

/// None of the names holds a colon.
pub open spec fn no_colons(s: Seq<Seq<char>>) -> bool {
    forall|i: int| 0 <= i < s.len() ==> has_no_colon(#[trigger] s[i])
}

proof fn lemma_join_colon_colons(s: Seq<Seq<char>>)
    requires
        no_colons(s),
    ensures
        s.len() <= 1 ==> has_no_colon(join_colon(s)),
        s.len() >= 2 ==> {
            let p = join_colon(s.drop_last());
            &&& join_colon(s)[p.len() as int] == ':'
            &&& forall|j: int| p.len() < j < join_colon(s).len() ==> join_colon(s)[j] != ':'
        },
{
    if s.len() == 1 {
        assert(has_no_colon(s[0]));
    } else if s.len() >= 2 {
        let p = join_colon(s.drop_last());
        let j = join_colon(s);
        assert(has_no_colon(s.last()));
        assert forall|k: int| p.len() < k < j.len() implies j[k] != ':' by {
            assert(j[k] == s.last()[k - p.len() - 1]);
        }
    }
}

/// Joining names that hold no colon loses nothing: equal joins come from
/// equal sequences of names.
pub proof fn lemma_join_colon_injective(a: Seq<Seq<char>>, b: Seq<Seq<char>>)
    requires
        a.len() >= 1,
        b.len() >= 1,
        no_colons(a),
        no_colons(b),
        join_colon(a) == join_colon(b),
    ensures
        a == b,
    decreases a.len() + b.len(),
{
    lemma_join_colon_colons(a);
    lemma_join_colon_colons(b);
    let j = join_colon(a);
    if a.len() == 1 && b.len() == 1 {
        assert(a =~= b);
    } else if a.len() == 1 {
        let pb = join_colon(b.drop_last());
        assert(j[pb.len() as int] == ':');
    } else if b.len() == 1 {
        let pa = join_colon(a.drop_last());
        assert(j[pa.len() as int] == ':');
    } else {
        let pa = join_colon(a.drop_last());
        let pb = join_colon(b.drop_last());
        if pa.len() < pb.len() {
            assert(j[pb.len() as int] == ':');
        } else if pb.len() < pa.len() {
            assert(j[pa.len() as int] == ':');
        }
        assert(pa.len() == pb.len());
        assert(pa =~= j.subrange(0, pa.len() as int));
        assert(pb =~= j.subrange(0, pb.len() as int));
        assert(a.last() =~= j.subrange(pa.len() as int + 1, j.len() as int));
        assert(b.last() =~= j.subrange(pb.len() as int + 1, j.len() as int));
        assert forall|i: int| 0 <= i < a.drop_last().len() implies has_no_colon(
            #[trigger] a.drop_last()[i],
        ) by {
            assert(a.drop_last()[i] == a[i]);
        }
        assert forall|i: int| 0 <= i < b.drop_last().len() implies has_no_colon(
            #[trigger] b.drop_last()[i],
        ) by {
            assert(b.drop_last()[i] == b[i]);
        }
        lemma_join_colon_injective(a.drop_last(), b.drop_last());
        assert(a =~= a.drop_last().push(a.last()));
        assert(b =~= b.drop_last().push(b.last()));
    }
}

/// Qualified names that hold no colon give equal user-facing names only for
/// the same number of equal narrowest names.
pub proof fn lemma_qualified_name_injective(q1: Seq<Seq<char>>, n1: int, q2: Seq<Seq<char>>, n2: int)
    requires
        1 <= n1 <= q1.len(),
        1 <= n2 <= q2.len(),
        no_colons(q1),
        no_colons(q2),
        qualified_name(q1, n1) == qualified_name(q2, n2),
    ensures
        n1 == n2,
        forall|i: int| 0 <= i < n1 ==> q1[i] == q2[i],
{
    let a = rev_prefix(q1, n1);
    let b = rev_prefix(q2, n2);
    assert forall|i: int| 0 <= i < a.len() implies has_no_colon(#[trigger] a[i]) by {
        assert(has_no_colon(q1[n1 - 1 - i]));
    }
    assert forall|i: int| 0 <= i < b.len() implies has_no_colon(#[trigger] b[i]) by {
        assert(has_no_colon(q2[n2 - 1 - i]));
    }
    lemma_join_colon_injective(a, b);
    assert(a.len() == b.len());
    assert forall|i: int| 0 <= i < n1 implies q1[i] == q2[i] by {
        assert(a[n1 - 1 - i] == q1[i]);
        assert(b[n2 - 1 - i] == q2[i]);
    }
}

/// Builds the name made of the `n` narrowest qualified names.
pub fn compute_name(qnames: &Vec<String>, n: usize) -> (res: String)
    requires
        1 <= n <= qnames@.len(),
    ensures
        res@ == qualified_name(crate::repository::names_view(qnames@), n as int),
{
    let ghost q = crate::repository::names_view(qnames@);
    let ghost r = rev_prefix(q, n as int);
    let mut out: Vec<char> = Vec::new();
    let mut i: usize = 0;
    while i < n
        invariant
            i <= n,
            n <= qnames@.len(),
            q == crate::repository::names_view(qnames@),
            r == rev_prefix(q, n as int),
            i > 0 ==> out@ == join_colon(r.take(i as int)),
            i == 0 ==> out@.len() == 0,
        decreases n - i,
    {
        proof {
            assert(r.take(i + 1).drop_last() =~= r.take(i as int));
            assert(r.take(i + 1).last() == qnames@[n - 1 - i]@);
        }
        if i != 0 {
            out.push(':');
        }
        let piece = str_to_chars(qnames[n - 1 - i].as_str());
        crate::text::append_chars(&mut out, &piece);
        proof {
            if i == 0 {
                assert(out@ =~= join_colon(r.take(1)));
            } else {
                assert(out@ =~= join_colon(r.take(i + 1)));
            }
        }
        i = i + 1;
    }
    assert(r.take(n as int) =~= r);
    chars_to_string(&out)
}

// ---------------------------------------------------------------------------
// Assigning names

/// The qualified names of each project.
pub open spec fn all_qnames(ps: Seq<ProjectBuilder>) -> Seq<Seq<Seq<char>>> {
    ps.map_values(|p: ProjectBuilder| p.qnames_view())
}

/// How many of its narrowest names each project's name uses: at least one,
/// and no more than it has.
pub open spec fn valid_states(q: Seq<Seq<Seq<char>>>, st: Seq<usize>) -> bool {
    st.len() == q.len() && forall|i: int| 0 <= i < st.len() ==> 1 <= #[trigger] st[i] <= q[i].len()
}

/// No qualified name of any project holds a colon.
pub open spec fn colon_free(q: Seq<Seq<Seq<char>>>) -> bool {
    forall|i: int| 0 <= i < q.len() ==> no_colons(#[trigger] q[i])
}

/// No two projects have the same qualified names.
pub open spec fn distinct_qnames(q: Seq<Seq<Seq<char>>>) -> bool {
    forall|i: int, j: int| 0 <= i < j < q.len() ==> q[i] != q[j]
}

/// No other project shares the narrowest name of project `p`.
pub open spec fn unique_narrowest(q: Seq<Seq<Seq<char>>>, p: int) -> bool {
    forall|r: int| 0 <= r < q.len() && r != p ==> q[r][0] != q[p][0]
}

/// The first position, from `i` on, where two lists of qualified names
/// differ, within the shorter list.
pub open spec fn first_difference_from(a: Seq<Seq<char>>, b: Seq<Seq<char>>, i: int) -> Option<int>
    decreases a.len() - i,
{
    if i < 0 || i >= a.len() || i >= b.len() {
        None
    } else if a[i] != b[i] {
        Some(i)
    } else {
        first_difference_from(a, b, i + 1)
    }
}

/// The first position where two lists of qualified names differ, within the
/// shorter list.
pub open spec fn first_difference(a: Seq<Seq<char>>, b: Seq<Seq<char>>) -> Option<int> {
    first_difference_from(a, b, 0)
}

proof fn lemma_first_difference_from(a: Seq<Seq<char>>, b: Seq<Seq<char>>, i: int)
    requires
        0 <= i,
    ensures
        first_difference_from(a, b, i) matches Some(k) ==> i <= k < a.len() && k < b.len() && a[k]
            != b[k] && forall|j: int| i <= j < k ==> a[j] == b[j],
        first_difference_from(a, b, i) is None ==> forall|j: int|
            i <= j < a.len() && j < b.len() ==> a[j] == b[j],
    decreases a.len() - i,
{
    if i < a.len() && i < b.len() && a[i] == b[i] {
        lemma_first_difference_from(a, b, i + 1);
    }
}

pub open spec fn max_int(a: int, b: int) -> int {
    if a < b {
        b
    } else {
        a
    }
}

/// New name lengths for two projects whose names clash: both are widened to
/// include their first differing qualified name; failing that, the project
/// with more qualified names is widened past the other's. `None` when the
/// qualified names are identical.
pub open spec fn spec_disambiguate(a: Seq<Seq<char>>, b: Seq<Seq<char>>, s1: int, s2: int) -> Option<
    (int, int),
> {
    match first_difference(a, b) {
        Some(i) => Some((max_int(s1, i + 1), max_int(s2, i + 1))),
        None => if a.len() > b.len() {
            Some((max_int(s1, b.len() as int + 1), s2))
        } else if a.len() < b.len() {
            Some((s1, max_int(s2, a.len() as int + 1)))
        } else {
            None
        },
    }
}

/// Finds new name lengths for two clashing projects.
fn disambiguate(q1: &Vec<String>, q2: &Vec<String>, s1: usize, s2: usize) -> (res: Option<(usize, usize)>)
    ensures
        match spec_disambiguate(names_view(q1@), names_view(q2@), s1 as int, s2 as int) {
            Some((t1, t2)) => res matches Some((r1, r2)) && r1 == t1 && r2 == t2,
            None => res is None,
        },
{
    let ghost a = names_view(q1@);
    let ghost b = names_view(q2@);
    let n1 = q1.len();
    let n2 = q2.len();
    let m = if n1 < n2 {
        n1
    } else {
        n2
    };
    let mut i: usize = 0;
    while i < m
        invariant
            i <= m,
            m <= n1,
            m <= n2,
            n1 == a.len(),
            n2 == b.len(),
            a == names_view(q1@),
            b == names_view(q2@),
            m == (if n1 < n2 {
                n1
            } else {
                n2
            }),
            first_difference(a, b) == first_difference_from(a, b, i as int),
        decreases m - i,
    {
        proof {
            assert(a[i as int] == q1@[i as int]@);
            assert(b[i as int] == q2@[i as int]@);
        }
        if q1[i] != q2[i] {
            let t1 = if s1 < i + 1 {
                i + 1
            } else {
                s1
            };
            let t2 = if s2 < i + 1 {
                i + 1
            } else {
                s2
            };
            return Some((t1, t2));
        }
        i = i + 1;
    }
    assert(first_difference(a, b) is None);
    proof {
        lemma_first_difference_from(a, b, 0);
    }
    if n1 > n2 {
        let t1 = if s1 < n2 + 1 {
            n2 + 1
        } else {
            s1
        };
        Some((t1, s2))
    } else if n1 < n2 {
        let t2 = if s2 < n1 + 1 {
            n1 + 1
        } else {
            s2
        };
        Some((s1, t2))
    } else {
        proof {
            assert(a =~= b);
        }
        None
    }
}

/// Disambiguation keeps name lengths within bounds and never shortens them.
proof fn lemma_disambiguate_bounds(a: Seq<Seq<char>>, b: Seq<Seq<char>>, s1: int, s2: int)
    requires
        1 <= s1 <= a.len(),
        1 <= s2 <= b.len(),
    ensures
        spec_disambiguate(a, b, s1, s2) matches Some((t1, t2)) ==> s1 <= t1 <= a.len() && s2 <= t2
            <= b.len(),
        spec_disambiguate(a, b, s1, s2) is None ==> a == b,
{
    lemma_first_difference_from(a, b, 0);
    if first_difference(a, b) is None && a.len() == b.len() {
        assert(a =~= b);
    }
}

/// When names hold no colon, disambiguating two projects whose names clash
/// always widens one of them.
proof fn lemma_disambiguate_progress(a: Seq<Seq<char>>, b: Seq<Seq<char>>, s1: int, s2: int)
    requires
        1 <= s1 <= a.len(),
        1 <= s2 <= b.len(),
        no_colons(a),
        no_colons(b),
        qualified_name(a, s1) == qualified_name(b, s2),
    ensures
        spec_disambiguate(a, b, s1, s2) matches Some((t1, t2)) ==> t1 > s1 || t2 > s2,
{
    lemma_qualified_name_injective(a, s1, b, s2);
    lemma_first_difference_from(a, b, 0);
    if let Some(k) = first_difference(a, b) {
        if k < s1 {
            assert(a[k] == b[k]);
        }
    }
}

/// The names and owners held in a name table.
pub open spec fn tview(t: Seq<(String, ProjectId)>) -> Seq<(Seq<char>, ProjectId)> {
    t.map_values(|e: (String, ProjectId)| (e.0@, e.1))
}

/// A name table that maps names to the projects that bear them.
pub open spec fn table_ok(t: Seq<(Seq<char>, ProjectId)>, q: Seq<Seq<Seq<char>>>, st: Seq<usize>) -> bool {
    &&& forall|a: int, b: int| 0 <= a < b < t.len() ==> t[a].0 != t[b].0
    &&& forall|a: int, b: int| 0 <= a < b < t.len() ==> t[a].1 != t[b].1
    &&& forall|k: int|
        0 <= k < t.len() ==> (#[trigger] t[k]).1 < q.len() && t[k].0 == qualified_name(
            q[t[k].1 as int],
            st[t[k].1 as int] as int,
        )
}

pub open spec fn table_lacks(t: Seq<(Seq<char>, ProjectId)>, id: ProjectId) -> bool {
    forall|m: int| 0 <= m < t.len() ==> (#[trigger] t[m]).1 != id
}

pub open spec fn table_has(t: Seq<(Seq<char>, ProjectId)>, id: ProjectId) -> bool {
    exists|k: int| 0 <= k < t.len() && (#[trigger] t[k]).1 == id
}

/// Finds the entry for a name.
fn find_key(table: &Vec<(String, ProjectId)>, name: &String) -> (res: Option<usize>)
    ensures
        match res {
            Some(k) => k < table@.len() && tview(table@)[k as int].0 == name@,
            None => forall|k: int| 0 <= k < table@.len() ==> tview(table@)[k].0 != name@,
        },
{
    let mut i: usize = 0;
    while i < table.len()
        invariant
            i <= table@.len(),
            forall|k: int| 0 <= k < i ==> tview(table@)[k].0 != name@,
        decreases table.len() - i,
    {
        if table[i].0 == *name {
            return Some(i);
        }
        i = i + 1;
    }
    None
}

/// Maps `name` to `id`, replacing the owner of an existing entry for the
/// name. Returns whether there was one.
fn table_insert(table: &mut Vec<(String, ProjectId)>, name: String, id: ProjectId) -> (replaced: bool)
    requires
        forall|a: int, b: int|
            0 <= a < b < old(table)@.len() ==> tview(old(table)@)[a].0 != tview(old(table)@)[b].0,
    ensures
        replaced == find_entry(tview(old(table)@), name@) is Some,
        tview(final(table)@) == tinsert(tview(old(table)@), name@, id),
{
    let ghost before = tview(table@);
    match find_key(table, &name) {
        Some(k) => {
            proof {
                lemma_find_entry(before, name@, k as int);
            }
            table.set(k, (name, id));
            proof {
                assert(tview(table@) =~= before.update(k as int, (name@, id)));
            }
            true
        },
        None => {
            proof {
                lemma_find_entry_none(before, name@);
            }
            let ghost nm = name@;
            table.push((name, id));
            proof {
                assert(tview(table@) =~= before.push((nm, id)));
            }
            false
        },
    }
}

/// The table after mapping `name` to `id`.
pub open spec fn tinsert(t: Seq<(Seq<char>, ProjectId)>, name: Seq<char>, id: ProjectId) -> Seq<
    (Seq<char>, ProjectId),
> {
    match find_entry(t, name) {
        Some(k) => t.update(k, (name, id)),
        None => t.push((name, id)),
    }
}

/// The entry for a name, in a table whose names are distinct.
pub open spec fn find_entry(t: Seq<(Seq<char>, ProjectId)>, name: Seq<char>) -> Option<int> {
    if exists|k: int| 0 <= k < t.len() && t[k].0 == name {
        Some(choose|k: int| 0 <= k < t.len() && t[k].0 == name)
    } else {
        None
    }
}

proof fn lemma_find_entry(t: Seq<(Seq<char>, ProjectId)>, name: Seq<char>, k: int)
    requires
        0 <= k < t.len(),
        t[k].0 == name,
        forall|a: int, b: int| 0 <= a < b < t.len() ==> t[a].0 != t[b].0,
    ensures
        find_entry(t, name) == Some(k),
{
    let j = choose|j: int| 0 <= j < t.len() && t[j].0 == name;
    if j < k {
        assert(t[j].0 != t[k].0);
    }
    if k < j {
        assert(t[k].0 != t[j].0);
    }
}

proof fn lemma_find_entry_none(t: Seq<(Seq<char>, ProjectId)>, name: Seq<char>)
    requires
        forall|k: int| 0 <= k < t.len() ==> t[k].0 != name,
    ensures
        find_entry(t, name) is None,
{
}

/// How far the names of the first `n` projects can still be widened.
pub open spec fn slack_upto(q: Seq<Seq<Seq<char>>>, st: Seq<usize>, n: int) -> int
    decreases n,
{
    if n <= 0 {
        0
    } else {
        slack_upto(q, st, n - 1) + (q[n - 1].len() - st[n - 1])
    }
}

proof fn lemma_slack_decreases(q: Seq<Seq<Seq<char>>>, a: Seq<usize>, b: Seq<usize>, n: int)
    requires
        0 <= n <= q.len(),
        valid_states(q, a),
        valid_states(q, b),
        forall|i: int| 0 <= i < q.len() ==> a[i] <= b[i],
    ensures
        slack_upto(q, b, n) <= slack_upto(q, a, n),
        (exists|i: int| 0 <= i < n && a[i] < b[i]) ==> slack_upto(q, b, n) < slack_upto(q, a, n),
        slack_upto(q, b, n) >= 0,
    decreases n,
{
    if n > 0 {
        lemma_slack_decreases(q, a, b, n - 1);
        assert(1 <= b[n - 1] <= q[n - 1].len());
        if exists|i: int| 0 <= i < n && a[i] < b[i] {
            let i = choose|i: int| 0 <= i < n && a[i] < b[i];
            if i < n - 1 {
                assert(exists|i: int| 0 <= i < n - 1 && a[i] < b[i]);
            }
        }
    }
}


/// Removing an entry keeps a table well formed, and leaves no entry for the
/// removed project.
proof fn lemma_table_remove(t: Seq<(Seq<char>, ProjectId)>, k: int, q: Seq<Seq<Seq<char>>>, st: Seq<usize>)
    requires
        0 <= k < t.len(),
        table_ok(t, q, st),
    ensures
        table_ok(t.remove(k), q, st),
        forall|m: int| 0 <= m < t.remove(k).len() ==> (#[trigger] t.remove(k)[m]).1 != t[k].1,
        forall|id: ProjectId| id != t[k].1 && table_has(t, id) ==> table_has(t.remove(k), id),
        forall|b: int| ids_below(t, b) ==> ids_below(t.remove(k), b),
{
    let r = t.remove(k);
    assert forall|m: int| 0 <= m < r.len() implies (m < k ==> r[m] == t[m]) && (m >= k ==> r[m]
        == t[m + 1]) by {}
    assert forall|a: int, b: int| 0 <= a < b < r.len() implies r[a].0 != r[b].0 && r[a].1 != r[b].1 by {
        let a2 = if a < k {
            a
        } else {
            a + 1
        };
        let b2 = if b < k {
            b
        } else {
            b + 1
        };
        assert(r[a] == t[a2]);
        assert(r[b] == t[b2]);
    }
    assert forall|m: int| 0 <= m < r.len() implies (#[trigger] r[m]).1 != t[k].1 by {
        let m2 = if m < k {
            m
        } else {
            m + 1
        };
        assert(r[m] == t[m2]);
    }
    assert forall|id: ProjectId| id != t[k].1 && table_has(t, id) implies table_has(r, id) by {
        let m = choose|m: int| 0 <= m < t.len() && (#[trigger] t[m]).1 == id;
        if m < k {
            assert(r[m] == t[m]);
        } else {
            assert(r[m - 1] == t[m]);
        }
    }
    assert forall|b: int| ids_below(t, b) implies ids_below(r, b) by {
        assert forall|m: int| 0 <= m < r.len() implies (#[trigger] r[m]).1 < b by {
            let m2 = if m < k {
                m
            } else {
                m + 1
            };
            assert(r[m] == t[m2]);
        }
    }
}

/// Widening the names of projects that have no entry keeps a table well
/// formed.
proof fn lemma_table_restate(t: Seq<(Seq<char>, ProjectId)>, q: Seq<Seq<Seq<char>>>, st: Seq<usize>, st2: Seq<usize>)
    requires
        table_ok(t, q, st),
        st2.len() == st.len(),
        forall|m: int| 0 <= m < t.len() ==> st2[(#[trigger] t[m]).1 as int] == st[t[m].1 as int],
    ensures
        table_ok(t, q, st2),
{
    assert forall|m: int| 0 <= m < t.len() implies (#[trigger] t[m]).1 < q.len() && t[m].0
        == qualified_name(q[t[m].1 as int], st2[t[m].1 as int] as int) by {
        assert(st2[t[m].1 as int] == st[t[m].1 as int]);
    }
}

/// Entering a project that has no entry, under its current name, keeps a
/// table well formed.
proof fn lemma_table_insert(
    t: Seq<(Seq<char>, ProjectId)>,
    name: Seq<char>,
    id: ProjectId,
    q: Seq<Seq<Seq<char>>>,
    st: Seq<usize>,
)
    requires
        table_ok(t, q, st),
        id < q.len(),
        name == qualified_name(q[id as int], st[id as int] as int),
        forall|m: int| 0 <= m < t.len() ==> (#[trigger] t[m]).1 != id,
    ensures
        table_ok(tinsert(t, name, id), q, st),
        table_has(tinsert(t, name, id), id),
        forall|x: ProjectId|
            x != id && #[trigger] table_lacks(t, x) ==> table_lacks(tinsert(t, name, id), x),
        forall|b: int| ids_below(t, b) && id < b ==> ids_below(tinsert(t, name, id), b),
        find_entry(t, name) is None ==> forall|x: ProjectId| table_has(t, x) ==> table_has(
            tinsert(t, name, id),
            x,
        ),
{
    let r = tinsert(t, name, id);
    match find_entry(t, name) {
        Some(k) => {
            let k2 = choose|k2: int| 0 <= k2 < t.len() && t[k2].0 == name;
            assert(0 <= k2 < t.len() && t[k2].0 == name);
            assert(k == k2);
            assert(r[k] == (name, id));
            assert forall|a: int, b: int| 0 <= a < b < r.len() implies r[a].0 != r[b].0 && r[a].1
                != r[b].1 by {
                if a != k && b != k {
                    assert(r[a] == t[a] && r[b] == t[b]);
                } else if a == k {
                    assert(r[b] == t[b]);
                } else {
                    assert(r[a] == t[a]);
                }
            }
            assert forall|m: int| 0 <= m < r.len() implies (#[trigger] r[m]).1 < q.len() && r[m].0
                == qualified_name(q[r[m].1 as int], st[r[m].1 as int] as int) by {
                if m != k {
                    assert(r[m] == t[m]);
                }
            }
            assert(table_has(r, id)) by {
                assert(r[k].1 == id);
            }
            assert forall|x: ProjectId| x != id && #[trigger] table_lacks(t, x) implies table_lacks(r, x) by {
                assert forall|m: int| 0 <= m < r.len() implies (#[trigger] r[m]).1 != x by {
                    if m != k {
                        assert(r[m] == t[m]);
                    }
                }
            }
            assert forall|b: int| ids_below(t, b) && id < b implies ids_below(r, b) by {
                assert forall|m: int| 0 <= m < r.len() implies (#[trigger] r[m]).1 < b by {
                    if m != k {
                        assert(r[m] == t[m]);
                    }
                }
            }
        },
        None => {
            assert forall|k: int| 0 <= k < t.len() implies t[k].0 != name by {
                if t[k].0 == name {
                    assert(exists|k: int| 0 <= k < t.len() && t[k].0 == name);
                }
            }
            assert forall|a: int, b: int| 0 <= a < b < r.len() implies r[a].0 != r[b].0 && r[a].1
                != r[b].1 by {
                assert(r[a] == t[a]);
                if b < t.len() {
                    assert(r[b] == t[b]);
                }
            }
            assert forall|m: int| 0 <= m < r.len() implies (#[trigger] r[m]).1 < q.len() && r[m].0
                == qualified_name(q[r[m].1 as int], st[r[m].1 as int] as int) by {
                if m < t.len() {
                    assert(r[m] == t[m]);
                }
            }
            assert(table_has(r, id)) by {
                assert(r[t.len() as int].1 == id);
            }
            assert forall|x: ProjectId| x != id && #[trigger] table_lacks(t, x) implies table_lacks(r, x) by {
                assert forall|m: int| 0 <= m < r.len() implies (#[trigger] r[m]).1 != x by {
                    if m < t.len() {
                        assert(r[m] == t[m]);
                    }
                }
            }
            assert forall|b: int| ids_below(t, b) && id < b implies ids_below(r, b) by {
                assert forall|m: int| 0 <= m < r.len() implies (#[trigger] r[m]).1 < b by {
                    if m < t.len() {
                        assert(r[m] == t[m]);
                    }
                }
            }
            assert forall|x: ProjectId| table_has(t, x) implies table_has(r, x) by {
                let m = choose|m: int| 0 <= m < t.len() && (#[trigger] t[m]).1 == x;
                assert(r[m] == t[m]);
            }
        },
    }
}

/// Every entry belongs to a project before `j`.
pub open spec fn ids_below(t: Seq<(Seq<char>, ProjectId)>, j: int) -> bool {
    forall|m: int| 0 <= m < t.len() ==> (#[trigger] t[m]).1 < j
}

/// Settles a clash between project `j`, not yet in the table, and project
/// `ident2`, whose entry was just removed: both names are widened and both
/// projects re-entered. Returns whether a re-entry displaced another entry.
fn resolve_clash(
    projects: &Vec<ProjectBuilder>,
    states: &mut Vec<usize>,
    table: &mut Vec<(String, ProjectId)>,
    j: usize,
    ident2: usize,
    cand: String,
) -> (res: Result<bool, Error>)
    requires
        j < projects@.len(),
        ident2 < j,
        valid_states(all_qnames(projects@), old(states)@),
        table_ok(tview(old(table)@), all_qnames(projects@), old(states)@),
        ids_below(tview(old(table)@), j as int),
        forall|m: int|
            0 <= m < old(table)@.len() ==> (#[trigger] tview(old(table)@)[m]).1 != ident2,
        cand@ == qualified_name(all_qnames(projects@)[j as int], old(states)@[j as int] as int),
        cand@ == qualified_name(
            all_qnames(projects@)[ident2 as int],
            old(states)@[ident2 as int] as int,
        ),
    ensures
        match spec_disambiguate(
            all_qnames(projects@)[j as int],
            all_qnames(projects@)[ident2 as int],
            old(states)@[j as int] as int,
            old(states)@[ident2 as int] as int,
        ) {
            Some((t1, t2)) => res matches Ok(displaced) && final(states)@.len() == old(states)@.len()
                && final(states)@[j as int] == t1 && final(states)@[ident2 as int] == t2 && (forall|
                i: int,
            |
                0 <= i < old(states)@.len() && i != j && i != ident2 ==> final(states)@[i] == old(
                    states,
                )@[i]) && valid_states(
                all_qnames(projects@),
                final(states)@,
            ) && table_ok(tview(final(table)@), all_qnames(projects@), final(states)@) && ids_below(
                tview(final(table)@),
                j + 1,
            ) && (!displaced ==> forall|x: ProjectId|
                (table_has(tview(old(table)@), x) || x == j || x == ident2) ==> table_has(
                    tview(final(table)@),
                    x,
                )) && tview(final(table)@) == tinsert(
                tinsert(tview(old(table)@), qualified_name(all_qnames(projects@)[j as int], t1), j as ProjectId),
                qualified_name(all_qnames(projects@)[ident2 as int], t2),
                ident2 as ProjectId,
            ) && displaced == (find_entry(
                tview(old(table)@),
                qualified_name(all_qnames(projects@)[j as int], t1),
            ) is Some || find_entry(
                tinsert(tview(old(table)@), qualified_name(all_qnames(projects@)[j as int], t1), j as ProjectId),
                qualified_name(all_qnames(projects@)[ident2 as int], t2),
            ) is Some),
            None => res matches Err(Error::NamingClash(c)) && c@ == cand@,
        },
{
    let ghost q = all_qnames(projects@);
    let ghost t0 = tview(table@);
    proof {
        assert(q[j as int] == projects@[j as int].qnames_view());
        assert(q[ident2 as int] == projects@[ident2 as int].qnames_view());
        lemma_disambiguate_bounds(
            q[j as int],
            q[ident2 as int],
            states@[j as int] as int,
            states@[ident2 as int] as int,
        );
    }
    let s1 = states[j];
    let s2 = states[ident2];
    match disambiguate(&projects[j].qnames, &projects[ident2].qnames, s1, s2) {
        None => Err(Error::NamingClash(cand)),
        Some((t1v, t2v)) => {
            let ghost st_old = states@;
            states.set(j, t1v);
            states.set(ident2, t2v);
            proof {
                assert forall|m: int| 0 <= m < t0.len() implies (#[trigger] t0[m]).1 != j by {}
                lemma_table_restate(t0, q, st_old, states@);
                assert(valid_states(q, states@));
            }
            let n1 = compute_name(&projects[j].qnames, t1v);
            let r1 = table_insert(table, n1, j);
            let ghost t1 = tview(table@);
            proof {
                lemma_table_insert(t0, n1@, j, q, states@);
                assert(ids_below(t0, j + 1));
                assert(ids_below(t1, j + 1));
                assert(table_lacks(t0, ident2));
                assert(table_lacks(t1, ident2));
            }
            let n2 = compute_name(&projects[ident2].qnames, t2v);
            let r2 = table_insert(table, n2, ident2);
            proof {
                let t2 = tview(table@);
                lemma_table_insert(t1, n2@, ident2, q, states@);
                assert(ids_below(t2, j + 1));
            }
            Ok(r1 || r2)
        },
    }
}

/// One pass of name assignment, from project `j` on, with the states `st`,
/// the table `t`, and what the pass has found so far: whether another pass
/// is needed, whether a name was widened, and the last clashing name. Each
/// project's current name is entered in the table; when it clashes with a
/// name entered before, both projects' names are widened as
/// `spec_disambiguate` says and re-entered. The result is what the pass
/// ends with, or the name on which two projects could not be told apart.
pub open spec fn pass_from(
    q: Seq<Seq<Seq<char>>>,
    st: Seq<usize>,
    t: Seq<(Seq<char>, ProjectId)>,
    j: int,
    need: bool,
    changed: bool,
    clash: Seq<char>,
) -> Result<(Seq<usize>, Seq<(Seq<char>, ProjectId)>, bool, bool, Seq<char>), Seq<char>>
    decreases q.len() - j,
{
    if j < 0 || j >= q.len() {
        Ok((st, t, need, changed, clash))
    } else {
        let cand = qualified_name(q[j], st[j] as int);
        match find_entry(t, cand) {
            None => pass_from(q, st, tinsert(t, cand, j as ProjectId), j + 1, need, changed, clash),
            Some(k) => {
                let id2 = t[k].1 as int;
                let tr = t.remove(k);
                match spec_disambiguate(q[j], q[id2], st[j] as int, st[id2] as int) {
                    None => Err(cand),
                    Some((a, b)) => {
                        let n1 = qualified_name(q[j], a);
                        let t1 = tinsert(tr, n1, j as ProjectId);
                        let n2 = qualified_name(q[id2], b);
                        let t2 = tinsert(t1, n2, id2 as ProjectId);
                        let disp = find_entry(tr, n1) is Some || find_entry(t1, n2) is Some;
                        pass_from(
                            q,
                            st.update(j, a as usize).update(id2, b as usize),
                            t2,
                            j + 1,
                            need || disp,
                            changed || a != st[j] as int || b != st[id2] as int,
                            cand,
                        )
                    },
                }
            },
        }
    }
}

/// A whole pass of name assignment over the projects, from the states `st`.
pub open spec fn spec_pass(q: Seq<Seq<Seq<char>>>, st: Seq<usize>) -> Result<
    (Seq<usize>, Seq<(Seq<char>, ProjectId)>, bool, bool, Seq<char>),
    Seq<char>,
> {
    pass_from(q, st, Seq::empty(), 0, false, false, Seq::empty())
}

/// One pass of name assignment over the projects in order. Each project's
/// current name is entered in the table; when it clashes with the name of a
/// project entered before, both are widened and re-entered. Returns the
/// table, whether another pass is needed because a re-entered name clashed
/// again, whether any name was widened, and the last clashing name.
fn naming_pass(projects: &Vec<ProjectBuilder>, states: &mut Vec<usize>) -> (res: Result<
    (Vec<(String, ProjectId)>, bool, bool, String),
    Error,
>)
    requires
        valid_states(all_qnames(projects@), old(states)@),
    ensures
        match res {
            Ok((table, need, changed, _)) => {
                let q = all_qnames(projects@);
                &&& valid_states(q, final(states)@)
                &&& forall|i: int| 0 <= i < q.len() ==> old(states)@[i] <= final(states)@[i]
                &&& changed ==> exists|i: int| 0 <= i < q.len() && old(states)@[i] < final(states)@[i]
                &&& need ==> changed || !colon_free(q)
                &&& table_ok(tview(table@), q, final(states)@)
                &&& !need ==> forall|id: ProjectId| id < q.len() ==> table_has(tview(table@), id)
                &&& forall|p: int|
                    0 <= p < q.len() && colon_free(q) && unique_narrowest(q, p) && old(states)@[p]
                        == 1 ==> final(states)@[p] == 1
            },
            Err(e) => e is NamingClash && !distinct_qnames(all_qnames(projects@)),
        },
        match spec_pass(all_qnames(projects@), old(states)@) {
            Ok((st, t, need, changed, clash)) => res matches Ok((tb, nd, ch, cl)) && final(states)@ == st
                && tview(tb@) == t && nd == need && ch == changed && cl@ == clash,
            Err(c) => res matches Err(Error::NamingClash(x)) && x@ == c,
        },
{
    let n = projects.len();
    let ghost q = all_qnames(projects@);
    let ghost st0 = states@;
    let mut table: Vec<(String, ProjectId)> = Vec::new();
    let mut need = false;
    let mut changed = false;
    let mut clash = String::new();
    let mut j: usize = 0;
    proof {
        assert(tview(table@) =~= Seq::<(Seq<char>, ProjectId)>::empty());
        assert(clash@ =~= Seq::<char>::empty());
    }
    while j < n
        invariant
            n == projects@.len(),
            q == all_qnames(projects@),
            q.len() == n,
            j <= n,
            st0 == old(states)@,
            valid_states(q, st0),
            valid_states(q, states@),
            forall|i: int| 0 <= i < n ==> st0[i] <= states@[i],
            changed ==> exists|i: int| 0 <= i < n && st0[i] < states@[i],
            need ==> changed || !colon_free(q),
            table_ok(tview(table@), q, states@),
            ids_below(tview(table@), j as int),
            !need ==> forall|id: ProjectId| id < j ==> table_has(tview(table@), id),
            forall|p: int|
                0 <= p < n && colon_free(q) && unique_narrowest(q, p) && st0[p] == 1 ==> states@[p]
                    == 1,
            spec_pass(q, st0) == pass_from(q, states@, tview(table@), j as int, need, changed, clash@),
        decreases n - j,
    {
        let ghost t0 = tview(table@);
        let ghost sb = states@;
        let ghost need0 = need;
        let ghost ch0 = changed;
        let ghost cl0 = clash@;
        proof {
            assert(q[j as int] == projects@[j as int].qnames_view());
        }
        let cand = compute_name(&projects[j].qnames, states[j]);
        match find_key(&table, &cand) {
            None => {
                let ghost cv = cand@;
                table.push((cand, j));
                proof {
                    let t1 = tview(table@);
                    assert(t1 =~= t0.push((cv, j)));
                    assert(find_entry(t0, cv) is None);
                    assert(t1 == tinsert(t0, cv, j));
                    lemma_table_insert(t0, cv, j, q, states@);
                    assert forall|m: int| 0 <= m < t1.len() implies (#[trigger] t1[m]).1 < j + 1 by {
                        if m < t0.len() {
                            assert(t1[m] == t0[m]);
                        }
                    }
                    if !need {
                        assert forall|id: ProjectId| id < j + 1 implies table_has(t1, id) by {
                            if id < j {
                                assert(table_has(t0, id));
                            }
                        }
                    }
                    assert(cv == qualified_name(q[j as int], sb[j as int] as int));
                    assert(pass_from(q, sb, t0, j as int, need0, ch0, cl0) == pass_from(
                        q,
                        sb,
                        t1,
                        j + 1,
                        need0,
                        ch0,
                        cl0,
                    ));
                }
            },
            Some(k) => {
                proof {
                    lemma_find_entry(t0, cand@, k as int);
                }
                let entry = table.remove(k);
                let ident2 = entry.1;
                proof {
                    assert(t0[k as int].1 == ident2);
                    assert(t0[k as int].0 == cand@);
                    lemma_table_remove(t0, k as int, q, states@);
                    assert(tview(table@) =~= t0.remove(k as int));
                    assert(ids_below(tview(table@), j as int));
                    assert(ident2 < j);
                    if colon_free(q) {
                        lemma_disambiguate_progress(
                            q[j as int],
                            q[ident2 as int],
                            sb[j as int] as int,
                            sb[ident2 as int] as int,
                        );
                        lemma_qualified_name_injective(
                            q[j as int],
                            sb[j as int] as int,
                            q[ident2 as int],
                            sb[ident2 as int] as int,
                        );
                        assert(q[j as int][0] == q[ident2 as int][0]);
                    }
                    lemma_disambiguate_bounds(
                        q[j as int],
                        q[ident2 as int],
                        sb[j as int] as int,
                        sb[ident2 as int] as int,
                    );
                }
                let ghost t_removed = tview(table@);
                let cand_copy = cand.clone();
                let s1 = states[j];
                let s2 = states[ident2];
                match resolve_clash(projects, states, &mut table, j, ident2, cand) {
                    Ok(displaced) => {
                        let ghost sd = spec_disambiguate(
                            q[j as int],
                            q[ident2 as int],
                            sb[j as int] as int,
                            sb[ident2 as int] as int,
                        );
                        proof {
                            let (t1g, t2g) = sd.unwrap();
                            assert(sb[j as int] <= t1g && sb[ident2 as int] <= t2g);
                            assert(states@[j as int] == t1g);
                            assert(states@[ident2 as int] == t2g);
                            assert forall|i: int| 0 <= i < n implies st0[i] <= states@[i] by {
                                assert(st0[i] <= sb[i]);
                            }
                            if states@[j as int] != s1 {
                                assert(st0[j as int] < states@[j as int]);
                            }
                            if states@[ident2 as int] != s2 {
                                assert(st0[ident2 as int] < states@[ident2 as int]);
                            }
                            if changed {
                                let i = choose|i: int| 0 <= i < n && st0[i] < sb[i];
                                assert(st0[i] < states@[i]);
                            }
                        }
                        if states[j] != s1 || states[ident2] != s2 {
                            changed = true;
                        }
                        if displaced {
                            need = true;
                        }
                        proof {
                            if !need {
                                assert forall|id: ProjectId| id < j + 1 implies table_has(
                                    tview(table@),
                                    id,
                                ) by {
                                    if id < j && id != ident2 {
                                        assert(table_has(t0, id));
                                        assert(table_has(t_removed, id));
                                    }
                                }
                            }
                            assert forall|p: int|
                                0 <= p < n && colon_free(q) && unique_narrowest(q, p) && st0[p]
                                    == 1 implies states@[p] == 1 by {
                                if p == j as int || p == ident2 as int {
                                    assert(q[j as int][0] == q[ident2 as int][0]);
                                }
                            }
                        }
                    },
                    Err(e) => {
                        proof {
                            assert(q[ident2 as int] == q[j as int]);
                            assert(spec_pass(q, st0) == Err::<
                                (Seq<usize>, Seq<(Seq<char>, ProjectId)>, bool, bool, Seq<char>),
                                Seq<char>,
                            >(cand_copy@));
                        }
                        return Err(e);
                    },
                }
                clash = cand_copy;
                proof {
                    let (a, b) = spec_disambiguate(q[j as int], q[ident2 as int], sb[j as int] as int, sb[ident2 as int] as int).unwrap();
                    assert(states@ =~= sb.update(j as int, a as usize).update(ident2 as int, b as usize));
                    assert(pass_from(q, sb, t0, j as int, need0, ch0, cl0) == pass_from(
                        q,
                        states@,
                        tview(table@),
                        j + 1,
                        need,
                        changed,
                        clash@,
                    ));
                }
            },
        }
        j = j + 1;
    }
    Ok((table, need, changed, clash))
}

/// Name assignment from the states `st`, with at most `fuel` passes: passes
/// are repeated while a pass needs another and widened some name. The
/// result is the final states and table, or the name on which two projects
/// could not be told apart.
pub open spec fn assign_from(q: Seq<Seq<Seq<char>>>, st: Seq<usize>, fuel: nat) -> Result<
    (Seq<usize>, Seq<(Seq<char>, ProjectId)>),
    Seq<char>,
>
    decreases fuel,
{
    if fuel == 0 {
        Err(Seq::empty())
    } else {
        match spec_pass(q, st) {
            Err(c) => Err(c),
            Ok((st2, t, need, changed, clash)) => if !need {
                Ok((st2, t))
            } else if !changed {
                Err(clash)
            } else {
                assign_from(q, st2, (fuel - 1) as nat)
            },
        }
    }
}

/// Every project starting from its narrowest name.
pub open spec fn narrowest_states(q: Seq<Seq<Seq<char>>>) -> Seq<usize> {
    Seq::new(q.len(), |i: int| 1usize)
}

/// The outcome of name assignment: how many qualified names each project's
/// user-facing name uses and the table of names, or the name on which two
/// projects could not be told apart. Each pass widens some name, so the
/// passes end before the names' room for widening runs out.
pub open spec fn assigned_names(q: Seq<Seq<Seq<char>>>) -> Result<
    (Seq<usize>, Seq<(Seq<char>, ProjectId)>),
    Seq<char>,
> {
    assign_from(q, narrowest_states(q), (slack_upto(q, narrowest_states(q), q.len() as int) + 1) as nat)
}

/// How many qualified names each project's user-facing name uses, where
/// name assignment succeeds.
pub open spec fn assigned_states(q: Seq<Seq<Seq<char>>>) -> Seq<usize> {
    match assigned_names(q) {
        Ok((st, _)) => st,
        Err(_) => Seq::empty(),
    }
}

/// Every project has a qualified name.
pub open spec fn all_named(ps: Seq<ProjectBuilder>) -> bool {
    forall|i: int| 0 <= i < ps.len() ==> (#[trigger] ps[i]).qnames@.len() > 0
}

/// Assigns every project a user-facing name, unique among the projects.
/// Every project starts with its narrowest name; passes over the projects
/// widen clashing names until a pass completes without a clash. Returns the
/// table from names to projects and how many qualified names each name uses.
fn assign_names(projects: &Vec<ProjectBuilder>) -> (res: Result<(Vec<(String, ProjectId)>, Vec<usize>), Error>)
    requires
        all_named(projects@),
    ensures
        match res {
            Ok((table, st)) => {
                let q = all_qnames(projects@);
                &&& valid_states(q, st@)
                &&& table_ok(tview(table@), q, st@)
                &&& forall|id: ProjectId| id < q.len() ==> table_has(tview(table@), id)
                &&& forall|p: int|
                    0 <= p < q.len() && colon_free(q) && unique_narrowest(q, p) ==> st@[p] == 1
            },
            Err(e) => e is NamingClash && (!distinct_qnames(all_qnames(projects@)) || !colon_free(
                all_qnames(projects@),
            )),
        },
        match assigned_names(all_qnames(projects@)) {
            Ok((st, t)) => res matches Ok((tb, st2)) && st2@ == st && tview(tb@) == t,
            Err(c) => res matches Err(Error::NamingClash(x)) && x@ == c,
        },
{
    let n = projects.len();
    let ghost q = all_qnames(projects@);
    let mut states: Vec<usize> = Vec::new();
    let mut i: usize = 0;
    while i < n
        invariant
            i <= n,
            n == projects@.len(),
            q == all_qnames(projects@),
            all_named(projects@),
            states@.len() == i,
            forall|k: int| 0 <= k < i ==> states@[k] == 1,
        decreases n - i,
    {
        states.push(1);
        i = i + 1;
    }
    proof {
        assert forall|k: int| 0 <= k < n implies 1 <= #[trigger] states@[k] <= q[k].len() by {
            assert(q[k] == projects@[k].qnames_view());
            assert(projects@[k].qnames@.len() > 0);
        }
        lemma_slack_decreases(q, states@, states@, n as int);
    }
    let ghost mut fuel: nat = (slack_upto(q, states@, n as int) + 1) as nat;
    proof {
        assert(states@ =~= narrowest_states(q));
    }
    loop
        invariant
            n == projects@.len(),
            q == all_qnames(projects@),
            q.len() == n,
            valid_states(q, states@),
            forall|p: int| 0 <= p < n && colon_free(q) && unique_narrowest(q, p) ==> states@[p] == 1,
            slack_upto(q, states@, n as int) >= 0,
            fuel > slack_upto(q, states@, n as int),
            assigned_names(q) == assign_from(q, states@, fuel),
        decreases slack_upto(q, states@, n as int),
    {
        let ghost before = states@;
        match naming_pass(projects, &mut states) {
            Err(e) => return Err(e),
            Ok((table, need, changed, clash)) => {
                if !need {
                    return Ok((table, states));
                }
                if !changed {
                    return Err(Error::NamingClash(clash));
                }
                proof {
                    lemma_slack_decreases(q, before, states@, n as int);
                    fuel = (fuel - 1) as nat;
                }
            },
        }
    }
}

// ---------------------------------------------------------------------------
// The dependency graph

/// Declared so that a `petgraph` graph can be held by verified code.
#[verifier::external_type_specification]
#[verifier::external_body]
#[verifier::reject_recursive_types(N)]
#[verifier::reject_recursive_types(E)]
#[verifier::reject_recursive_types(Ty)]
#[verifier::reject_recursive_types(Ix)]
pub struct ExGraph<N, E, Ty, Ix>(petgraph::graph::Graph<N, E, Ty, Ix>);

/// Declared so that directed `petgraph` graphs can be named.
#[verifier::external_type_specification]
#[verifier::external_body]
pub struct ExDirected(petgraph::Directed);

/// The node weights of a dependency graph, by node index.
pub uninterp spec fn graph_nodes(g: petgraph::graph::DiGraph<ProjectId, ()>) -> Seq<ProjectId>;

/// The edges of a dependency graph, as pairs of node indices, in the order in
/// which they were added.
pub uninterp spec fn graph_edges(g: petgraph::graph::DiGraph<ProjectId, ()>) -> Seq<(usize, usize)>;

/// The largest number of nodes or edges a graph with 32-bit indices holds:
/// the index `u32::MAX` is reserved as an end marker.
pub open spec fn index_limit() -> nat {
    4294967295
}

/// Calls `Graph::new`: a graph without nodes or edges.
#[verifier::external_body]
fn new_digraph() -> (g: petgraph::graph::DiGraph<ProjectId, ()>)
    ensures
        graph_nodes(g) == Seq::<ProjectId>::empty(),
        graph_edges(g) == Seq::<(usize, usize)>::empty(),
{
    petgraph::graph::DiGraph::new()
}

/// Calls `Graph::add_node`, which appends a node with the given weight and
/// returns its index, the former node count. It panics once the index
/// space is exhausted.
#[verifier::external_body]
fn digraph_add_node(g: &mut petgraph::graph::DiGraph<ProjectId, ()>, w: ProjectId) -> (ix: usize)
    requires
        graph_nodes(*old(g)).len() < index_limit(),
    ensures
        graph_nodes(*final(g)) == graph_nodes(*old(g)).push(w),
        graph_edges(*final(g)) == graph_edges(*old(g)),
        ix == graph_nodes(*old(g)).len(),
{
    g.add_node(w).index()
}

/// Calls `Graph::add_edge`, which appends an edge between two existing
/// nodes. It panics on a node index out of bounds or once the index space
/// is exhausted.
#[verifier::external_body]
fn digraph_add_edge(g: &mut petgraph::graph::DiGraph<ProjectId, ()>, a: usize, b: usize)
    requires
        a < graph_nodes(*old(g)).len(),
        b < graph_nodes(*old(g)).len(),
        graph_edges(*old(g)).len() < index_limit(),
    ensures
        graph_nodes(*final(g)) == graph_nodes(*old(g)),
        graph_edges(*final(g)) == graph_edges(*old(g)).push((a, b)),
{
    g.add_edge(petgraph::graph::NodeIndex::new(a), petgraph::graph::NodeIndex::new(b), ());
}

/// Whether `order` lists the `n` nodes of a graph, each once, every edge's
/// source before its target.
pub open spec fn is_topo_order(n: nat, edges: Seq<(usize, usize)>, order: Seq<usize>) -> bool {
    &&& order.len() == n
    &&& forall|i: int| 0 <= i < order.len() ==> order[i] < n
    &&& order.no_duplicates()
    &&& forall|e: int, i: int, j: int|
        0 <= e < edges.len() && 0 <= i < order.len() && 0 <= j < order.len() && order[i]
            == edges[e].0 && order[j] == edges[e].1 ==> i < j
}

/// The result of `petgraph::algo::toposort` on a graph with these nodes and
/// edges: node indices in order, or the index of a node on a cycle.
pub uninterp spec fn petgraph_toposort(nodes: Seq<ProjectId>, edges: Seq<(usize, usize)>) -> Result<
    Seq<usize>,
    usize,
>;

/// Calls `petgraph::algo::toposort`. Its documentation states that an
/// acyclic graph gives its nodes in topological order, each before its
/// successors, and that a graph with a cycle (a self loop included) gives a
/// `Cycle` error naming a node. That the node lies on a cycle is not
/// restated here.
#[verifier::external_body]
fn digraph_toposort(g: &petgraph::graph::DiGraph<ProjectId, ()>) -> (res: Result<Vec<usize>, usize>)
    ensures
        match res {
            Ok(order) => petgraph_toposort(graph_nodes(*g), graph_edges(*g)) == Ok::<Seq<usize>, usize>(
                order@,
            ) && is_topo_order(graph_nodes(*g).len(), graph_edges(*g), order@),
            Err(c) => petgraph_toposort(graph_nodes(*g), graph_edges(*g)) == Err::<Seq<usize>, usize>(c)
                && c < graph_nodes(*g).len() && !exists|o: Seq<usize>|
                is_topo_order(graph_nodes(*g).len(), graph_edges(*g), o),
        },
{
    match petgraph::algo::toposort(g, None) {
        Ok(v) => Ok(v.into_iter().map(|n| n.index()).collect()),
        Err(c) => Err(c.node_id().index()),
    }
}

/// The node weights `0, 1, ..., n-1`.
pub open spec fn ident_nodes(n: nat) -> Seq<ProjectId> {
    Seq::new(n, |i: int| i as ProjectId)
}

/// A builder for the project graph upon app startup.
#[derive(Debug)]
pub struct ProjectGraphBuilder {
    /// The projects, identified by their index.
    projects: Vec<ProjectBuilder>,
    /// The dependency graph; node `i` stands for project `i`.
    graph: petgraph::graph::DiGraph<ProjectId, ()>,
}

/// Every version recorded for a project can be rendered, and no dependency
/// has a resolved version yet.
pub open spec fn builders_ok(ps: Seq<ProjectBuilder>) -> bool {
    forall|i: int|
        0 <= i < ps.len() ==> ((#[trigger] ps[i]).version matches Some(v) ==> v@.wf()) && forall|k: int|
            0 <= k < ps[i].internal_deps@.len() ==> (#[trigger] ps[i].internal_deps@[k]).resolved_version is None
}

/// Whether a dependency target denotes a known project or a name.
pub open spec fn target_ok(t: DependencyTarget, n: nat) -> bool {
    match t {
        DependencyTarget::Ident(id) => id < n,
        DependencyTarget::Text(_) => true,
    }
}

impl ProjectGraphBuilder {
    pub closed spec fn projects_view(&self) -> Seq<ProjectBuilder> {
        self.projects@
    }

    pub closed spec fn wf(&self) -> bool {
        &&& all_named(self.projects@)
        &&& graph_nodes(self.graph) == ident_nodes(self.projects@.len())
        &&& graph_edges(self.graph).len() == 0
        &&& forall|i: int, k: int|
            0 <= i < self.projects@.len() && 0 <= k < self.projects@[i].internal_deps@.len()
                ==> target_ok(#[trigger] self.projects@[i].internal_deps@[k].target, self.projects@.len())
        &&& builders_ok(self.projects@)
    }

    /// An empty graph builder.
    pub fn new() -> (res: ProjectGraphBuilder)
        ensures
            res.wf(),
            res.projects_view().len() == 0,
    {
        let res = ProjectGraphBuilder { projects: Vec::new(), graph: new_digraph() };
        assert(graph_nodes(res.graph) =~= ident_nodes(0));
        res
    }

    /// Registers a new project, unless the configuration says to ignore it;
    /// the configuration is keyed by the project's full name, its qualified
    /// names joined by colons from the widest to the narrowest.
    pub fn try_add_project(&mut self, qnames: Vec<String>, pconfig: &Vec<(String, ProjectConfiguration)>) -> (res:
        Option<ProjectId>)
        requires
            old(self).wf(),
            qnames@.len() > 0,
            old(self).projects_view().len() + 1 < index_limit(),
        ensures
            final(self).wf(),
            if config_ignores(pconfig@, full_name(names_view(qnames@))) {
                res is None && final(self).projects_view() == old(self).projects_view()
            } else {
                res == Some(old(self).projects_view().len() as ProjectId)
                    && final(self).projects_view().len() == old(self).projects_view().len() + 1
                    && final(self).projects_view().subrange(
                    0,
                    old(self).projects_view().len() as int,
                ) == old(self).projects_view() && final(self).projects_view().last().qnames
                    == qnames && final(self).projects_view().last().version is None
                    && final(self).projects_view().last().prefix is None
                    && final(self).projects_view().last().rewriters@.len() == 0
                    && final(self).projects_view().last().internal_deps@.len() == 0
            },
    {
        let full = compute_name(&qnames, qnames.len());
        if is_ignored(pconfig, &full) {
            return None;
        }
        let id = self.projects.len();
        let ghost before = self.projects@;
        self.projects.push(ProjectBuilder::new(qnames));
        let ix = digraph_add_node(&mut self.graph, id);
        proof {
            assert(self.projects@.subrange(0, id as int) =~= before);
            assert(graph_nodes(self.graph) =~= ident_nodes(self.projects@.len()));
            assert forall|i: int, k: int|
                0 <= i < self.projects@.len() && 0 <= k < self.projects@[i].internal_deps@.len()
                    implies target_ok(#[trigger] self.projects@[i].internal_deps@[k].target, self.projects@.len()) by {
                if i < id {
                    assert(self.projects@[i] == before[i]);
                }
            }
        }
        Some(id)
    }

    /// The number of projects registered.
    pub fn len(&self) -> (res: usize)
        ensures
            res == self.projects_view().len(),
    {
        self.projects.len()
    }

    /// Whether the projects' dependencies are fewer than the dependency
    /// graph can hold.
    pub fn deps_fit(&self) -> (res: bool)
        ensures
            res == (dep_count(self.projects_view()) < index_limit()),
    {
        let ghost ps = self.projects@;
        let mut total: u64 = 0;
        let mut i: usize = 0;
        while i < self.projects.len()
            invariant
                i <= ps.len(),
                ps == self.projects@,
                total as int == dep_count_upto(ps, i as int),
                total < index_limit(),
            decreases ps.len() - i,
        {
            proof {
                lemma_dep_count_step(ps, i as int);
            }
            let n = self.projects[i].internal_deps.len();
            if n as u64 >= 4294967295 - total {
                proof {
                    lemma_dep_count_mono(ps, i + 1, ps.len() as int);
                }
                return false;
            }
            total = total + n as u64;
            i = i + 1;
        }
        true
    }

    /// A project builder, by its identifier.
    pub fn lookup(&self, ident: ProjectId) -> (res: &ProjectBuilder)
        requires
            ident < self.projects_view().len(),
        ensures
            *res == self.projects_view()[ident as int],
    {
        &self.projects[ident]
    }

    /// Records the version of a project.
    pub fn set_version(&mut self, ident: ProjectId, version: crate::version::Version)
        requires
            old(self).wf(),
            ident < old(self).projects_view().len(),
            version@.wf(),
        ensures
            final(self).wf(),
            final(self).projects_view().len() == old(self).projects_view().len(),
            forall|i: int|
                0 <= i < old(self).projects_view().len() && i != ident ==> final(self).projects_view()[i]
                    == old(self).projects_view()[i],
            final(self).projects_view()[ident as int].version == Some(version),
            final(self).projects_view()[ident as int].qnames == old(self).projects_view()[ident as int].qnames,
            final(self).projects_view()[ident as int].prefix == old(self).projects_view()[ident as int].prefix,
            final(self).projects_view()[ident as int].rewriters == old(self).projects_view()[ident as int].rewriters,
            final(self).projects_view()[ident as int].internal_deps == old(self).projects_view()[ident as int].internal_deps,
    {
        let ghost before = self.projects@;
        let mut b = self.projects.remove(ident);
        b.version = Some(version);
        self.projects.insert(ident, b);
        proof {
            assert forall|i: int| 0 <= i < before.len() && i != ident implies self.projects@[i] == before[i] by {}
            assert forall|i: int, k: int|
                0 <= i < self.projects@.len() && 0 <= k < self.projects@[i].internal_deps@.len()
                    implies target_ok(#[trigger] self.projects@[i].internal_deps@[k].target, self.projects@.len()) by {
                assert(self.projects@[i].internal_deps == before[i].internal_deps);
            }
        }
    }

    /// Records the directory prefix of a project.
    pub fn set_prefix(&mut self, ident: ProjectId, prefix: crate::repository::RepoPathBuf)
        requires
            old(self).wf(),
            ident < old(self).projects_view().len(),
        ensures
            final(self).wf(),
            final(self).projects_view().len() == old(self).projects_view().len(),
            forall|i: int|
                0 <= i < old(self).projects_view().len() && i != ident ==> final(self).projects_view()[i]
                    == old(self).projects_view()[i],
            final(self).projects_view()[ident as int].prefix == Some(prefix),
            final(self).projects_view()[ident as int].qnames == old(self).projects_view()[ident as int].qnames,
            final(self).projects_view()[ident as int].version == old(self).projects_view()[ident as int].version,
            final(self).projects_view()[ident as int].rewriters == old(self).projects_view()[ident as int].rewriters,
            final(self).projects_view()[ident as int].internal_deps == old(self).projects_view()[ident as int].internal_deps,
    {
        let ghost before = self.projects@;
        let mut b = self.projects.remove(ident);
        b.prefix = Some(prefix);
        self.projects.insert(ident, b);
        proof {
            assert forall|i: int| 0 <= i < before.len() && i != ident implies self.projects@[i] == before[i] by {}
            assert forall|i: int, k: int|
                0 <= i < self.projects@.len() && 0 <= k < self.projects@[i].internal_deps@.len()
                    implies target_ok(#[trigger] self.projects@[i].internal_deps@[k].target, self.projects@.len()) by {
                assert(self.projects@[i].internal_deps == before[i].internal_deps);
            }
        }
    }

    /// Adds a step that rewrites one of a project's metadata files.
    pub fn add_rewriter(&mut self, ident: ProjectId, rw: crate::project::Rewriter)
        requires
            old(self).wf(),
            ident < old(self).projects_view().len(),
        ensures
            final(self).wf(),
            final(self).projects_view().len() == old(self).projects_view().len(),
            forall|i: int|
                0 <= i < old(self).projects_view().len() && i != ident ==> final(self).projects_view()[i]
                    == old(self).projects_view()[i],
            final(self).projects_view()[ident as int].rewriters@ == old(self).projects_view()[ident as int].rewriters@.push(rw),
            final(self).projects_view()[ident as int].qnames == old(self).projects_view()[ident as int].qnames,
            final(self).projects_view()[ident as int].version == old(self).projects_view()[ident as int].version,
            final(self).projects_view()[ident as int].prefix == old(self).projects_view()[ident as int].prefix,
            final(self).projects_view()[ident as int].internal_deps == old(self).projects_view()[ident as int].internal_deps,
    {
        let ghost before = self.projects@;
        let mut b = self.projects.remove(ident);
        b.rewriters.push(rw);
        self.projects.insert(ident, b);
        proof {
            assert forall|i: int| 0 <= i < before.len() && i != ident implies self.projects@[i] == before[i] by {}
            assert forall|i: int, k: int|
                0 <= i < self.projects@.len() && 0 <= k < self.projects@[i].internal_deps@.len()
                    implies target_ok(#[trigger] self.projects@[i].internal_deps@[k].target, self.projects@.len()) by {
                assert(self.projects@[i].internal_deps == before[i].internal_deps);
            }
        }
    }

    /// Adds a dependency of one project on another.
    pub fn add_dependency(
        &mut self,
        depender_id: ProjectId,
        dependee_target: DependencyTarget,
        literal: String,
        req: DepRequirement,
    )
        requires
            old(self).wf(),
            depender_id < old(self).projects_view().len(),
            target_ok(dependee_target, old(self).projects_view().len()),
        ensures
            final(self).wf(),
            final(self).projects_view().len() == old(self).projects_view().len(),
            forall|i: int|
                0 <= i < old(self).projects_view().len() && i != depender_id ==> final(self).projects_view()[i]
                    == old(self).projects_view()[i],
            final(self).projects_view()[depender_id as int].internal_deps@ == old(self).projects_view()[depender_id as int].internal_deps@.push(
                DependencyBuilder {
                    target: dependee_target,
                    literal,
                    cranko_requirement: req,
                    resolved_version: None,
                },
            ),
            final(self).projects_view()[depender_id as int].qnames == old(self).projects_view()[depender_id as int].qnames,
            final(self).projects_view()[depender_id as int].version == old(self).projects_view()[depender_id as int].version,
            final(self).projects_view()[depender_id as int].prefix == old(self).projects_view()[depender_id as int].prefix,
            final(self).projects_view()[depender_id as int].rewriters == old(self).projects_view()[depender_id as int].rewriters,
    {
        let ghost before = self.projects@;
        let mut b = self.projects.remove(depender_id);
        b.internal_deps.push(
            DependencyBuilder {
                target: dependee_target,
                literal,
                cranko_requirement: req,
                resolved_version: None,
            },
        );
        self.projects.insert(depender_id, b);
        proof {
            assert forall|i: int| 0 <= i < before.len() && i != depender_id implies self.projects@[i] == before[i] by {}
            assert forall|i: int, k: int|
                0 <= i < self.projects@.len() && 0 <= k < self.projects@[i].internal_deps@.len()
                    implies target_ok(#[trigger] self.projects@[i].internal_deps@[k].target, self.projects@.len()) by {
                if i != depender_id {
                    assert(self.projects@[i] == before[i]);
                } else if k < before[i].internal_deps@.len() {
                    assert(self.projects@[i].internal_deps@[k] == before[i].internal_deps@[k]);
                }
            }
        }
    }
}

/// The dependency edges of the first `n` projects: one from each dependee to
/// its depender, in the order of the projects and of their dependencies.
pub open spec fn dep_edges_upto(ps: Seq<Project>, n: int) -> Seq<(usize, usize)>
    decreases n,
{
    if n <= 0 {
        Seq::empty()
    } else {
        dep_edges_upto(ps, n - 1) + deps_edges(ps[n - 1].deps_view(), (n - 1) as usize)
    }
}

/// The edges from each of `deps` to the project `owner`.
pub open spec fn deps_edges(deps: Seq<Dependency>, owner: usize) -> Seq<(usize, usize)> {
    deps.map_values(|d: Dependency| (d.ident, owner))
}

/// All dependency edges of a list of projects.
pub open spec fn dep_edges(ps: Seq<Project>) -> Seq<(usize, usize)> {
    dep_edges_upto(ps, ps.len() as int)
}

/// The number of dependencies of the first `n` project builders.
pub open spec fn dep_count_upto(ps: Seq<ProjectBuilder>, n: int) -> int
    decreases n,
{
    if n <= 0 {
        0
    } else {
        dep_count_upto(ps, n - 1) + ps[n - 1].internal_deps@.len()
    }
}

/// The project that a dependency target denotes, given the assigned names.
pub open spec fn resolve_target(t: DependencyTarget, names: Seq<(Seq<char>, ProjectId)>) -> Option<ProjectId> {
    match t {
        DependencyTarget::Ident(id) => Some(id),
        DependencyTarget::Text(n) => match find_entry(names, n@) {
            Some(k) => Some(names[k].1),
            None => None,
        },
    }
}

/// Every project has qualified names and a version that can be rendered,
/// and its dependencies refer to projects of the list and have renderable
/// resolved versions.
pub open spec fn projects_ok(ps: Seq<Project>) -> bool {
    forall|i: int|
        0 <= i < ps.len() ==> (#[trigger] ps[i]).qnames_view().len() > 0 && ps[i].version_view().wf()
            && forall|k: int|
            0 <= k < ps[i].deps_view().len() ==> (#[trigger] ps[i].deps_view()[k]).ident < ps.len() && (
            ps[i].deps_view()[k].resolved_version matches Some(v) ==> v@.wf())
}

/// A DAG of projects expressing their dependencies.
#[derive(Debug)]
pub struct ProjectGraph {
    /// The projects, identified by their index.
    projects: Vec<Project>,
    /// The dependency graph; node `i` stands for project `i`.
    graph: petgraph::graph::DiGraph<ProjectId, ()>,
    /// The projects by user-facing name.
    name_to_id: Vec<(String, ProjectId)>,
    /// The project identifiers in a topological order.
    toposorted_ids: Vec<ProjectId>,
}

impl ProjectGraph {
    /// No two projects share a name; every project has qualified names and a
    /// version that can be rendered; dependencies refer to projects of the
    /// graph.
    #[verifier::type_invariant]
    spec fn graph_inv(&self) -> bool {
        &&& forall|a: int, b: int|
            0 <= a < b < self.name_to_id@.len() ==> tview(self.name_to_id@)[a].0 != tview(
                self.name_to_id@,
            )[b].0
        &&& projects_ok(self.projects@)
        &&& self.toposorted_ids@.len() == self.projects@.len()
        &&& self.toposorted_ids@.no_duplicates()
        &&& forall|k: int| 0 <= k < self.toposorted_ids@.len() ==> #[trigger] self.toposorted_ids@[k] < self.projects@.len()
    }

    pub closed spec fn projects_view(&self) -> Seq<Project> {
        self.projects@
    }

    pub closed spec fn names_view(&self) -> Seq<(Seq<char>, ProjectId)> {
        tview(self.name_to_id@)
    }

    pub closed spec fn order_view(&self) -> Seq<ProjectId> {
        self.toposorted_ids@
    }

    /// The number of projects.
    pub fn len(&self) -> (res: usize)
        ensures
            res == self.projects_view().len(),
    {
        self.projects.len()
    }

    /// A project, by its identifier.
    pub fn lookup(&self, ident: ProjectId) -> (res: &Project)
        requires
            ident < self.projects_view().len(),
        ensures
            *res == self.projects_view()[ident as int],
            res.qnames_view().len() > 0,
            res.version_view().wf(),
            forall|k: int|
                0 <= k < res.deps_view().len() ==> (#[trigger] res.deps_view()[k]).ident
                    < self.projects_view().len() && (res.deps_view()[k].resolved_version matches Some(
                    v,
                ) ==> v@.wf()),
    {
        proof {
            use_type_invariant(self);
        }
        &self.projects[ident]
    }

    /// The project with a user-facing name, if there is one.
    pub fn lookup_ident(&self, name: &String) -> (res: Option<ProjectId>)
        ensures
            match find_entry(self.names_view(), name@) {
                Some(k) => res == Some(self.names_view()[k].1),
                None => res is None,
            },
    {
        match find_key(&self.name_to_id, name) {
            Some(k) => {
                proof {
                    use_type_invariant(self);
                    lemma_find_entry(self.names_view(), name@, k as int);
                }
                Some(self.name_to_id[k].1)
            },
            None => {
                proof {
                    lemma_find_entry_none(self.names_view(), name@);
                }
                None
            },
        }
    }

    /// A copy of the project identifiers in topological order.
    pub fn toposorted_ids(&self) -> (res: Vec<ProjectId>)
        ensures
            res@ == self.order_view(),
            res@.len() == self.projects_view().len(),
            res@.no_duplicates(),
            forall|k: int| 0 <= k < res@.len() ==> #[trigger] res@[k] < self.projects_view().len(),
    {
        proof {
            use_type_invariant(self);
        }
        let mut v: Vec<ProjectId> = Vec::new();
        let mut i: usize = 0;
        while i < self.toposorted_ids.len()
            invariant
                i <= self.toposorted_ids@.len(),
                v@ == self.toposorted_ids@.take(i as int),
            decreases self.toposorted_ids@.len() - i,
        {
            v.push(self.toposorted_ids[i]);
            proof {
                assert(self.toposorted_ids@.take(i + 1) =~= self.toposorted_ids@.take(i as int).push(self.toposorted_ids@[i as int]));
            }
            i = i + 1;
        }
        proof {
            assert(self.toposorted_ids@.take(self.toposorted_ids@.len() as int) =~= self.toposorted_ids@);
        }
        v
    }

    /// The project identifiers in topological order: every project comes
    /// after the projects it depends on.
    pub fn toposorted(&self) -> (res: &[ProjectId])
        ensures
            res@ == self.order_view(),
            res@.len() == self.projects_view().len(),
            res@.no_duplicates(),
            forall|k: int| 0 <= k < res@.len() ==> #[trigger] res@[k] < self.projects_view().len(),
    {
        proof {
            use_type_invariant(self);
        }
        self.toposorted_ids.as_slice()
    }
}

/// Resolves the dependencies of project `owner` and adds their edges to the
/// graph: each dependee points to its depender.
fn resolve_deps(
    deps: Vec<DependencyBuilder>,
    owner: usize,
    owner_name: &String,
    table: &Vec<(String, ProjectId)>,
    graph: &mut petgraph::graph::DiGraph<ProjectId, ()>,
    n: usize,
) -> (res: Result<Vec<Dependency>, Error>)
    requires
        owner < n,
        graph_nodes(*old(graph)) == ident_nodes(n as nat),
        graph_edges(*old(graph)).len() + deps@.len() < index_limit(),
        forall|k: int| 0 <= k < deps@.len() ==> target_ok(#[trigger] deps@[k].target, n as nat),
        forall|a: int, b: int| 0 <= a < b < table@.len() ==> tview(table@)[a].0 != tview(table@)[b].0,
        forall|k: int| 0 <= k < table@.len() ==> (#[trigger] tview(table@)[k]).1 < n,
    ensures
        graph_nodes(*final(graph)) == graph_nodes(*old(graph)),
        match res {
            Ok(out) => {
                &&& out@.len() == deps@.len()
                &&& forall|k: int|
                    0 <= k < out@.len() ==> resolve_target(deps@[k].target, tview(table@)) == Some(
                        (#[trigger] out@[k]).ident,
                    ) && out@[k].ident < n && out@[k].literal == deps@[k].literal
                        && out@[k].cranko_requirement == deps@[k].cranko_requirement
                        && out@[k].resolved_version == deps@[k].resolved_version
                &&& graph_edges(*final(graph)) == graph_edges(*old(graph)) + deps_edges(out@, owner)
            },
            Err(e) => e matches Error::UnknownDependency(pn, dn) && pn@ == owner_name@ && exists|k: int|
                0 <= k < deps@.len() && (#[trigger] deps@[k].target matches DependencyTarget::Text(t)
                    && t@ == dn@) && resolve_target(deps@[k].target, tview(table@)) is None,
        },
{
    let ghost orig = deps@;
    let ghost e0 = graph_edges(*graph);
    let ghost nodes0 = graph_nodes(*graph);
    let mut rest = deps;
    let mut out: Vec<Dependency> = Vec::new();
    let mut i: usize = 0;
    proof {
        assert(orig.skip(0) =~= orig);
        assert(deps_edges(out@, owner) =~= Seq::<(usize, usize)>::empty());
        assert(e0 + Seq::<(usize, usize)>::empty() =~= e0);
    }
    while rest.len() > 0
        invariant
            i + rest@.len() == orig.len(),
            rest@ == orig.skip(i as int),
            out@.len() == i,
            owner < n,
            nodes0 == graph_nodes(*old(graph)),
            e0 == graph_edges(*old(graph)),
            orig == deps@,
            nodes0 == ident_nodes(n as nat),
            graph_nodes(*graph) == nodes0,
            e0.len() + orig.len() < index_limit(),
            graph_edges(*graph) == e0 + deps_edges(out@, owner),
            forall|k: int| 0 <= k < orig.len() ==> target_ok(#[trigger] orig[k].target, n as nat),
            forall|a: int, b: int| 0 <= a < b < table@.len() ==> tview(table@)[a].0 != tview(table@)[b].0,
            forall|k: int| 0 <= k < table@.len() ==> (#[trigger] tview(table@)[k]).1 < n,
            forall|k: int|
                0 <= k < i ==> resolve_target(orig[k].target, tview(table@)) == Some(
                    (#[trigger] out@[k]).ident,
                ) && out@[k].ident < n && out@[k].literal == orig[k].literal
                    && out@[k].cranko_requirement == orig[k].cranko_requirement
                    && out@[k].resolved_version == orig[k].resolved_version,
        decreases rest@.len(),
    {
        let d = rest.remove(0);
        proof {
            assert(d == orig[i as int]);
            assert(rest@ =~= orig.skip(i + 1));
        }
        let dep_ident = match &d.target {
            DependencyTarget::Ident(id) => *id,
            DependencyTarget::Text(dep_name) => match find_key(table, dep_name) {
                Some(k) => {
                    proof {
                        lemma_find_entry(tview(table@), dep_name@, k as int);
                    }
                    table[k].1
                },
                None => {
                    proof {
                        lemma_find_entry_none(tview(table@), dep_name@);
                        assert(orig[i as int].target matches DependencyTarget::Text(t) && t@ == dep_name@);
                        assert(resolve_target(orig[i as int].target, tview(table@)) is None);
                    }
                    return Err(Error::UnknownDependency(owner_name.clone(), dep_name.clone()));
                },
            },
        };
        proof {
            assert(target_ok(orig[i as int].target, n as nat));
        }
        digraph_add_edge(graph, dep_ident, owner);
        let DependencyBuilder { target, literal, cranko_requirement, resolved_version } = d;
        let ghost before = out@;
        out.push(Dependency { ident: dep_ident, literal, cranko_requirement, resolved_version });
        proof {
            assert(deps_edges(out@, owner) =~= deps_edges(before, owner).push((dep_ident, owner)));
        }
        i = i + 1;
    }
    Ok(out)
}

/// The number of dependencies of all project builders.
pub open spec fn dep_count(ps: Seq<ProjectBuilder>) -> int {
    dep_count_upto(ps, ps.len() as int)
}

/// Some project other than `i`, among those for which `done` holds, is
/// rooted under project `i`'s prefix and holds `x`.
pub open spec fn claimed_elsewhere(ps: Seq<Seq<u8>>, i: int, x: Seq<u8>, done: spec_fn(int) -> bool) -> bool {
    exists|k: int|
        0 <= k < ps.len() && k != i && done(k) && is_prefix(ps[i], ps[k]) && #[trigger] is_prefix(
            ps[k],
            x,
        )
}

/// Whether the pair of projects `x < y` has been made disjoint when row `l`
/// is being processed and its partners before `b` are done.
pub open spec fn pair_done(x: int, y: int, l: int, b: int) -> bool {
    x < l || (x == l && y < b)
}

/// Whether projects `i` and `k` have been made disjoint.
pub open spec fn partner_done(i: int, k: int, l: int, b: int) -> bool {
    if i < k {
        pair_done(i, k, l, b)
    } else {
        pair_done(k, i, l, b)
    }
}

/// A matcher made of exclusions followed by the inclusion of a prefix.
pub open spec fn shaped(t: Seq<TermModel>, p: Seq<u8>) -> bool {
    t.len() >= 1 && t.last() == TermModel::Include(p) && all_excludes(t.drop_last())
}

/// The matchers after the pairs done so far: each excludes exactly the
/// prefixes of the projects, done with it, that lie under its own prefix.
pub open spec fn disjoin_state(ms: Seq<Seq<TermModel>>, ps: Seq<Seq<u8>>, l: int, b: int) -> bool {
    &&& ms.len() == ps.len()
    &&& forall|i: int| 0 <= i < ms.len() ==> shaped(#[trigger] ms[i], ps[i])
    &&& forall|i: int, x: Seq<u8>|
        0 <= i < ms.len() ==> (#[trigger] some_exclusion_prefixes(ms[i].drop_last(), x)
            <==> claimed_elsewhere(ps, i, x, |k: int| partner_done(i, k, l, b)))
}

proof fn lemma_no_exclusions_from_excludes(mine: Seq<TermModel>, f: Seq<TermModel>)
    requires
        all_excludes(f),
    ensures
        disjoint_exclusions(mine, f) == Seq::<TermModel>::empty(),
    decreases f.len(),
{
    if f.len() > 0 {
        assert(all_excludes(f.drop_last())) by {
            assert forall|i: int| 0 <= i < f.drop_last().len() implies #[trigger] f.drop_last()[i] is Exclude by {
                assert(f.drop_last()[i] == f[i]);
            }
        }
        lemma_no_exclusions_from_excludes(mine, f.drop_last());
        assert(f.last() is Exclude);
    }
}

proof fn lemma_excludes_give_nothing(e: Seq<TermModel>, q: Seq<u8>)
    requires
        all_excludes(e),
    ensures
        exclusions_for(e, q) == Seq::<TermModel>::empty(),
    decreases e.len(),
{
    if e.len() > 0 {
        assert(all_excludes(e.drop_last())) by {
            assert forall|i: int| 0 <= i < e.drop_last().len() implies #[trigger] e.drop_last()[i] is Exclude by {
                assert(e.drop_last()[i] == e[i]);
            }
        }
        lemma_excludes_give_nothing(e.drop_last(), q);
        assert(e.last() is Exclude);
    }
}

/// Between two shaped matchers, `make_disjoint` adds at most the exclusion
/// of the other's prefix.
proof fn lemma_shaped_exclusions(mine: Seq<TermModel>, p: Seq<u8>, other: Seq<TermModel>, q: Seq<u8>)
    requires
        shaped(mine, p),
        shaped(other, q),
    ensures
        disjoint_exclusions(mine, other) == if is_prefix(p, q) {
            seq![TermModel::Exclude(q)]
        } else {
            Seq::<TermModel>::empty()
        },
{
    lemma_no_exclusions_from_excludes(mine, other.drop_last());
    lemma_excludes_give_nothing(mine.drop_last(), q);
    assert(mine.drop_last().push(mine.last()) =~= mine);
    assert(exclusions_for(mine, q) == exclusions_for(mine.drop_last(), q) + (if is_prefix(p, q) {
        seq![TermModel::Exclude(q)]
    } else {
        Seq::<TermModel>::empty()
    }));
    assert(disjoint_exclusions(mine, other) == disjoint_exclusions(mine, other.drop_last())
        + exclusions_for(mine, q));
}

/// The exclusions of a concatenation.
proof fn lemma_some_exclusion_concat(a: Seq<TermModel>, b: Seq<TermModel>, x: Seq<u8>)
    ensures
        some_exclusion_prefixes(a + b, x) == (some_exclusion_prefixes(a, x) || some_exclusion_prefixes(b, x)),
{
    if some_exclusion_prefixes(a, x) {
        let i = choose|i: int| 0 <= i < a.len() && (#[trigger] a[i] matches TermModel::Exclude(q) && is_prefix(q, x));
        assert((a + b)[i] == a[i]);
    }
    if some_exclusion_prefixes(b, x) {
        let i = choose|i: int| 0 <= i < b.len() && (#[trigger] b[i] matches TermModel::Exclude(q) && is_prefix(q, x));
        assert((a + b)[a.len() + i] == b[i]);
    }
    if some_exclusion_prefixes(a + b, x) {
        let i = choose|i: int| 0 <= i < (a + b).len() && (#[trigger] (a + b)[i] matches TermModel::Exclude(q) && is_prefix(q, x));
        if i < a.len() {
            assert((a + b)[i] == a[i]);
        } else {
            assert((a + b)[i] == b[i - a.len()]);
        }
    }
}

/// One `make_disjoint` step between shaped matchers.
proof fn lemma_disjoint_step(mine: Seq<TermModel>, p: Seq<u8>, other: Seq<TermModel>, q: Seq<u8>)
    requires
        shaped(mine, p),
        shaped(other, q),
    ensures
        shaped(disjoint_exclusions(mine, other) + mine, p),
        forall|x: Seq<u8>|
            #[trigger] some_exclusion_prefixes((disjoint_exclusions(mine, other) + mine).drop_last(), x) == (
            (is_prefix(p, q) && is_prefix(q, x)) || some_exclusion_prefixes(mine.drop_last(), x)),
{
    lemma_shaped_exclusions(mine, p, other, q);
    let d = disjoint_exclusions(mine, other);
    let r = d + mine;
    assert(r.drop_last() =~= d + mine.drop_last());
    assert(r.last() == mine.last());
    assert(all_excludes(r.drop_last())) by {
        assert forall|i: int| 0 <= i < r.drop_last().len() implies #[trigger] r.drop_last()[i] is Exclude by {
            if i < d.len() {
                assert(r.drop_last()[i] == d[i]);
            } else {
                assert(r.drop_last()[i] == mine.drop_last()[i - d.len()]);
            }
        }
    }
    assert forall|x: Seq<u8>|
        #[trigger] some_exclusion_prefixes(r.drop_last(), x) == ((is_prefix(p, q) && is_prefix(q, x))
            || some_exclusion_prefixes(mine.drop_last(), x)) by {
        lemma_some_exclusion_concat(d, mine.drop_last(), x);
        if is_prefix(p, q) {
            if is_prefix(q, x) {
                assert(d[0] == TermModel::Exclude(q));
            }
            if some_exclusion_prefixes(d, x) {
                let i = choose|i: int| 0 <= i < d.len() && (#[trigger] d[i] matches TermModel::Exclude(qq) && is_prefix(qq, x));
                assert(d[i] == TermModel::Exclude(q));
            }
        }
    }
}

/// The terms of a list of matchers.
pub open spec fn matcher_terms(ms: Seq<PathMatcher>) -> Seq<Seq<TermModel>> {
    ms.map_values(|m: PathMatcher| m.terms_view())
}

/// Makes the path matchers of all pairs of projects partially disjoint: for
/// each pair, in order, the first gives up the paths of the second's more
/// specific prefixes, and then the second those of the first's. When every
/// matcher starts out including just its project's prefix, each ends up
/// matching the paths under its prefix except those under the prefix of
/// another project that lies under its own.
fn disjoin_all(matchers: &mut Vec<PathMatcher>, ps: Ghost<Seq<Seq<u8>>>)
    requires
        old(matchers)@.len() == ps@.len(),
        forall|i: int| 0 <= i < ps@.len() ==> (#[trigger] old(matchers)@[i]).terms_view() == seq![TermModel::Include(ps@[i])],
    ensures
        final(matchers)@.len() == old(matchers)@.len(),
        forall|i: int, x: Seq<u8>|
            0 <= i < ps@.len() ==> (#[trigger] terms_match(final(matchers)@[i].terms_view(), x) <==> (
            is_prefix(ps@[i], x) && !exists|k: int|
                0 <= k < ps@.len() && k != i && is_prefix(ps@[i], ps@[k]) && #[trigger] is_prefix(
                    ps@[k],
                    x,
                ))),
{
    let n = matchers.len();
    let ghost pv = ps@;
    proof {
        assert(disjoin_state(matcher_terms(matchers@), pv, 0, 1)) by {
            assert forall|i: int| 0 <= i < n implies shaped(#[trigger] matcher_terms(matchers@)[i], pv[i]) by {
                assert(matcher_terms(matchers@)[i] == matchers@[i].terms_view());
                assert(matchers@[i].terms_view().drop_last() =~= Seq::<TermModel>::empty());
            }
            assert forall|i: int, x: Seq<u8>| 0 <= i < n implies (#[trigger] some_exclusion_prefixes(
                matcher_terms(matchers@)[i].drop_last(),
                x,
            ) <==> claimed_elsewhere(pv, i, x, |k: int| partner_done(i, k, 0, 1))) by {
                assert(matcher_terms(matchers@)[i].drop_last() =~= Seq::<TermModel>::empty());
                if claimed_elsewhere(pv, i, x, |k: int| partner_done(i, k, 0, 1)) {
                    let k = choose|k: int|
                        0 <= k < pv.len() && k != i && (|k: int| partner_done(i, k, 0, 1))(k) && is_prefix(pv[i], pv[k])
                            && #[trigger] is_prefix(pv[k], x);
                    assert(false);
                }
            }
        }
    }
    let mut a: usize = 1;
    while a < n
        invariant
            matchers@.len() == n,
            n == pv.len(),
            1 <= a,
            a <= n || n == 0,
            disjoin_state(matcher_terms(matchers@), pv, a - 1, a as int),
        decreases n - a,
    {
        let mut b: usize = a;
        while b < n
            invariant
                matchers@.len() == n,
                n == pv.len(),
                1 <= a < n,
                a <= b <= n,
                disjoin_state(matcher_terms(matchers@), pv, a - 1, b as int),
            decreases n - b,
        {
            let ghost ms = matcher_terms(matchers@);
            let mut l = PathMatcher::empty();
            core::mem::swap(&mut matchers[a - 1], &mut l);
            l.make_disjoint(&matchers[b]);
            let mut r = PathMatcher::empty();
            core::mem::swap(&mut matchers[b], &mut r);
            r.make_disjoint(&l);
            matchers.set(b, r);
            matchers.set(a - 1, l);
            proof {
                let li = a - 1;
                let lt = ms[li as int];
                let rt = ms[b as int];
                assert(shaped(lt, pv[li as int]));
                assert(shaped(rt, pv[b as int]));
                lemma_disjoint_step(lt, pv[li as int], rt, pv[b as int]);
                let lt2 = disjoint_exclusions(lt, rt) + lt;
                lemma_disjoint_step(rt, pv[b as int], lt2, pv[li as int]);
                let ms2 = matcher_terms(matchers@);
                assert(ms2[li as int] == lt2);
                assert(ms2[b as int] == disjoint_exclusions(rt, lt2) + rt);
                assert forall|i: int| 0 <= i < n && i != li && i != b implies ms2[i] == ms[i] by {}
                assert(disjoin_state(ms2, pv, li as int, b + 1)) by {
                    assert forall|i: int| 0 <= i < n implies shaped(#[trigger] ms2[i], pv[i]) by {}
                    assert forall|i: int, x: Seq<u8>| 0 <= i < n implies (#[trigger] some_exclusion_prefixes(
                        ms2[i].drop_last(),
                        x,
                    ) <==> claimed_elsewhere(pv, i, x, |k: int| partner_done(i, k, li as int, b + 1))) by {
                        let before = |k: int| partner_done(i, k, li as int, b as int);
                        let after = |k: int| partner_done(i, k, li as int, b + 1);
                        assert(some_exclusion_prefixes(ms[i].drop_last(), x) <==> claimed_elsewhere(pv, i, x, before));
                        if i == li {
                            assert(claimed_elsewhere(pv, i, x, after) <==> ((is_prefix(pv[i], pv[b as int]) && is_prefix(pv[b as int], x)) || claimed_elsewhere(pv, i, x, before))) by {
                                if claimed_elsewhere(pv, i, x, after) {
                                    let k = choose|k: int| 0 <= k < pv.len() && k != i && after(k) && is_prefix(pv[i], pv[k]) && #[trigger] is_prefix(pv[k], x);
                                    if k != b {
                                        assert(before(k));
                                    }
                                }
                                if claimed_elsewhere(pv, i, x, before) {
                                    let k = choose|k: int| 0 <= k < pv.len() && k != i && before(k) && is_prefix(pv[i], pv[k]) && #[trigger] is_prefix(pv[k], x);
                                    assert(after(k));
                                }
                                if is_prefix(pv[i], pv[b as int]) && is_prefix(pv[b as int], x) {
                                    assert(after(b as int));
                                }
                            }
                        } else if i == b {
                            assert(claimed_elsewhere(pv, i, x, after) <==> ((is_prefix(pv[i], pv[li as int]) && is_prefix(pv[li as int], x)) || claimed_elsewhere(pv, i, x, before))) by {
                                if claimed_elsewhere(pv, i, x, after) {
                                    let k = choose|k: int| 0 <= k < pv.len() && k != i && after(k) && is_prefix(pv[i], pv[k]) && #[trigger] is_prefix(pv[k], x);
                                    if k != li {
                                        assert(before(k));
                                    }
                                }
                                if claimed_elsewhere(pv, i, x, before) {
                                    let k = choose|k: int| 0 <= k < pv.len() && k != i && before(k) && is_prefix(pv[i], pv[k]) && #[trigger] is_prefix(pv[k], x);
                                    assert(after(k));
                                }
                                if is_prefix(pv[i], pv[li as int]) && is_prefix(pv[li as int], x) {
                                    assert(after(li as int));
                                }
                            }
                        } else {
                            assert(claimed_elsewhere(pv, i, x, after) <==> claimed_elsewhere(pv, i, x, before)) by {
                                if claimed_elsewhere(pv, i, x, after) {
                                    let k = choose|k: int| 0 <= k < pv.len() && k != i && after(k) && is_prefix(pv[i], pv[k]) && #[trigger] is_prefix(pv[k], x);
                                    assert(before(k));
                                }
                                if claimed_elsewhere(pv, i, x, before) {
                                    let k = choose|k: int| 0 <= k < pv.len() && k != i && before(k) && is_prefix(pv[i], pv[k]) && #[trigger] is_prefix(pv[k], x);
                                    assert(after(k));
                                }
                            }
                        }
                    }
                }
            }
            b = b + 1;
        }
        proof {
            lemma_disjoin_row_advance(matcher_terms(matchers@), pv, a as int);
        }
        a = a + 1;
    }
    proof {
        let ms = matcher_terms(matchers@);
        let l = if n == 0 { 0int } else { a - 1 };
        let bb = if n == 0 { 1int } else { a as int };
        assert forall|i: int, x: Seq<u8>| 0 <= i < n implies (#[trigger] terms_match(
            matchers@[i].terms_view(),
            x,
        ) <==> (is_prefix(pv[i], x) && !exists|k: int|
            0 <= k < pv.len() && k != i && is_prefix(pv[i], pv[k]) && #[trigger] is_prefix(pv[k], x))) by {
            assert(ms[i] == matchers@[i].terms_view());
            let t = ms[i];
            assert(shaped(t, pv[i]));
            assert(t =~= t.drop_last() + seq![TermModel::Include(pv[i])]);
            crate::repository::lemma_terms_match_excludes_first(t.drop_last(), seq![TermModel::Include(pv[i])], x);
            assert(terms_match(seq![TermModel::Include(pv[i])], x) == is_prefix(pv[i], x)) by {
                assert(seq![TermModel::Include(pv[i])].drop_first() =~= Seq::<TermModel>::empty());
                assert(!terms_match(Seq::<TermModel>::empty(), x));
            }
            let done = |k: int| partner_done(i, k, n - 1, n as int);
            assert(some_exclusion_prefixes(t.drop_last(), x) <==> claimed_elsewhere(pv, i, x, |k: int| partner_done(i, k, a - 1, a as int)));
            if exists|k: int| 0 <= k < pv.len() && k != i && is_prefix(pv[i], pv[k]) && #[trigger] is_prefix(pv[k], x) {
                let k = choose|k: int| 0 <= k < pv.len() && k != i && is_prefix(pv[i], pv[k]) && #[trigger] is_prefix(pv[k], x);
                assert(partner_done(i, k, a - 1, a as int));
                assert(claimed_elsewhere(pv, i, x, |k: int| partner_done(i, k, a - 1, a as int)));
            }
        }
    }
}

/// Finishing a row: the pairs of row `a - 1` are all done, which is the
/// state in which row `a` starts.
proof fn lemma_disjoin_row_advance(ms: Seq<Seq<TermModel>>, ps: Seq<Seq<u8>>, a: int)
    requires
        1 <= a < ps.len(),
        disjoin_state(ms, ps, a - 1, ps.len() as int),
    ensures
        disjoin_state(ms, ps, a, a + 1),
{
    assert forall|i: int, x: Seq<u8>| 0 <= i < ms.len() implies (#[trigger] some_exclusion_prefixes(
        ms[i].drop_last(),
        x,
    ) <==> claimed_elsewhere(ps, i, x, |k: int| partner_done(i, k, a, a + 1))) by {
        let before = |k: int| partner_done(i, k, a - 1, ps.len() as int);
        let after = |k: int| partner_done(i, k, a, a + 1);
        assert forall|k: int| 0 <= k < ps.len() && k != i implies #[trigger] partner_done(i, k, a - 1, ps.len() as int)
            == partner_done(i, k, a, a + 1) by {}
        if claimed_elsewhere(ps, i, x, after) {
            let k = choose|k: int| 0 <= k < ps.len() && k != i && after(k) && is_prefix(ps[i], ps[k]) && #[trigger] is_prefix(ps[k], x);
            assert(before(k));
        }
        if claimed_elsewhere(ps, i, x, before) {
            let k = choose|k: int| 0 <= k < ps.len() && k != i && before(k) && is_prefix(ps[i], ps[k]) && #[trigger] is_prefix(ps[k], x);
            assert(after(k));
        }
    }
}

/// Finds the entry of a project in a name table.
fn find_id(table: &Vec<(String, ProjectId)>, id: ProjectId) -> (k: usize)
    requires
        table_has(tview(table@), id),
    ensures
        k < table@.len(),
        tview(table@)[k as int].1 == id,
{
    let mut i: usize = 0;
    while i < table.len()
        invariant
            i <= table@.len(),
            table_has(tview(table@), id),
            forall|m: int| 0 <= m < i ==> (#[trigger] tview(table@)[m]).1 != id,
        decreases table.len() - i,
    {
        if table[i].1 == id {
            return i;
        }
        i = i + 1;
    }
    proof {
        let m = choose|m: int| 0 <= m < tview(table@).len() && (#[trigger] tview(table@)[m]).1 == id;
        assert(tview(table@)[m].1 != id);
    }
    0
}

proof fn lemma_dep_count_step(ps: Seq<ProjectBuilder>, i: int)
    requires
        0 <= i < ps.len(),
    ensures
        dep_count_upto(ps, i + 1) == dep_count_upto(ps, i) + ps[i].internal_deps@.len(),
{
}

proof fn lemma_dep_count_mono(ps: Seq<ProjectBuilder>, i: int, j: int)
    requires
        0 <= i <= j <= ps.len(),
    ensures
        dep_count_upto(ps, i) <= dep_count_upto(ps, j),
    decreases j - i,
{
    if i < j {
        lemma_dep_count_mono(ps, i, j - 1);
    }
}

proof fn lemma_dep_edges_same(a: Seq<Project>, b: Seq<Project>, n: int)
    requires
        0 <= n <= a.len(),
        a.len() == b.len(),
        forall|x: int| 0 <= x < a.len() ==> same_but_paths(#[trigger] b[x], a[x]),
    ensures
        dep_edges_upto(a, n) == dep_edges_upto(b, n),
    decreases n,
{
    if n > 0 {
        lemma_dep_edges_same(a, b, n - 1);
        assert(same_but_paths(b[n - 1], a[n - 1]));
    }
}

proof fn lemma_dep_edges_prefix(ps: Seq<Project>, extra: Project, n: int)
    requires
        0 <= n <= ps.len(),
    ensures
        dep_edges_upto(ps.push(extra), n) == dep_edges_upto(ps, n),
    decreases n,
{
    if n > 0 {
        lemma_dep_edges_prefix(ps, extra, n - 1);
        assert(ps.push(extra)[n - 1] == ps[n - 1]);
    }
}

/// The dependency edges of the first `n` project builders, their targets
/// resolved with the given names: one from each dependee to its depender.
pub open spec fn builder_edges_upto(bs: Seq<ProjectBuilder>, names: Seq<(Seq<char>, ProjectId)>, n: int) -> Seq<
    (usize, usize),
>
    decreases n,
{
    if n <= 0 {
        Seq::empty()
    } else {
        builder_edges_upto(bs, names, n - 1) + bs[n - 1].internal_deps@.map_values(
            |d: DependencyBuilder| (resolve_target(d.target, names).unwrap(), (n - 1) as usize),
        )
    }
}

/// All dependency edges of the project builders under the given names.
pub open spec fn builder_edges(bs: Seq<ProjectBuilder>, names: Seq<(Seq<char>, ProjectId)>) -> Seq<(usize, usize)> {
    builder_edges_upto(bs, names, bs.len() as int)
}

/// Whether every dependency target of the builders resolves under the names.
pub open spec fn targets_resolve(bs: Seq<ProjectBuilder>, names: Seq<(Seq<char>, ProjectId)>) -> bool {
    forall|i: int, m: int|
        0 <= i < bs.len() && 0 <= m < bs[i].internal_deps@.len() ==> resolve_target(
            (#[trigger] bs[i].internal_deps@[m]).target,
            names,
        ) is Some
}

/// Whether every project has a version and a prefix.
pub open spec fn all_complete(bs: Seq<ProjectBuilder>) -> bool {
    forall|i: int| 0 <= i < bs.len() ==> (#[trigger] bs[i]).version is Some && bs[i].prefix is Some
}

proof fn lemma_built_edges(built: Seq<Project>, bs: Seq<ProjectBuilder>, names: Seq<(Seq<char>, ProjectId)>, n: int)
    requires
        0 <= n <= built.len(),
        n <= bs.len(),
        forall|j: int|
            0 <= j < n ==> (#[trigger] built[j]).deps_view().len() == bs[j].internal_deps@.len() && (forall|m: int|
                0 <= m < bs[j].internal_deps@.len() ==> resolve_target(bs[j].internal_deps@[m].target, names)
                    == Some((#[trigger] built[j].deps_view()[m]).ident)),
    ensures
        dep_edges_upto(built, n) == builder_edges_upto(bs, names, n),
    decreases n,
{
    if n > 0 {
        lemma_built_edges(built, bs, names, n - 1);
        let a = deps_edges(built[n - 1].deps_view(), (n - 1) as usize);
        let b = bs[n - 1].internal_deps@.map_values(
            |d: DependencyBuilder| (resolve_target(d.target, names).unwrap(), (n - 1) as usize),
        );
        assert(built[n - 1].deps_view().len() == bs[n - 1].internal_deps@.len());
        assert forall|m: int| 0 <= m < a.len() implies a[m] == b[m] by {
            assert(resolve_target(bs[n - 1].internal_deps@[m].target, names) == Some(
                built[n - 1].deps_view()[m].ident,
            ));
        }
        assert(a =~= b);
    }
}

/// Whether the matcher of project `i` of a list matches exactly the paths
/// under its prefix that are not under the prefix of another project lying
/// under it.
pub open spec fn matches_own_paths(ps: Seq<Project>, i: int, x: Seq<u8>) -> bool {
    terms_match(ps[i].paths_view(), x) <==> (is_prefix(ps[i].prefix_view(), x) && !exists|k: int|
        0 <= k < ps.len() && k != i && is_prefix(ps[i].prefix_view(), ps[k].prefix_view())
            && #[trigger] is_prefix(ps[k].prefix_view(), x))
}

impl ProjectGraphBuilder {
    /// Completes the graph. Every project gets a user-facing name, unique
    /// among the projects, made of its narrowest qualified names as name
    /// assignment (`assigned_names`) decides; its dependencies are resolved
    /// (a textual target is a user-facing name); the projects are put in
    /// topological order; and each project's path matcher claims the paths
    /// under its prefix except those of the projects rooted below it. A
    /// Once names are assigned, the graph is completed exactly when every
    /// project is complete and, under the assigned names, every target
    /// resolves and the dependencies admit a topological order, which is the
    /// order `petgraph`'s topological sort gives. Otherwise the error names
    /// what failed: an incomplete project, a textual target that no
    /// assigned name matches, or a dependency cycle.
    pub fn complete_loading(self) -> (res: Result<ProjectGraph, Error>)
        requires
            self.wf(),
            dep_count(self.projects_view()) < index_limit(),
        ensures
            (res matches Ok(g) ==> {
                    let q = all_qnames(self.projects_view());
                    let ps = g.projects_view();
                    let bs = self.projects_view();
                    &&& ps.len() == bs.len()
                    &&& forall|i: int|
                        0 <= i < ps.len() ==> (#[trigger] ps[i]).ident_view() == i && ps[i].qnames_view()
                            == q[i] && (bs[i].version matches Some(v) && ps[i].version_view() == v@)
                            && (bs[i].prefix matches Some(p) && ps[i].prefix_view() == p@)
                            && ps[i].rewriters_view() == bs[i].rewriters@ && (exists|k: int|
                            1 <= k <= q[i].len() && ps[i].name_view() == qualified_name(q[i], k))
                    &&& forall|i: int, j: int|
                        0 <= i < j < ps.len() ==> ps[i].name_view() != ps[j].name_view()
                    &&& assigned_names(q) is Ok
                    &&& forall|i: int|
                        0 <= i < ps.len() ==> (#[trigger] ps[i]).name_view() == qualified_name(
                            q[i],
                            assigned_states(q)[i] as int,
                        )
                    &&& forall|p: int|
                        0 <= p < ps.len() && colon_free(q) && unique_narrowest(q, p) ==> ps[p].name_view()
                            == q[p][0]
                    &&& forall|i: int, m: int|
                        0 <= i < ps.len() && 0 <= m < bs[i].internal_deps@.len() ==> ps[i].deps_view().len()
                            == bs[i].internal_deps@.len() && resolve_target(
                            bs[i].internal_deps@[m].target,
                            g.names_view(),
                        ) == Some((#[trigger] ps[i].deps_view()[m]).ident)
                            && ps[i].deps_view()[m].literal == bs[i].internal_deps@[m].literal
                            && ps[i].deps_view()[m].cranko_requirement
                            == bs[i].internal_deps@[m].cranko_requirement
                    &&& forall|id: ProjectId| id < ps.len() ==> table_has(g.names_view(), id)
                    &&& forall|k: int|
                        0 <= k < g.names_view().len() ==> (#[trigger] g.names_view()[k]).1 < ps.len()
                            && g.names_view()[k].0 == ps[g.names_view()[k].1 as int].name_view()
                    &&& is_topo_order(ps.len(), dep_edges(ps), g.order_view())
                    &&& g.ids_valid()
                    &&& forall|i: int, x: Seq<u8>| 0 <= i < ps.len() ==> #[trigger] matches_own_paths(ps, i, x)
                }),
            ({
                let q = all_qnames(self.projects_view());
                let bs = self.projects_view();
                match assigned_names(q) {
                    Err(c) => res matches Err(Error::NamingClash(x)) && x@ == c,
                    Ok((st, t)) => {
                        &&& res is Ok <==> (all_complete(bs) && targets_resolve(bs, t) && exists|o: Seq<usize>|
                            is_topo_order(bs.len(), builder_edges(bs, t), o))
                        &&& res matches Ok(g) ==> g.names_view() == t && petgraph_toposort(
                            ident_nodes(bs.len() as nat),
                            builder_edges(bs, t),
                        ) == Ok::<Seq<usize>, usize>(g.order_view())
                        &&& res matches Err(e) ==> {
                            ||| e is IncompleteProject && !all_complete(bs)
                            ||| e matches Error::UnknownDependency(_, d) && exists|i: int, m: int|
                                0 <= i < bs.len() && 0 <= m < bs[i].internal_deps@.len() && ((
                                #[trigger] bs[i].internal_deps@[m]).target matches DependencyTarget::Text(tx)
                                    && tx@ == d@) && resolve_target(bs[i].internal_deps@[m].target, t) is None
                            ||| e is DependencyCycle && all_complete(bs) && targets_resolve(bs, t) && !exists|
                                o: Seq<usize>,
                            | is_topo_order(bs.len(), builder_edges(bs, t), o) && petgraph_toposort(
                                ident_nodes(bs.len() as nat),
                                builder_edges(bs, t),
                            ) is Err
                        }
                    },
                }
            }),
    {
        let (table, states) = match assign_names(&self.projects) {
            Ok(r) => r,
            Err(e) => return Err(e),
        };
        let ghost q = all_qnames(self.projects@);
        let ghost bs = self.projects@;
        let ghost tv = tview(table@);
        proof {
            assert(assigned_names(q) == Ok::<(Seq<usize>, Seq<(Seq<char>, ProjectId)>), Seq<char>>((states@, tv)));
        }
        let ProjectGraphBuilder { projects, graph } = self;
        let mut graph = graph;
        let n = projects.len();
        let mut rest = projects;
        let mut out: Vec<Project> = Vec::new();
        let mut matchers: Vec<PathMatcher> = Vec::new();
        let mut i: usize = 0;
        proof {
            assert(bs.skip(0) =~= bs);
        }
        while rest.len() > 0
            invariant
                i + rest@.len() == n,
                n == bs.len(),
                bs == self.projects_view(),
                q == all_qnames(bs),
                rest@ == bs.skip(i as int),
                out@.len() == i,
                matchers@.len() == i,
                tv == tview(table@),
                assigned_names(q) == Ok::<(Seq<usize>, Seq<(Seq<char>, ProjectId)>), Seq<char>>((states@, tv)),
                valid_states(q, states@),
                table_ok(tv, q, states@),
                forall|id: ProjectId| id < n ==> table_has(tv, id),
                forall|p: int| 0 <= p < n && colon_free(q) && unique_narrowest(q, p) ==> states@[p] == 1,
                all_named(bs),
                forall|j: int, k: int|
                    0 <= j < n && 0 <= k < bs[j].internal_deps@.len() ==> target_ok(
                        #[trigger] bs[j].internal_deps@[k].target,
                        n as nat,
                    ),
                dep_count_upto(bs, n as int) < index_limit(),
                graph_nodes(graph) == ident_nodes(n as nat),
                graph_edges(graph) == dep_edges_upto(out@, i as int),
                graph_edges(graph).len() == dep_count_upto(bs, i as int),
                builders_ok(bs),
                forall|j: int| 0 <= j < i ==> (#[trigger] out@[j]).qnames_view().len() > 0
                    && out@[j].version_view().wf() && forall|k: int|
                    0 <= k < out@[j].deps_view().len() ==> (#[trigger] out@[j].deps_view()[k]).ident < n
                        && out@[j].deps_view()[k].resolved_version is None,
                forall|j: int|
                    0 <= j < i ==> (#[trigger] out@[j]).ident_view() == j && out@[j].qnames_view() == q[j]
                        && (bs[j].version matches Some(v) && out@[j].version_view() == v@) && (
                    bs[j].prefix matches Some(p) && out@[j].prefix_view() == p@ && matchers@[j].terms_view()
                        == seq![TermModel::Include(p@)]) && out@[j].rewriters_view() == bs[j].rewriters@
                        && out@[j].name_view() == qualified_name(q[j], states@[j] as int)
                        && out@[j].deps_view().len() == bs[j].internal_deps@.len() && (forall|m: int|
                        0 <= m < bs[j].internal_deps@.len() ==> resolve_target(
                            bs[j].internal_deps@[m].target,
                            tv,
                        ) == Some((#[trigger] out@[j].deps_view()[m]).ident)
                            && out@[j].deps_view()[m].literal == bs[j].internal_deps@[m].literal
                            && out@[j].deps_view()[m].cranko_requirement
                            == bs[j].internal_deps@[m].cranko_requirement),
            decreases rest@.len(),
        {
            let b = rest.remove(0);
            proof {
                assert(b == bs[i as int]);
                assert(rest@ =~= bs.skip(i + 1));
                lemma_dep_count_step(bs, i as int);
                lemma_dep_count_mono(bs, i + 1, n as int);
                assert(q[i as int] == bs[i as int].qnames_view());
            }
            let k = find_id(&table, i);
            let name = table[k].0.clone();
            let ProjectBuilder { qnames, version, prefix, rewriters, internal_deps } = b;
            let ghost idg = internal_deps@;
            let deps = match resolve_deps(internal_deps, i, &name, &table, &mut graph, n) {
                Ok(d) => d,
                Err(e) => {
                    proof {
                        assert(idg == bs[i as int].internal_deps@);
                        if let Error::UnknownDependency(_, d) = &e {
                            let m = choose|m: int|
                                0 <= m < idg.len() && ((#[trigger] idg[m].target) matches DependencyTarget::Text(t)
                                    && t@ == d@) && resolve_target(idg[m].target, tv) is None;
                            assert(bs[i as int].internal_deps@[m] == idg[m]);
                            assert(!targets_resolve(bs, tv));
                        }
                    }
                    return Err(e);
                },
            };
            let pb = ProjectBuilder { qnames, version, prefix, rewriters, internal_deps: Vec::new() };
            let mut proj = match pb.finalize(i, name, deps) {
                Ok(p) => p,
                Err(e) => {
                    proof {
                        assert(bs[i as int].qnames@.len() > 0);
                        assert(bs[i as int].version is None || bs[i as int].prefix is None);
                        assert(!all_complete(bs));
                    }
                    return Err(e);
                },
            };
            let mut m = PathMatcher::empty();
            proj.swap_repo_paths(&mut m);
            let ghost before = out@;
            matchers.push(m);
            out.push(proj);
            proof {
                lemma_dep_edges_prefix(before, proj, i as int);
                assert(out@ == before.push(proj));
                assert(out@[i as int] == proj);
                assert forall|j: int| 0 <= j < i implies out@[j] == before[j] by {}
            }
            i = i + 1;
        }
        let ghost built = out@;
        let ghost prefixes = built.map_values(|p: Project| p.prefix_view());
        proof {
            assert(dep_edges(built) == graph_edges(graph));
            assert forall|j: int| 0 <= j < n implies (#[trigger] matchers@[j]).terms_view() == seq![
                TermModel::Include(prefixes[j]),
            ] by {
                assert(out@[j].ident_view() == j);
                assert(bs[j].prefix is Some);
            }
        }
        let order = match digraph_toposort(&graph) {
            Ok(o) => o,
            Err(c) => {
                proof {
                    lemma_built_edges(built, bs, tv, n as int);
                    assert(all_complete(bs)) by {
                        assert forall|i2: int| 0 <= i2 < bs.len() implies (#[trigger] bs[i2]).version is Some
                            && bs[i2].prefix is Some by {
                            assert(built[i2].ident_view() == i2);
                        }
                    }
                    assert(targets_resolve(bs, tv)) by {
                        assert forall|i2: int, m: int|
                            0 <= i2 < bs.len() && 0 <= m < bs[i2].internal_deps@.len() implies resolve_target(
                            (#[trigger] bs[i2].internal_deps@[m]).target,
                            tv,
                        ) is Some by {
                            assert(resolve_target(bs[i2].internal_deps@[m].target, tv) == Some(
                                built[i2].deps_view()[m].ident,
                            ));
                        }
                    }
                    assert(graph_nodes(graph).len() == n);
                }
                let cycle_name = out[c].name().clone();
                return Err(Error::DependencyCycle(cycle_name));
            },
        };
        proof {
            lemma_built_edges(built, bs, tv, n as int);
            assert(all_complete(bs)) by {
                assert forall|i2: int| 0 <= i2 < bs.len() implies (#[trigger] bs[i2]).version is Some
                    && bs[i2].prefix is Some by {
                    assert(built[i2].ident_view() == i2);
                }
            }
            assert(targets_resolve(bs, tv)) by {
                assert forall|i2: int, m: int|
                    0 <= i2 < bs.len() && 0 <= m < bs[i2].internal_deps@.len() implies resolve_target(
                    (#[trigger] bs[i2].internal_deps@[m]).target,
                    tv,
                ) is Some by {
                    assert(resolve_target(bs[i2].internal_deps@[m].target, tv) == Some(
                        built[i2].deps_view()[m].ident,
                    ));
                }
            }
            assert(is_topo_order(bs.len(), builder_edges(bs, tv), order@));
        }
        disjoin_all(&mut matchers, Ghost(prefixes));
        let ghost final_matchers = matchers@;
        let mut finished: Vec<Project> = Vec::new();
        let mut j: usize = 0;
        while out.len() > 0
            invariant
                j + out@.len() == n,
                out@ == built.skip(j as int),
                matchers@ == final_matchers.skip(j as int),
                final_matchers.len() == n,
                finished@.len() == j,
                built.len() == n,
                forall|x: int| 0 <= x < j ==> same_but_paths(#[trigger] finished@[x], built[x])
                    && finished@[x].paths_view() == final_matchers[x].terms_view(),
            decreases out@.len(),
        {
            let mut p = out.remove(0);
            let mut m = matchers.remove(0);
            proof {
                assert(p == built[j as int]);
                assert(m == final_matchers[j as int]);
                assert(out@ =~= built.skip(j + 1));
                assert(matchers@ =~= final_matchers.skip(j + 1));
            }
            p.swap_repo_paths(&mut m);
            finished.push(p);
            j = j + 1;
        }
        proof {
            let fs = finished@;
            lemma_dep_edges_same(built, fs, n as int);
            assert forall|i: int, j: int| 0 <= i < j < n implies fs[i].name_view() != fs[j].name_view() by {
                assert(same_but_paths(fs[i], built[i]));
                assert(same_but_paths(fs[j], built[j]));
                assert(table_has(tv, i as ProjectId));
                assert(table_has(tv, j as ProjectId));
                let ki = choose|m: int| 0 <= m < tv.len() && (#[trigger] tv[m]).1 == i as ProjectId;
                let kj = choose|m: int| 0 <= m < tv.len() && (#[trigger] tv[m]).1 == j as ProjectId;
                if ki < kj {
                    assert(tv[ki].0 != tv[kj].0);
                } else {
                    assert(tv[kj].0 != tv[ki].0);
                }
            }
            assert forall|i: int| 0 <= i < n implies exists|k: int|
                1 <= k <= q[i].len() && (#[trigger] fs[i]).name_view() == qualified_name(q[i], k) by {
                assert(same_but_paths(fs[i], built[i]));
                assert(1 <= states@[i] <= q[i].len());
            }
            assert forall|pp: int|
                0 <= pp < n && colon_free(q) && unique_narrowest(q, pp) implies fs[pp].name_view()
                    == q[pp][0] by {
                assert(same_but_paths(fs[pp], built[pp]));
                assert(rev_prefix(q[pp], 1) =~= seq![q[pp][0]]);
            }
            assert forall|k: int| 0 <= k < tv.len() implies (#[trigger] tv[k]).1 < n && tv[k].0
                == fs[tv[k].1 as int].name_view() by {
                assert(same_but_paths(fs[tv[k].1 as int], built[tv[k].1 as int]));
            }
            assert forall|i: int, x: Seq<u8>| 0 <= i < n implies #[trigger] matches_own_paths(fs, i, x) by {
                assert(fs[i].paths_view() == final_matchers[i].terms_view());
                assert forall|k: int| 0 <= k < n implies fs[k].prefix_view() == prefixes[k] by {
                    assert(same_but_paths(fs[k], built[k]));
                }
            }
        }
        Ok(ProjectGraph { projects: finished, graph, name_to_id: table, toposorted_ids: order })
    }
}

// ---------------------------------------------------------------------------
// Queries

/// An input named a project that does not exist.
#[derive(Debug)]
pub struct NoSuchProjectError(pub String);

/// The internal project graph has a dependency cycle; the name is that of a
/// project involved in it.
#[derive(Debug)]
pub struct DependencyCycleError(pub String);

/// Two projects could not be given distinct names; the name is the one they
/// clash on.
#[derive(Debug)]
pub struct NamingClashError(pub String);

/// Surrounds a name with a message's text.
fn framed(before: &str, name: &String, after: &str) -> (res: String)
    ensures
        res@ == before@ + name@ + after@,
{
    let mut v = str_to_chars(before);
    crate::text::append_chars(&mut v, &str_to_chars(name.as_str()));
    crate::text::append_chars(&mut v, &str_to_chars(after));
    chars_to_string(&v)
}

impl NoSuchProjectError {
    /// The error's message.
    pub fn message(&self) -> (res: String)
        ensures
            res@ == "no such project with the name `"@ + self.0@ + "`"@,
    {
        framed("no such project with the name `", &self.0, "`")
    }
}

impl DependencyCycleError {
    /// The error's message.
    pub fn message(&self) -> (res: String)
        ensures
            res@ == "detected an internal dependency cycle associated with project "@ + self.0@
                + ""@,
    {
        framed("detected an internal dependency cycle associated with project ", &self.0, "")
    }
}

impl NamingClashError {
    /// The error's message.
    pub fn message(&self) -> (res: String)
        ensures
            res@ == "multiple projects with same name `"@ + self.0@ + "`"@,
    {
        framed("multiple projects with same name `", &self.0, "`")
    }
}

/// A query for projects in the graph, as command-line tools take them: some
/// project names (none meaning all projects), optionally only the projects
/// released in a given release commit, optionally only those of a given
/// type.
#[derive(Debug, Default)]
pub struct GraphQueryBuilder {
    names: Vec<String>,
    release_info: Option<crate::repository::ReleaseCommitInfo>,
    project_type: Option<String>,
}

impl GraphQueryBuilder {
    pub closed spec fn names_view(&self) -> Seq<Seq<char>> {
        names_view(self.names@)
    }

    pub closed spec fn release_view(&self) -> Option<crate::repository::ReleaseCommitInfo> {
        self.release_info
    }

    pub closed spec fn type_view(&self) -> Option<Seq<char>> {
        match self.project_type {
            Some(t) => Some(t@),
            None => None,
        }
    }

    /// A query that matches every project.
    pub fn new() -> (res: GraphQueryBuilder)
        ensures
            res.names_view().len() == 0,
            res.release_view() is None,
            res.type_view() is None,
    {
        let res = GraphQueryBuilder { names: Vec::new(), release_info: None, project_type: None };
        assert(res.names_view() =~= Seq::<Seq<char>>::empty());
        res
    }

    /// Queries particular project names.
    pub fn names(&mut self, names: Vec<String>)
        ensures
            final(self).names_view() == names_view(names@),
            final(self).release_view() == old(self).release_view(),
            final(self).type_view() == old(self).type_view(),
    {
        self.names = names;
    }

    /// Matches only the projects released in the given release commit.
    pub fn only_new_releases(&mut self, rel_info: crate::repository::ReleaseCommitInfo)
        ensures
            final(self).names_view() == old(self).names_view(),
            final(self).release_view() == Some(rel_info),
            final(self).type_view() == old(self).type_view(),
    {
        self.release_info = Some(rel_info);
    }

    /// Matches only the projects of the given type: those whose widest
    /// qualified name it is.
    pub fn only_project_type(&mut self, ptype: String)
        ensures
            final(self).names_view() == old(self).names_view(),
            final(self).release_view() == old(self).release_view(),
            final(self).type_view() == Some(ptype@),
    {
        self.project_type = Some(ptype);
    }

    /// Whether no project names were given.
    pub fn no_names(&self) -> (res: bool)
        ensures
            res == (self.names_view().len() == 0),
    {
        self.names.len() == 0
    }
}

/// The projects named, in order, or the first name that no project bears.
pub open spec fn resolve_names(table: Seq<(Seq<char>, ProjectId)>, names: Seq<Seq<char>>) -> Result<
    Seq<ProjectId>,
    Seq<char>,
>
    decreases names.len(),
{
    if names.len() == 0 {
        Ok(Seq::empty())
    } else {
        match resolve_names(table, names.drop_last()) {
            Err(x) => Err(x),
            Ok(r) => match find_entry(table, names.last()) {
                Some(k) => Ok(r.push(table[k].1)),
                None => Err(names.last()),
            },
        }
    }
}

/// Whether a project passes a query's filters.
pub open spec fn query_keeps(
    p: Project,
    release: Option<crate::repository::ReleaseCommitInfo>,
    ptype: Option<Seq<char>>,
) -> bool {
    &&& match release {
        Some(info) => crate::repository::released_now(
            info.entry_names(),
            info.projects@,
            p.qnames_view(),
        ),
        None => true,
    }
    &&& match ptype {
        Some(t) => p.qnames_view().len() >= 2 && p.qnames_view().last() == t,
        None => true,
    }
}

/// The projects among `roots` that pass the filters, each once, in the order
/// of their first appearance.
pub open spec fn filter_roots(
    ps: Seq<Project>,
    roots: Seq<ProjectId>,
    release: Option<crate::repository::ReleaseCommitInfo>,
    ptype: Option<Seq<char>>,
) -> Seq<ProjectId>
    decreases roots.len(),
{
    if roots.len() == 0 {
        Seq::empty()
    } else {
        let prev = filter_roots(ps, roots.drop_last(), release, ptype);
        let id = roots.last();
        if query_keeps(ps[id as int], release, ptype) && !prev.contains(id) {
            prev.push(id)
        } else {
            prev
        }
    }
}

proof fn lemma_filter_roots_members(
    ps: Seq<Project>,
    roots: Seq<ProjectId>,
    release: Option<crate::repository::ReleaseCommitInfo>,
    ptype: Option<Seq<char>>,
    id: ProjectId,
)
    ensures
        filter_roots(ps, roots, release, ptype).contains(id) <==> roots.contains(id) && query_keeps(
            ps[id as int],
            release,
            ptype,
        ),
    decreases roots.len(),
{
    if roots.len() > 0 {
        let init = roots.drop_last();
        lemma_filter_roots_members(ps, init, release, ptype, id);
        let prev = filter_roots(ps, init, release, ptype);
        let last = roots.last();
        assert(roots =~= init.push(last));
        if roots.contains(id) {
            let k = choose|k: int| 0 <= k < roots.len() && roots[k] == id;
            if k < init.len() {
                assert(init[k] == id);
            }
        }
        if init.contains(id) {
            let k = choose|k: int| 0 <= k < init.len() && init[k] == id;
            assert(roots[k] == id);
        }
        if query_keeps(ps[last as int], release, ptype) && !prev.contains(last) {
            assert(prev.push(last)[prev.len() as int] == last);
            if prev.push(last).contains(id) {
                let k = choose|k: int| 0 <= k < prev.len() + 1 && prev.push(last)[k] == id;
                if k < prev.len() {
                    assert(prev[k] == id);
                }
            }
            if prev.contains(id) {
                let k = choose|k: int| 0 <= k < prev.len() && prev[k] == id;
                assert(prev.push(last)[k] == id);
            }
        }
    }
}

/// A project-type filter keeps exactly the projects among the roots whose
/// last qualified name is the type (and that have at least two qualified
/// names): a project with qualified names `[x, "cargo"]` passes the filter
/// `cargo`, one named `cargo` alone does not.
pub proof fn law_type_filter_keeps_last_name(ps: Seq<Project>, roots: Seq<ProjectId>, t: Seq<char>, id: ProjectId)
    ensures
        filter_roots(ps, roots, None, Some(t)).contains(id) <==> roots.contains(id) && ps[id as int].qnames_view().len()
            >= 2 && ps[id as int].qnames_view()[ps[id as int].qnames_view().len() - 1] == t,
{
    lemma_filter_roots_members(ps, roots, None, Some(t), id);
}

/// A query without filters keeps every root.
pub proof fn law_unfiltered_query_keeps_roots(ps: Seq<Project>, roots: Seq<ProjectId>, id: ProjectId)
    ensures
        filter_roots(ps, roots, None, None).contains(id) <==> roots.contains(id),
{
    lemma_filter_roots_members(ps, roots, None, None, id);
}

impl ProjectGraph {
    /// Every entry of the name table and of the topological order names an
    /// existing project.
    pub closed spec fn ids_valid(&self) -> bool {
        &&& forall|k: int|
            0 <= k < self.name_to_id@.len() ==> (#[trigger] tview(self.name_to_id@)[k]).1
                < self.projects@.len()
        &&& forall|k: int| 0 <= k < self.toposorted_ids@.len() ==> #[trigger] self.toposorted_ids@[k] < self.projects@.len()
    }

    /// Runs a query: the named projects (all projects, in topological order,
    /// when no names are given) that pass the query's filters, without
    /// repetitions.
    pub fn query(&self, query: GraphQueryBuilder) -> (res: Result<Vec<ProjectId>, Error>)
        requires
            self.ids_valid(),
        ensures
            match (if query.names_view().len() == 0 {
                Ok(self.order_view())
            } else {
                resolve_names(self.names_view(), query.names_view())
            }) {
                Ok(roots) => res matches Ok(ids) && ids@ == filter_roots(
                    self.projects_view(),
                    roots,
                    query.release_view(),
                    query.type_view(),
                ),
                Err(x) => res matches Err(Error::NoSuchProject(t)) && t@ == x,
            },
    {
        let ghost names = query.names_view();
        let roots: Vec<ProjectId> = if query.no_names() {
            self.toposorted_ids.clone()
        } else {
            let mut r: Vec<ProjectId> = Vec::new();
            let mut i: usize = 0;
            while i < query.names.len()
                invariant
                    i <= query.names@.len(),
                    names == names_view(query.names@),
                    resolve_names(self.names_view(), names.take(i as int)) == Ok::<
                        Seq<ProjectId>,
                        Seq<char>,
                    >(r@),
                    forall|k: int| 0 <= k < r@.len() ==> #[trigger] r@[k] < self.projects@.len(),
                    self.ids_valid(),
                decreases query.names@.len() - i,
            {
                proof {
                    assert(names.take(i + 1).drop_last() =~= names.take(i as int));
                    assert(names.take(i + 1).last() == query.names@[i as int]@);
                }
                match self.lookup_ident(&query.names[i]) {
                    Some(id) => {
                        proof {
                            let k = find_entry(self.names_view(), query.names@[i as int]@).unwrap();
                            assert(self.names_view()[k].1 < self.projects@.len());
                        }
                        r.push(id);
                    },
                    None => {
                        proof {
                            lemma_resolve_names_err(self.names_view(), names, i as int);
                        }
                        return Err(Error::NoSuchProject(query.names[i].clone()));
                    },
                }
                i = i + 1;
            }
            proof {
                assert(names.take(names.len() as int) =~= names);
            }
            r
        };
        let ghost rv = roots@;
        let mut matched: Vec<ProjectId> = Vec::new();
        let mut j: usize = 0;
        while j < roots.len()
            invariant
                j <= roots@.len(),
                rv == roots@,
                forall|k: int| 0 <= k < rv.len() ==> #[trigger] rv[k] < self.projects@.len(),
                matched@ == filter_roots(
                    self.projects_view(),
                    rv.take(j as int),
                    query.release_view(),
                    query.type_view(),
                ),
            decreases roots.len() - j,
        {
            let id = roots[j];
            proof {
                assert(rv.take(j + 1).drop_last() =~= rv.take(j as int));
                assert(rv.take(j + 1).last() == id);
            }
            let proj = &self.projects[id];
            let mut keep = true;
            match &query.release_info {
                Some(info) => {
                    if info.lookup_if_released(proj).is_none() {
                        keep = false;
                    }
                },
                None => {},
            }
            match &query.project_type {
                Some(ptype) => {
                    let qn = proj.qualified_names();
                    let n = qn.len();
                    if n < 2 {
                        keep = false;
                    } else if qn[n - 1] != *ptype {
                        keep = false;
                    }
                },
                None => {},
            }
            if keep && !contains_id(&matched, id) {
                matched.push(id);
            }
            j = j + 1;
        }
        proof {
            assert(rv.take(rv.len() as int) =~= rv);
        }
        Ok(matched)
    }
}

/// Whether an identifier is in a list.
fn contains_id(v: &Vec<ProjectId>, id: ProjectId) -> (res: bool)
    ensures
        res == v@.contains(id),
{
    let mut i: usize = 0;
    while i < v.len()
        invariant
            i <= v@.len(),
            forall|k: int| 0 <= k < i ==> v@[k] != id,
        decreases v.len() - i,
    {
        if v[i] == id {
            return true;
        }
        i = i + 1;
    }
    false
}

proof fn lemma_resolve_names_err(table: Seq<(Seq<char>, ProjectId)>, names: Seq<Seq<char>>, i: int)
    requires
        0 <= i < names.len(),
        resolve_names(table, names.take(i)) is Ok,
        find_entry(table, names[i]) is None,
    ensures
        resolve_names(table, names) == Err::<Seq<ProjectId>, Seq<char>>(names[i]),
    decreases names.len() - i,
{
    assert(names.take(i + 1).drop_last() =~= names.take(i));
    lemma_resolve_names_err_extend(table, names, i + 1, names[i]);
}

proof fn lemma_resolve_names_err_extend(table: Seq<(Seq<char>, ProjectId)>, names: Seq<Seq<char>>, i: int, x: Seq<char>)
    requires
        1 <= i <= names.len(),
        resolve_names(table, names.take(i)) == Err::<Seq<ProjectId>, Seq<char>>(x),
    ensures
        resolve_names(table, names) == Err::<Seq<ProjectId>, Seq<char>>(x),
    decreases names.len() - i,
{
    if i == names.len() {
        assert(names.take(i) =~= names);
    } else {
        assert(names.take(i + 1).drop_last() =~= names.take(i));
        lemma_resolve_names_err_extend(table, names, i + 1, x);
    }
}

/// Two projects that differ at most in their versions and dependencies.
pub open spec fn same_frame(a: Project, b: Project) -> bool {
    &&& a.ident_view() == b.ident_view()
    &&& a.qnames_view() == b.qnames_view()
    &&& a.name_view() == b.name_view()
    &&& a.prefix_view() == b.prefix_view()
    &&& a.paths_view() == b.paths_view()
    &&& a.rewriters_view() == b.rewriters_view()
}

impl ProjectGraph {
    /// A graph without projects.
    pub fn empty() -> (res: ProjectGraph)
        ensures
            res.projects_view().len() == 0,
            res.names_view().len() == 0,
            res.order_view().len() == 0,
    {
        let res = ProjectGraph {
            projects: Vec::new(),
            graph: new_digraph(),
            name_to_id: Vec::new(),
            toposorted_ids: Vec::new(),
        };
        assert(tview(res.name_to_id@) =~= Seq::<(Seq<char>, ProjectId)>::empty());
        res
    }

    /// Gives a project a new version.
    #[verifier::spinoff_prover]
    pub fn set_version(&mut self, ident: ProjectId, v: crate::version::Version)
        requires
            ident < old(self).projects_view().len(),
            v@.wf(),
        ensures
            final(self).projects_view().len() == old(self).projects_view().len(),
            forall|i: int|
                0 <= i < old(self).projects_view().len() && i != ident ==> final(self).projects_view()[i]
                    == old(self).projects_view()[i],
            same_frame(final(self).projects_view()[ident as int], old(self).projects_view()[ident as int]),
            final(self).projects_view()[ident as int].deps_view() == old(self).projects_view()[ident as int].deps_view(),
            final(self).projects_view()[ident as int].version_view() == v@,
            final(self).names_view() == old(self).names_view(),
            final(self).order_view() == old(self).order_view(),
            final(self).ids_valid() == old(self).ids_valid(),
    {
        proof {
            use_type_invariant(&*self);
        }
        let mut tmp = ProjectGraph::empty();
        core::mem::swap(self, &mut tmp);
        let ProjectGraph { projects, graph, name_to_id, toposorted_ids } = tmp;
        let mut ps = projects;
        let mut p = ps.remove(ident);
        p.set_version(v);
        ps.insert(ident, p);
        let mut rebuilt = ProjectGraph { projects: ps, graph, name_to_id, toposorted_ids };
        core::mem::swap(self, &mut rebuilt);
    }

    /// Changes the Cranko requirement of one internal dependency of a
    /// project.
    #[verifier::spinoff_prover]
    pub fn set_dep_requirement(&mut self, ident: ProjectId, k: usize, req: DepRequirement)
        requires
            ident < old(self).projects_view().len(),
            k < old(self).projects_view()[ident as int].deps_view().len(),
        ensures
            final(self).projects_view().len() == old(self).projects_view().len(),
            forall|i: int|
                0 <= i < old(self).projects_view().len() && i != ident ==> final(self).projects_view()[i]
                    == old(self).projects_view()[i],
            same_frame(final(self).projects_view()[ident as int], old(self).projects_view()[ident as int]),
            final(self).projects_view()[ident as int].version_view() == old(self).projects_view()[ident as int].version_view(),
            final(self).projects_view()[ident as int].deps_view() == old(self).projects_view()[ident as int].deps_view().update(
                k as int,
                Dependency { cranko_requirement: req, ..old(self).projects_view()[ident as int].deps_view()[k as int] },
            ),
            final(self).names_view() == old(self).names_view(),
            final(self).order_view() == old(self).order_view(),
            final(self).ids_valid() == old(self).ids_valid(),
    {
        proof {
            use_type_invariant(&*self);
        }
        let mut tmp = ProjectGraph::empty();
        core::mem::swap(self, &mut tmp);
        let ProjectGraph { projects, graph, name_to_id, toposorted_ids } = tmp;
        let mut ps = projects;
        let mut p = ps.remove(ident);
        let ghost d0 = p.deps_view();
        p.set_dep_requirement(k, req);
        proof {
            assert(p.deps_view() =~= d0.update(k as int, Dependency { cranko_requirement: req, ..d0[k as int] }));
        }
        ps.insert(ident, p);
        let mut rebuilt = ProjectGraph { projects: ps, graph, name_to_id, toposorted_ids };
        core::mem::swap(self, &mut rebuilt);
    }

    /// Records the version that satisfies one internal dependency of a
    /// project.
    #[verifier::spinoff_prover]
    pub fn set_dep_resolved_version(&mut self, ident: ProjectId, k: usize, v: Option<crate::version::Version>)
        requires
            ident < old(self).projects_view().len(),
            k < old(self).projects_view()[ident as int].deps_view().len(),
            v matches Some(x) ==> x@.wf(),
        ensures
            final(self).projects_view().len() == old(self).projects_view().len(),
            forall|i: int|
                0 <= i < old(self).projects_view().len() && i != ident ==> final(self).projects_view()[i]
                    == old(self).projects_view()[i],
            same_frame(final(self).projects_view()[ident as int], old(self).projects_view()[ident as int]),
            final(self).projects_view()[ident as int].version_view() == old(self).projects_view()[ident as int].version_view(),
            final(self).projects_view()[ident as int].deps_view() == old(self).projects_view()[ident as int].deps_view().update(
                k as int,
                Dependency { resolved_version: v, ..old(self).projects_view()[ident as int].deps_view()[k as int] },
            ),
            final(self).names_view() == old(self).names_view(),
            final(self).order_view() == old(self).order_view(),
            final(self).ids_valid() == old(self).ids_valid(),
    {
        proof {
            use_type_invariant(&*self);
        }
        let mut tmp = ProjectGraph::empty();
        core::mem::swap(self, &mut tmp);
        let ProjectGraph { projects, graph, name_to_id, toposorted_ids } = tmp;
        let mut ps = projects;
        let mut p = ps.remove(ident);
        let ghost d0 = p.deps_view();
        p.set_dep_resolved_version(k, v);
        proof {
            assert(p.deps_view() =~= d0.update(k as int, Dependency { resolved_version: v, ..d0[k as int] }));
        }
        ps.insert(ident, p);
        let mut rebuilt = ProjectGraph { projects: ps, graph, name_to_id, toposorted_ids };
        core::mem::swap(self, &mut rebuilt);
    }
}

} // verus!
