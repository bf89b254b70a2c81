//! Rewriting `Cargo.toml` files with `toml_edit`, which keeps the rest of a
//! file's text as it was.
//!
//! A document is seen through what it holds: for each key path, the item
//! there (a table or an inline table with its keys, a string, or another
//! value).

use vstd::prelude::*;

use crate::errors::Error;
use crate::pypa::lines_view;
use crate::text::{pairs_view, table_get, table_lookup};
use crate::version::{render_version, Version};

verus! {

/// Declared so that a `toml_edit` document can be held by verified code.
#[verifier::external_type_specification]
#[verifier::external_body]
pub struct ExTomlDocument(toml_edit::Document);

/// An item of a TOML document, as far as the rewriting needs it.
pub enum TomlEntry {
    /// A table, with the keys of its items.
    Table(Set<Seq<char>>),
    /// An inline table, with the keys of its values.
    InlineTable(Set<Seq<char>>),
    /// A string value.
    Str(Seq<char>),
    /// Any other value, or an array of tables.
    Other,
}

/// The items that `toml_edit` reads from a text, by key path, or `None`
/// where it rejects the text.
pub uninterp spec fn toml_read(text: Seq<char>) -> Option<Map<Seq<Seq<char>>, TomlEntry>>;

/// The items a document holds, by key path: every item reached from the
/// root table by indexing tables and inline tables.
pub uninterp spec fn toml_items(d: toml_edit::Document) -> Map<Seq<Seq<char>>, TomlEntry>;

/// The text that `toml_edit` writes for a document.
pub uninterp spec fn toml_text(d: toml_edit::Document) -> Seq<char>;

/// The item at a key path, if there is one.
pub open spec fn entry(m: Map<Seq<Seq<char>>, TomlEntry>, q: Seq<Seq<char>>) -> Option<TomlEntry> {
    if m.dom().contains(q) {
        Some(m[q])
    } else {
        None
    }
}

/// Whether path `q` lies strictly below path `p`.
pub open spec fn under(p: Seq<Seq<char>>, q: Seq<Seq<char>>) -> bool {
    p.len() < q.len() && q.take(p.len() as int) == p
}

/// A table or inline table with one more key.
pub open spec fn add_key(e: Option<TomlEntry>, k: Seq<char>) -> Option<TomlEntry> {
    match e {
        Some(TomlEntry::Table(ks)) => Some(TomlEntry::Table(ks.insert(k))),
        Some(TomlEntry::InlineTable(ks)) => Some(TomlEntry::InlineTable(ks.insert(k))),
        x => x,
    }
}

/// The items after the string `v` is stored under `key` in the table or
/// inline table at `parent`: what lay at that key, and below it, is
/// replaced.
pub open spec fn with_str(
    m: Map<Seq<Seq<char>>, TomlEntry>,
    parent: Seq<Seq<char>>,
    key: Seq<char>,
    v: Seq<char>,
) -> Map<Seq<Seq<char>>, TomlEntry> {
    let p = parent.push(key);
    let m2 = m.restrict(m.dom().filter(|q: Seq<Seq<char>>| !under(p, q))).insert(p, TomlEntry::Str(v));
    match add_key(entry(m, parent), key) {
        Some(e) => m2.insert(parent, e),
        None => m2,
    }
}

/// What kind of item stands at a path.
#[derive(Debug, Clone, Copy, PartialEq, Eq, Structural)]
pub enum TomlKind {
    Table,
    InlineTable,
    Other,
    Missing,
}

pub open spec fn kind_of(e: Option<TomlEntry>) -> TomlKind {
    match e {
        Some(TomlEntry::Table(_)) => TomlKind::Table,
        Some(TomlEntry::InlineTable(_)) => TomlKind::InlineTable,
        Some(_) => TomlKind::Other,
        None => TomlKind::Missing,
    }
}

/// Parses a document with `toml_edit::Document`'s `FromStr`; what it holds
/// is named `toml_read` of the text.
#[verifier::external_body]
fn toml_parse(text: &str) -> (res: Option<toml_edit::Document>)
    ensures
        match res {
            Some(d) => toml_read(text@) == Some(toml_items(d)),
            None => toml_read(text@) is None,
        },
{
    text.parse::<toml_edit::Document>().ok()
}

/// Writes a document with its `Display`; the text is named `toml_text`.
#[verifier::external_body]
fn toml_render(d: &toml_edit::Document) -> (res: String)
    ensures
        res@ == toml_text(*d),
{
    d.to_string()
}

/// The kind of the item at `[a]`, read with `Table::get` on the root table.
#[verifier::external_body]
fn kind_at1(d: &toml_edit::Document, a: &str) -> (res: TomlKind)
    ensures
        res == kind_of(entry(toml_items(*d), seq![a@])),
{
    match d.get(a) {
        Some(toml_edit::Item::Table(_)) => TomlKind::Table,
        Some(toml_edit::Item::Value(toml_edit::Value::InlineTable(_))) => TomlKind::InlineTable,
        Some(_) => TomlKind::Other,
        None => TomlKind::Missing,
    }
}

/// The kind of the item at `[a, b]`, read with `Table::get` and
/// `Item::get`.
#[verifier::external_body]
fn kind_at2(d: &toml_edit::Document, a: &str, b: &str) -> (res: TomlKind)
    ensures
        res == kind_of(entry(toml_items(*d), seq![a@, b@])),
{
    match d.get(a) {
        Some(i) => match i.get(b) {
            Some(toml_edit::Item::Table(_)) => TomlKind::Table,
            Some(toml_edit::Item::Value(toml_edit::Value::InlineTable(_))) => TomlKind::InlineTable,
            Some(_) => TomlKind::Other,
            None => TomlKind::Missing,
        },
        None => TomlKind::Missing,
    }
}

/// The kind of the item at `[a, b, c]`, read with `Table::get` and
/// `Item::get`.
#[verifier::external_body]
fn kind_at3(d: &toml_edit::Document, a: &str, b: &str, c: &str) -> (res: TomlKind)
    ensures
        res == kind_of(entry(toml_items(*d), seq![a@, b@, c@])),
{
    match d.get(a) {
        Some(i) => match i.get(b) {
            Some(j) => match j.get(c) {
                Some(toml_edit::Item::Table(_)) => TomlKind::Table,
                Some(toml_edit::Item::Value(toml_edit::Value::InlineTable(_))) => TomlKind::InlineTable,
                Some(_) => TomlKind::Other,
                None => TomlKind::Missing,
            },
            None => TomlKind::Missing,
        },
        None => TomlKind::Missing,
    }
}

/// The keys of the table at `[a]`, as `Table::iter` gives them (each once),
/// or `None` where no table stands there.
#[verifier::external_body]
fn table_keys1(d: &toml_edit::Document, a: &str) -> (res: Option<Vec<String>>)
    ensures
        match entry(toml_items(*d), seq![a@]) {
            Some(TomlEntry::Table(ks)) => res matches Some(v) && lines_view(v@).to_set() == ks && lines_view(
                v@,
            ).no_duplicates(),
            _ => res is None,
        },
{
    match d.get(a) {
        Some(toml_edit::Item::Table(t)) => Some(t.iter().map(|(k, _)| k.to_owned()).collect()),
        _ => None,
    }
}

/// The keys of the table at `[a, b]` below the table at `[a]`, as
/// `Table::iter` gives them, or `None` where no such tables stand there.
#[verifier::external_body]
fn table_keys2(d: &toml_edit::Document, a: &str, b: &str) -> (res: Option<Vec<String>>)
    ensures
        match (entry(toml_items(*d), seq![a@]), entry(toml_items(*d), seq![a@, b@])) {
            (Some(TomlEntry::Table(_)), Some(TomlEntry::Table(ks))) => res matches Some(v) && lines_view(
                v@,
            ).to_set() == ks && lines_view(v@).no_duplicates(),
            _ => res is None,
        },
{
    match d.get(a) {
        Some(toml_edit::Item::Table(t)) => match t.get(b) {
            Some(toml_edit::Item::Table(u)) => Some(u.iter().map(|(k, _)| k.to_owned()).collect()),
            _ => None,
        },
        _ => None,
    }
}

/// Stores the string `v` at `[a, b]` with `IndexMut` and `toml_edit::value`,
/// where a table stands at `[a]`.
#[verifier::external_body]
fn set_str2(d: &mut toml_edit::Document, a: &str, b: &str, v: &str)
    requires
        kind_of(entry(toml_items(*old(d)), seq![a@])) == TomlKind::Table,
    ensures
        toml_items(*final(d)) == with_str(toml_items(*old(d)), seq![a@], b@, v@),
{
    d[a][b] = toml_edit::value(v);
}

/// Stores the string `v` at `[a, b, c]` with `IndexMut` and
/// `toml_edit::value`, where a table stands at `[a]` and a table or an
/// inline table at `[a, b]`.
#[verifier::external_body]
fn set_str3(d: &mut toml_edit::Document, a: &str, b: &str, c: &str, v: &str)
    requires
        kind_of(entry(toml_items(*old(d)), seq![a@])) == TomlKind::Table,
        kind_of(entry(toml_items(*old(d)), seq![a@, b@])) == TomlKind::Table || kind_of(
            entry(toml_items(*old(d)), seq![a@, b@]),
        ) == TomlKind::InlineTable,
    ensures
        toml_items(*final(d)) == with_str(toml_items(*old(d)), seq![a@, b@], c@, v@),
{
    d[a][b][c] = toml_edit::value(v);
}

/// Stores the string `v` at `[a, b, c, e]` with `IndexMut` and
/// `toml_edit::value`, where tables stand at `[a]` and `[a, b]` and a table
/// or an inline table at `[a, b, c]`.
#[verifier::external_body]
fn set_str4(d: &mut toml_edit::Document, a: &str, b: &str, c: &str, e: &str, v: &str)
    requires
        kind_of(entry(toml_items(*old(d)), seq![a@])) == TomlKind::Table,
        kind_of(entry(toml_items(*old(d)), seq![a@, b@])) == TomlKind::Table,
        kind_of(entry(toml_items(*old(d)), seq![a@, b@, c@])) == TomlKind::Table || kind_of(
            entry(toml_items(*old(d)), seq![a@, b@, c@]),
        ) == TomlKind::InlineTable,
    ensures
        toml_items(*final(d)) == with_str(toml_items(*old(d)), seq![a@, b@, c@], e@, v@),
{
    d[a][b][c][e] = toml_edit::value(v);
}

/// The items after a table is put at `parent` + `[key]` where nothing
/// stands there; unchanged where something does.
pub open spec fn with_table(
    m: Map<Seq<Seq<char>>, TomlEntry>,
    parent: Seq<Seq<char>>,
    key: Seq<char>,
) -> Map<Seq<Seq<char>>, TomlEntry> {
    let p = parent.push(key);
    if m.dom().contains(p) {
        m
    } else {
        let m2 = m.insert(p, TomlEntry::Table(Set::empty()));
        match add_key(entry(m, parent), key) {
            Some(e) => m2.insert(parent, e),
            None => m2,
        }
    }
}

/// Puts an empty table at `[a, b]` with `Table::insert` where `Table::get`
/// finds nothing there, in the table at `[a]`; returns whether a table
/// (`Item::Table`) then stands there.
#[verifier::external_body]
fn ensure_table2(d: &mut toml_edit::Document, a: &str, b: &str) -> (res: bool)
    requires
        kind_of(entry(toml_items(*old(d)), seq![a@])) == TomlKind::Table,
    ensures
        toml_items(*final(d)) == with_table(toml_items(*old(d)), seq![a@], b@),
        res == (kind_of(entry(toml_items(*final(d)), seq![a@, b@])) == TomlKind::Table),
{
    match d[a].as_table_mut() {
        Some(t) => match t.get(b) {
            Some(i) => i.is_table(),
            None => {
                t.insert(b, toml_edit::table());
                true
            },
        },
        None => false,
    }
}

/// Puts an empty table at `[a, b, c]` with `Table::insert` where
/// `Table::get` finds nothing there, in the table at `[a, b]`; returns
/// whether a table (`Item::Table`) then stands there.
#[verifier::external_body]
fn ensure_table3(d: &mut toml_edit::Document, a: &str, b: &str, c: &str) -> (res: bool)
    requires
        kind_of(entry(toml_items(*old(d)), seq![a@])) == TomlKind::Table,
        kind_of(entry(toml_items(*old(d)), seq![a@, b@])) == TomlKind::Table,
    ensures
        toml_items(*final(d)) == with_table(toml_items(*old(d)), seq![a@, b@], c@),
        res == (kind_of(entry(toml_items(*final(d)), seq![a@, b@, c@])) == TomlKind::Table),
{
    match d[a][b].as_table_mut() {
        Some(t) => match t.get(c) {
            Some(i) => i.is_table(),
            None => {
                t.insert(c, toml_edit::table());
                true
            },
        },
        None => false,
    }
}

// ---------------------------------------------------------------------------
// Rewriting a manifest

pub open spec fn package_key() -> Seq<char> {
    seq!['p', 'a', 'c', 'k', 'a', 'g', 'e']
}

pub open spec fn version_key() -> Seq<char> {
    seq!['v', 'e', 'r', 's', 'i', 'o', 'n']
}

pub open spec fn target_key() -> Seq<char> {
    seq!['t', 'a', 'r', 'g', 'e', 't']
}

pub open spec fn deps_key() -> Seq<char> {
    seq!['d', 'e', 'p', 'e', 'n', 'd', 'e', 'n', 'c', 'i', 'e', 's']
}

pub open spec fn dev_deps_key() -> Seq<char> {
    seq!['d', 'e', 'v', '-', 'd', 'e', 'p', 'e', 'n', 'd', 'e', 'n', 'c', 'i', 'e', 's']
}

pub open spec fn build_deps_key() -> Seq<char> {
    seq!['b', 'u', 'i', 'l', 'd', '-', 'd', 'e', 'p', 'e', 'n', 'd', 'e', 'n', 'c', 'i', 'e', 's']
}

/// The names of the top-level dependency tables.
pub open spec fn dep_table_name(x: Seq<char>) -> bool {
    x == deps_key() || x == dev_deps_key() || x == build_deps_key()
}

/// A path where a dependency table may stand: a top-level dependency table,
/// or a table directly below `target`.
pub open spec fn dep_path(p: Seq<Seq<char>>) -> bool {
    (p.len() == 1 && dep_table_name(p[0])) || (p.len() == 2 && p[0] == target_key())
}

/// The path of `package.version`.
pub open spec fn package_version_path() -> Seq<Seq<char>> {
    seq![package_key(), version_key()]
}

/// Whether the dependency `k` of the table at `p` is rewritten: the table is
/// a dependency table (one below `target` only where `target` is a table),
/// it holds `k`, and `k` has a requirement.
pub open spec fn is_target(
    m: Map<Seq<Seq<char>>, TomlEntry>,
    reqs: Seq<(Seq<char>, Seq<char>)>,
    p: Seq<Seq<char>>,
    k: Seq<char>,
) -> bool {
    &&& dep_path(p)
    &&& entry(m, p) matches Some(TomlEntry::Table(ks)) && ks.contains(k)
    &&& (p.len() == 2 ==> (entry(m, seq![target_key()]) matches Some(TomlEntry::Table(ts)) && ts.contains(p[1])))
    &&& table_lookup(reqs, k) is Some
}

/// A rewritten dependency that is neither a table nor an inline table.
pub open spec fn bad_dep(
    m: Map<Seq<Seq<char>>, TomlEntry>,
    reqs: Seq<(Seq<char>, Seq<char>)>,
    p: Seq<Seq<char>>,
    k: Seq<char>,
) -> bool {
    is_target(m, reqs, p, k) && kind_of(entry(m, p.push(k))) != TomlKind::Table && kind_of(
        entry(m, p.push(k)),
    ) != TomlKind::InlineTable
}

pub open spec fn has_bad_dep(m: Map<Seq<Seq<char>>, TomlEntry>, reqs: Seq<(Seq<char>, Seq<char>)>) -> bool {
    exists|p: Seq<Seq<char>>, k: Seq<char>| bad_dep(m, reqs, p, k)
}

/// All the dependencies that are rewritten.
pub open spec fn all_targets(m: Map<Seq<Seq<char>>, TomlEntry>, reqs: Seq<(Seq<char>, Seq<char>)>) -> Set<
    (Seq<Seq<char>>, Seq<char>),
> {
    Set::new(|pk: (Seq<Seq<char>>, Seq<char>)| is_target(m, reqs, pk.0, pk.1))
}

/// The dependencies of the table at `p` that are rewritten.
pub open spec fn targets_in(
    m: Map<Seq<Seq<char>>, TomlEntry>,
    reqs: Seq<(Seq<char>, Seq<char>)>,
    p: Seq<Seq<char>>,
) -> Set<(Seq<Seq<char>>, Seq<char>)> {
    Set::new(|pk: (Seq<Seq<char>>, Seq<char>)| pk.0 == p && is_target(m, reqs, p, pk.1))
}

/// What a manifest holds at path `q` once `package.version` is `v` and the
/// dependencies in `done` have their requirements in their `version` keys:
/// those strings, nothing below them, the tables that hold them with the
/// `version` key, and elsewhere what the manifest `m` held.
pub open spec fn expected(
    m: Map<Seq<Seq<char>>, TomlEntry>,
    done: Set<(Seq<Seq<char>>, Seq<char>)>,
    v: Seq<char>,
    reqs: Seq<(Seq<char>, Seq<char>)>,
    q: Seq<Seq<char>>,
) -> Option<TomlEntry> {
    if q == package_version_path() {
        Some(TomlEntry::Str(v))
    } else if under(package_version_path(), q) {
        None
    } else if q == seq![package_key()] {
        add_key(entry(m, q), version_key())
    } else if (q.len() == 3 && q[2] == version_key() && done.contains((q.take(1), q[1]))) || (q.len()
        == 4 && q[3] == version_key() && done.contains((q.take(2), q[2]))) {
        Some(TomlEntry::Str(table_lookup(reqs, q[q.len() - 2]).unwrap()))
    } else if (q.len() > 3 && q[2] == version_key() && done.contains((q.take(1), q[1]))) || (q.len() > 4
        && q[3] == version_key() && done.contains((q.take(2), q[2]))) {
        None
    } else if (q.len() == 2 && done.contains((q.take(1), q[1]))) || (q.len() == 3 && done.contains(
        (q.take(2), q[2]),
    )) {
        add_key(entry(m, q), version_key())
    } else {
        entry(m, q)
    }
}

/// Whether the items `cur` are those of the manifest `m` after its package
/// version and the dependencies in `done` were rewritten.
pub open spec fn rewritten(
    m: Map<Seq<Seq<char>>, TomlEntry>,
    cur: Map<Seq<Seq<char>>, TomlEntry>,
    done: Set<(Seq<Seq<char>>, Seq<char>)>,
    v: Seq<char>,
    reqs: Seq<(Seq<char>, Seq<char>)>,
) -> bool {
    &&& forall|pk: (Seq<Seq<char>>, Seq<char>)|
        #[trigger] done.contains(pk) ==> is_target(m, reqs, pk.0, pk.1) && !bad_dep(m, reqs, pk.0, pk.1)
    &&& forall|q: Seq<Seq<char>>| #[trigger] entry(cur, q) == expected(m, done, v, reqs, q)
}

proof fn lemma_keys_distinct()
    ensures
        target_key() != package_key(),
        !dep_table_name(target_key()),
        !dep_table_name(package_key()),
        version_key() != package_key(),
{
    assert(target_key().len() != package_key().len());
    assert(deps_key().len() != target_key().len());
    assert(dev_deps_key().len() != target_key().len());
    assert(build_deps_key().len() != target_key().len());
    assert(deps_key().len() != package_key().len());
    assert(dev_deps_key().len() != package_key().len());
    assert(build_deps_key().len() != package_key().len());
    assert(version_key()[0] != package_key()[0]);
}


proof fn lemma_initial(m: Map<Seq<Seq<char>>, TomlEntry>, v: Seq<char>, reqs: Seq<(Seq<char>, Seq<char>)>)
    requires
        kind_of(entry(m, seq![package_key()])) == TomlKind::Table,
    ensures
        rewritten(m, with_str(m, seq![package_key()], version_key(), v), Set::empty(), v, reqs),
{
    let cur = with_str(m, seq![package_key()], version_key(), v);
    let pv = package_version_path();
    assert(seq![package_key()].push(version_key()) =~= pv);
    assert forall|q: Seq<Seq<char>>| #[trigger] entry(cur, q) == expected(m, Set::empty(), v, reqs, q) by {
        if q == pv {
        } else if under(pv, q) {
        } else if q == seq![package_key()] {
        } else {
            assert(!under(pv, q));
        }
    }
}

/// What a rewritten manifest holds at the paths that the rewriting reads.
proof fn lemma_reads(
    m: Map<Seq<Seq<char>>, TomlEntry>,
    cur: Map<Seq<Seq<char>>, TomlEntry>,
    done: Set<(Seq<Seq<char>>, Seq<char>)>,
    v: Seq<char>,
    reqs: Seq<(Seq<char>, Seq<char>)>,
    p: Seq<Seq<char>>,
    k: Seq<char>,
)
    requires
        rewritten(m, cur, done, v, reqs),
        dep_path(p),
    ensures
        entry(cur, p) == entry(m, p),
        entry(cur, seq![target_key()]) == entry(m, seq![target_key()]),
        !done.contains((p, k)) ==> entry(cur, p.push(k)) == entry(m, p.push(k)),
        done.contains((p, k)) ==> kind_of(entry(cur, p.push(k))) == kind_of(entry(m, p.push(k))),
{
    lemma_keys_distinct();
    let pv = package_version_path();
    assert(entry(cur, p) == expected(m, done, v, reqs, p));
    if p.len() == 2 {
        assert(p[0] != pv[0]);
        assert(p != pv);
        if done.contains((p.take(1), p[1])) {
            assert(is_target(m, reqs, p.take(1), p[1]));
            assert(p.take(1)[0] == p[0]);
        }
    } else {
        assert(p != seq![package_key()]);
    }
    assert(entry(cur, seq![target_key()]) == expected(m, done, v, reqs, seq![target_key()]));
    assert(seq![target_key()] != seq![package_key()]) by {
        assert(seq![target_key()][0] != seq![package_key()][0]);
    }
    let q = p.push(k);
    assert(entry(cur, q) == expected(m, done, v, reqs, q));
    assert(q.take(p.len() as int) =~= p);
    assert(q[p.len() as int] == k);
    assert(q[0] == p[0]);
    assert(q != pv);
    assert(!under(pv, q)) by {
        if under(pv, q) {
            assert(q.take(2)[0] == q[0]);
        }
    }
    assert(q != seq![package_key()]);
    if q.len() == 3 {
        // q is [target, s, k]
        if done.contains((q.take(1), q[1])) {
            assert(is_target(m, reqs, q.take(1), q[1]));
            assert(q.take(1)[0] == q[0]);
        }
    }
    if q.len() == 2 {
        assert(q.take(1) =~= p);
    } else {
        assert(q.take(2) =~= p);
    }
}

proof fn lemma_step(
    m: Map<Seq<Seq<char>>, TomlEntry>,
    cur: Map<Seq<Seq<char>>, TomlEntry>,
    done: Set<(Seq<Seq<char>>, Seq<char>)>,
    v: Seq<char>,
    reqs: Seq<(Seq<char>, Seq<char>)>,
    p: Seq<Seq<char>>,
    k: Seq<char>,
)
    requires
        rewritten(m, cur, done, v, reqs),
        is_target(m, reqs, p, k),
        !bad_dep(m, reqs, p, k),
        !done.contains((p, k)),
    ensures
        rewritten(
            m,
            with_str(cur, p.push(k), version_key(), table_lookup(reqs, k).unwrap()),
            done.insert((p, k)),
            v,
            reqs,
        ),
{
    lemma_keys_distinct();
    lemma_reads(m, cur, done, v, reqs, p, k);
    let r = table_lookup(reqs, k).unwrap();
    let par = p.push(k);
    let e = par.push(version_key());
    let cur2 = with_str(cur, par, version_key(), r);
    let done2 = done.insert((p, k));
    let pv = package_version_path();
    assert(par.take(p.len() as int) =~= p);
    assert(e.take(par.len() as int) =~= par);
    assert(e.take(p.len() as int) =~= p);
    assert(par[0] == p[0] && e[0] == p[0]);
    assert forall|q: Seq<Seq<char>>| #[trigger] entry(cur2, q) == expected(m, done2, v, reqs, q) by {
        assert(entry(cur, q) == expected(m, done, v, reqs, q));
        if q == e {
            if p.len() == 1 {
                assert(q.take(1) =~= p);
            } else {
                assert(q.take(2) =~= p);
            }
            assert(q[q.len() - 2] == k);
            assert(q != pv);
            assert(!under(pv, q)) by {
                if under(pv, q) {
                    assert(q.take(2)[0] == q[0]);
                }
            }
        } else if under(e, q) {
            assert(q.take(e.len() as int) == e);
            assert(q[0] == e[0]);
            assert(q[p.len() as int] == k) by {
                assert(q.take(e.len() as int)[p.len() as int] == e[p.len() as int]);
            }
            assert(q[p.len() as int + 1] == version_key()) by {
                assert(q.take(e.len() as int)[p.len() as int + 1] == e[p.len() as int + 1]);
            }
            if p.len() == 1 {
                assert(q.take(1) =~= p) by {
                    assert(q.take(1)[0] == q[0]);
                }
            } else {
                assert(q.take(2) =~= p) by {
                    assert(q.take(e.len() as int).take(2) =~= q.take(2));
                }
            }
            assert(q != pv);
            assert(!under(pv, q)) by {
                if under(pv, q) {
                    assert(q.take(2)[0] == q[0]);
                }
            }
            assert(q != seq![package_key()]);
            if q.len() == 4 && p.len() == 1 {
                // q = [dt, k, version, x]: not the version key of a table below target
                if done2.contains((q.take(2), q[2])) {
                    assert(q.take(2)[0] == q[0]);
                }
            }
            if q.len() == 3 {
                assert(false);
            }
        } else if q == par {
            if p.len() == 1 {
                assert(q.take(1) =~= p);
            } else {
                assert(q.take(2) =~= p);
                if done2.contains((q.take(1), q[1])) {
                    assert(q.take(1)[0] == q[0]);
                }
            }
            assert(q != pv);
            assert(!under(pv, q)) by {
                if under(pv, q) {
                    assert(q.take(2)[0] == q[0]);
                }
            }
        } else {
            // Nothing about q changes, and no branch of `expected` refers to
            // (p, k) for it.
            assert(entry(cur2, q) == entry(cur, q));
            if q.len() == 3 && q[2] == version_key() && (q.take(1), q[1]) == (p, k) {
                assert(q =~= e);
            }
            if q.len() == 4 && q[3] == version_key() && (q.take(2), q[2]) == (p, k) {
                assert(q =~= e);
            }
            if q.len() > 3 && q[2] == version_key() && (q.take(1), q[1]) == (p, k) {
                assert(q.take(3) =~= e);
            }
            if q.len() > 4 && q[3] == version_key() && (q.take(2), q[2]) == (p, k) {
                assert(q.take(4) =~= e);
            }
            if q.len() == 2 && (q.take(1), q[1]) == (p, k) {
                assert(q =~= par);
            }
            if q.len() == 3 && (q.take(2), q[2]) == (p, k) {
                assert(q =~= par);
            }
        }
    }
    assert forall|pk: (Seq<Seq<char>>, Seq<char>)| #[trigger] done2.contains(pk) implies is_target(
        m,
        reqs,
        pk.0,
        pk.1,
    ) && !bad_dep(m, reqs, pk.0, pk.1) by {
        if pk != (p, k) {
            assert(done.contains(pk));
        }
    }
}

/// Once the top-level tables and the tables below `target` named in `seen`
/// (all of them, where `target` is a table) were rewritten, every rewritten
/// dependency was.
proof fn lemma_all_targets(
    m: Map<Seq<Seq<char>>, TomlEntry>,
    reqs: Seq<(Seq<char>, Seq<char>)>,
    seen: Seq<Seq<char>>,
)
    requires
        entry(m, seq![target_key()]) matches Some(TomlEntry::Table(ts)) ==> seen.to_set() == ts,
    ensures
        top_targets(m, reqs).union(targets_under(m, reqs, seen)) == all_targets(m, reqs),
{
    assert forall|pk: (Seq<Seq<char>>, Seq<char>)| #[trigger] all_targets(m, reqs).contains(pk) implies top_targets(
        m,
        reqs,
    ).union(targets_under(m, reqs, seen)).contains(pk) by {
        if pk.0.len() == 1 {
            assert(pk.0 =~= seq![pk.0[0]]);
        } else {
            assert(seen.to_set().contains(pk.0[1]));
        }
    }
    assert(top_targets(m, reqs).union(targets_under(m, reqs, seen)) =~= all_targets(m, reqs));
}

/// The path of a dependency table: `[a]`, or `[a, b]`.
pub open spec fn dpath(a: &str, b: Option<&str>) -> Seq<Seq<char>> {
    match b {
        Some(x) => seq![a@, x@],
        None => seq![a@],
    }
}

/// The dependencies of the table at `p` that are rewritten, among the keys
/// `seen`.
pub open spec fn targets_seen(
    m: Map<Seq<Seq<char>>, TomlEntry>,
    reqs: Seq<(Seq<char>, Seq<char>)>,
    p: Seq<Seq<char>>,
    seen: Seq<Seq<char>>,
) -> Set<(Seq<Seq<char>>, Seq<char>)> {
    Set::new(|pk: (Seq<Seq<char>>, Seq<char>)| pk.0 == p && seen.contains(pk.1) && is_target(m, reqs, p, pk.1))
}

/// Rewrites the requirements of the dependencies in the table at `[a]` or
/// `[a, b]`: the `version` key of each table or inline table of a
/// dependency with a requirement.
fn edit_dep_table(
    doc: &mut toml_edit::Document,
    a: &str,
    b: Option<&str>,
    reqs: &Vec<(String, String)>,
    Ghost(m): Ghost<Map<Seq<Seq<char>>, TomlEntry>>,
    Ghost(v): Ghost<Seq<char>>,
    Ghost(done): Ghost<Set<(Seq<Seq<char>>, Seq<char>)>>,
) -> (res: Result<(), Error>)
    requires
        rewritten(m, toml_items(*old(doc)), done, v, pairs_view(reqs@)),
        dep_path(dpath(a, b)),
        kind_of(entry(m, dpath(a, b))) == TomlKind::Table,
        b is Some ==> kind_of(entry(m, seq![a@])) == TomlKind::Table,
        b matches Some(x) ==> (entry(m, seq![a@]) matches Some(TomlEntry::Table(ts)) && ts.contains(x@)),
        forall|k: Seq<char>| !done.contains((dpath(a, b), k)),
    ensures
        match res {
            Ok(()) => rewritten(
                m,
                toml_items(*final(doc)),
                done.union(targets_in(m, pairs_view(reqs@), dpath(a, b))),
                v,
                pairs_view(reqs@),
            ),
            Err(e) => e matches Error::UnexpectedDependencyItem(k) && bad_dep(
                m,
                pairs_view(reqs@),
                dpath(a, b),
                k@,
            ),
        },
{
    let ghost rq = pairs_view(reqs@);
    let ghost path = dpath(a, b);
    proof {
        lemma_reads(m, toml_items(*doc), done, v, rq, path, Seq::empty());
        reveal_strlit("version");
        assert("version"@ =~= version_key());
        if b is Some {
            assert(a@ == target_key());
        }
    }
    let keys = match b {
        None => table_keys1(doc, a),
        Some(bb) => table_keys2(doc, a, bb),
    };
    let keys = match keys {
        Some(k) => k,
        None => {
            proof {
                assert(false);
            }
            return Err(Error::NoPackageSection);
        },
    };
    let ghost ks = match entry(m, path) {
        Some(TomlEntry::Table(ks)) => ks,
        _ => Set::empty(),
    };
    let ghost mut d = done;
    let mut i: usize = 0;
    proof {
        assert(targets_seen(m, rq, path, lines_view(keys@).take(0)) =~= Set::empty());
        assert(d =~= done.union(targets_seen(m, rq, path, lines_view(keys@).take(0))));
    }
    while i < keys.len()
        invariant
            i <= keys@.len(),
            rq == pairs_view(reqs@),
            path == dpath(a, b),
            dep_path(path),
            kind_of(entry(m, path)) == TomlKind::Table,
            b is Some ==> kind_of(entry(m, seq![a@])) == TomlKind::Table,
            b is Some ==> a@ == target_key(),
            b matches Some(x) ==> (entry(m, seq![a@]) matches Some(TomlEntry::Table(ts)) && ts.contains(x@)),
            entry(m, path) == Some(TomlEntry::Table(ks)),
            lines_view(keys@).to_set() == ks,
            "version"@ == version_key(),
            forall|k: Seq<char>| !done.contains((path, k)),
            lines_view(keys@).no_duplicates(),
            d == done.union(targets_seen(m, rq, path, lines_view(keys@).take(i as int))),
            rewritten(m, toml_items(*doc), d, v, rq),
        decreases keys@.len() - i,
    {
        let ghost kv = keys@[i as int]@;
        let ghost cur = toml_items(*doc);
        proof {
            assert(lines_view(keys@)[i as int] == kv);
            assert(!d.contains((path, kv))) by {
                if targets_seen(m, rq, path, lines_view(keys@).take(i as int)).contains((path, kv)) {
                    let j = choose|j: int| 0 <= j < i && lines_view(keys@).take(i as int)[j] == kv;
                    assert(lines_view(keys@)[j] == lines_view(keys@)[i as int]);
                }
            }
            lemma_reads(m, cur, d, v, rq, path, kv);
            assert(path.push(kv) == dpath(a, b).push(kv));
            assert(lines_view(keys@).take(i + 1) =~= lines_view(keys@).take(i as int).push(kv));
        }
        match table_get(reqs, &keys[i]) {
            None => {
                proof {
                    assert(targets_seen(m, rq, path, lines_view(keys@).take(i + 1)) =~= targets_seen(
                        m,
                        rq,
                        path,
                        lines_view(keys@).take(i as int),
                    ));
                }
            },
            Some(r) => {
                let kind = match b {
                    None => kind_at2(doc, a, keys[i].as_str()),
                    Some(bb) => kind_at3(doc, a, bb, keys[i].as_str()),
                };
                proof {
                    match b {
                        None => assert(seq![a@, kv] =~= path.push(kv)),
                        Some(bb) => assert(seq![a@, bb@, kv] =~= path.push(kv)),
                    }
                    assert(is_target(m, rq, path, kv)) by {
                        assert(lines_view(keys@).to_set().contains(kv));
                        if b is Some {
                            assert(path[1] == b.unwrap()@);
                        }
                    }
                }
                if kind == TomlKind::Table || kind == TomlKind::InlineTable {
                    match b {
                        None => set_str3(doc, a, keys[i].as_str(), "version", r.as_str()),
                        Some(bb) => set_str4(doc, a, bb, keys[i].as_str(), "version", r.as_str()),
                    }
                    proof {
                        match b {
                            None => assert(seq![a@, kv] =~= path.push(kv)),
                            Some(bb) => assert(seq![a@, bb@, kv] =~= path.push(kv)),
                        }
                        lemma_step(m, cur, d, v, rq, path, kv);
                        let ghost t0 = lines_view(keys@).take(i as int);
                        let ghost t1 = lines_view(keys@).take(i + 1);
                        assert(t1 == t0.push(kv));
                        assert(t1[i as int] == kv);
                        assert forall|pk: (Seq<Seq<char>>, Seq<char>)| #[trigger] targets_seen(m, rq, path, t1).contains(pk)
                            == targets_seen(m, rq, path, t0).insert((path, kv)).contains(pk) by {
                            if t1.contains(pk.1) && pk.1 != kv {
                                let j = choose|j: int| 0 <= j < t1.len() && t1[j] == pk.1;
                                assert(j < i);
                                assert(t0[j] == pk.1);
                            }
                            if t0.contains(pk.1) {
                                let j = choose|j: int| 0 <= j < t0.len() && t0[j] == pk.1;
                                assert(t1[j] == pk.1);
                            }
                        }
                        assert(targets_seen(m, rq, path, t1) =~= targets_seen(m, rq, path, t0).insert((path, kv)));
                        d = d.insert((path, kv));
                        assert(d =~= done.union(targets_seen(m, rq, path, t1)));
                    }
                } else {
                    return Err(Error::UnexpectedDependencyItem(keys[i].clone()));
                }
            },
        }
        i = i + 1;
    }
    proof {
        assert(lines_view(keys@).take(keys@.len() as int) =~= lines_view(keys@));
        assert(targets_seen(m, rq, path, lines_view(keys@)) =~= targets_in(m, rq, path)) by {
            assert forall|pk: (Seq<Seq<char>>, Seq<char>)| targets_in(m, rq, path).contains(pk) implies lines_view(
                keys@,
            ).contains(pk.1) by {
                assert(lines_view(keys@).to_set().contains(pk.1));
            }
        }
    }
    Ok(())
}

/// Rewrites the requirements of the dependencies in the top-level table
/// `name`, if a table stands there.
fn edit_top_table(
    doc: &mut toml_edit::Document,
    name: &str,
    reqs: &Vec<(String, String)>,
    Ghost(m): Ghost<Map<Seq<Seq<char>>, TomlEntry>>,
    Ghost(v): Ghost<Seq<char>>,
    Ghost(done): Ghost<Set<(Seq<Seq<char>>, Seq<char>)>>,
) -> (res: Result<(), Error>)
    requires
        rewritten(m, toml_items(*old(doc)), done, v, pairs_view(reqs@)),
        dep_path(seq![name@]),
        forall|k: Seq<char>| !done.contains((seq![name@], k)),
    ensures
        match res {
            Ok(()) => rewritten(
                m,
                toml_items(*final(doc)),
                done.union(targets_in(m, pairs_view(reqs@), seq![name@])),
                v,
                pairs_view(reqs@),
            ),
            Err(e) => e matches Error::UnexpectedDependencyItem(k) && bad_dep(
                m,
                pairs_view(reqs@),
                seq![name@],
                k@,
            ),
        },
{
    proof {
        lemma_reads(m, toml_items(*doc), done, v, pairs_view(reqs@), seq![name@], Seq::empty());
        assert(dpath(name, None) == seq![name@]);
    }
    if kind_at1(doc, name) == TomlKind::Table {
        edit_dep_table(doc, name, None, reqs, Ghost(m), Ghost(v), Ghost(done))
    } else {
        proof {
            assert(targets_in(m, pairs_view(reqs@), seq![name@]) =~= Set::empty());
            assert(done.union(Set::empty()) =~= done);
        }
        Ok(())
    }
}

/// The dependencies below `target` that are rewritten, in the tables named
/// by `seen`.
pub open spec fn targets_under(
    m: Map<Seq<Seq<char>>, TomlEntry>,
    reqs: Seq<(Seq<char>, Seq<char>)>,
    seen: Seq<Seq<char>>,
) -> Set<(Seq<Seq<char>>, Seq<char>)> {
    Set::new(
        |pk: (Seq<Seq<char>>, Seq<char>)|
            pk.0.len() == 2 && pk.0[0] == target_key() && seen.contains(pk.0[1]) && is_target(m, reqs, pk.0, pk.1),
    )
}

/// The dependencies of the top-level dependency tables that are rewritten.
pub open spec fn top_targets(m: Map<Seq<Seq<char>>, TomlEntry>, reqs: Seq<(Seq<char>, Seq<char>)>) -> Set<
    (Seq<Seq<char>>, Seq<char>),
> {
    targets_in(m, reqs, seq![deps_key()]).union(targets_in(m, reqs, seq![dev_deps_key()])).union(
        targets_in(m, reqs, seq![build_deps_key()]),
    )
}

/// Rewrites a `Cargo.toml` file for a release: `package.version` becomes
/// the version's text, and each dependency with a requirement in `reqs`
/// (keyed by package name), in `[dependencies]`, `[dev-dependencies]`,
/// `[build-dependencies]` or a table below `[target]`, gets that
/// requirement in its `version` key. The rest of the file stays as it was.
/// A file that does not parse, lacks a `[package]` table, or writes such a
/// dependency other than as a table or an inline table is refused.
pub fn rewrite_cargo_toml(text: &str, version: &Version, reqs: &Vec<(String, String)>) -> (res: Result<
    String,
    Error,
>)
    requires
        version@.wf(),
    ensures
        match toml_read(text@) {
            None => res matches Err(Error::TomlSyntax),
            Some(m) => if kind_of(entry(m, seq![package_key()])) != TomlKind::Table {
                res matches Err(Error::NoPackageSection)
            } else if has_bad_dep(m, pairs_view(reqs@)) {
                res matches Err(Error::UnexpectedDependencyItem(k)) && exists|p: Seq<Seq<char>>|
                    bad_dep(m, pairs_view(reqs@), p, k@)
            } else {
                res matches Ok(t) && exists|d: toml_edit::Document|
                    toml_text(d) == t@ && forall|q: Seq<Seq<char>>|
                        #[trigger] entry(toml_items(d), q) == expected(
                            m,
                            all_targets(m, pairs_view(reqs@)),
                            render_version(version@),
                            pairs_view(reqs@),
                            q,
                        )
            },
        },
{
    let mut doc = match toml_parse(text) {
        Some(d) => d,
        None => return Err(Error::TomlSyntax),
    };
    let ghost m = toml_items(doc);
    let ghost rq = pairs_view(reqs@);
    proof {
        reveal_strlit("package");
        reveal_strlit("version");
        reveal_strlit("target");
        reveal_strlit("dependencies");
        reveal_strlit("dev-dependencies");
        reveal_strlit("build-dependencies");
        assert("package"@ =~= package_key());
        assert("version"@ =~= version_key());
        assert("target"@ =~= target_key());
        assert("dependencies"@ =~= deps_key());
        assert("dev-dependencies"@ =~= dev_deps_key());
        assert("build-dependencies"@ =~= build_deps_key());
        lemma_keys_distinct();
        assert(deps_key().len() != dev_deps_key().len());
        assert(deps_key().len() != build_deps_key().len());
        assert(dev_deps_key().len() != build_deps_key().len());
    }
    if kind_at1(&doc, "package") != TomlKind::Table {
        return Err(Error::NoPackageSection);
    }
    let vtext = version.to_string();
    set_str2(&mut doc, "package", "version", vtext.as_str());
    proof {
        lemma_initial(m, vtext@, rq);
    }
    let ghost v = vtext@;
    let ghost d0: Set<(Seq<Seq<char>>, Seq<char>)> = Set::empty();
    match edit_top_table(&mut doc, "dependencies", reqs, Ghost(m), Ghost(v), Ghost(d0)) {
        Ok(()) => {},
        Err(e) => return Err(e),
    }
    let ghost d1 = d0.union(targets_in(m, rq, seq![deps_key()]));
    match edit_top_table(&mut doc, "dev-dependencies", reqs, Ghost(m), Ghost(v), Ghost(d1)) {
        Ok(()) => {},
        Err(e) => return Err(e),
    }
    let ghost d2 = d1.union(targets_in(m, rq, seq![dev_deps_key()]));
    match edit_top_table(&mut doc, "build-dependencies", reqs, Ghost(m), Ghost(v), Ghost(d2)) {
        Ok(()) => {},
        Err(e) => return Err(e),
    }
    let ghost d3 = d2.union(targets_in(m, rq, seq![build_deps_key()]));
    proof {
        assert(d3 =~= top_targets(m, rq));
        lemma_reads(m, toml_items(doc), d3, v, rq, seq![deps_key()], Seq::empty());
    }
    let ghost mut done = d3;
    let ghost mut seen: Seq<Seq<char>> = Seq::empty();
    match table_keys1(&doc, "target") {
        None => {
            proof {
                assert(targets_under(m, rq, Seq::empty()) =~= Set::empty());
                assert(done =~= d3.union(targets_under(m, rq, seen)));
            }
        },
        Some(specs) => {
            let ghost ts = match entry(m, seq![target_key()]) {
                Some(TomlEntry::Table(ts)) => ts,
                _ => Set::empty(),
            };
            let mut i: usize = 0;
            proof {
                assert(targets_under(m, rq, lines_view(specs@).take(0)) =~= Set::empty());
                assert(done =~= d3.union(targets_under(m, rq, lines_view(specs@).take(0))));
            }
            while i < specs.len()
                invariant
                    i <= specs@.len(),
                    rq == pairs_view(reqs@),
                    "target"@ == target_key(),
                    entry(m, seq![target_key()]) == Some(TomlEntry::Table(ts)),
                    lines_view(specs@).to_set() == ts,
                    lines_view(specs@).no_duplicates(),
                    d3 == top_targets(m, rq),
                    done == d3.union(targets_under(m, rq, lines_view(specs@).take(i as int))),
                    rewritten(m, toml_items(doc), done, v, rq),
                    target_key() != package_key(),
                    !dep_table_name(target_key()),
                    toml_read(text@) == Some(m),
                    kind_of(entry(m, seq![package_key()])) == TomlKind::Table,
                decreases specs@.len() - i,
            {
                let ghost sv = specs@[i as int]@;
                let ghost p = seq![target_key(), sv];
                let ghost t0 = lines_view(specs@).take(i as int);
                let ghost t1 = lines_view(specs@).take(i + 1);
                proof {
                    assert(lines_view(specs@)[i as int] == sv);
                    assert(t1 == t0.push(sv));
                    assert(t1[i as int] == sv);
                    lemma_reads(m, toml_items(doc), done, v, rq, p, Seq::empty());
                    assert(seq!["target"@, specs@[i as int]@] =~= p);
                    assert(ts.contains(sv)) by {
                        assert(lines_view(specs@).to_set().contains(sv));
                    }
                    assert forall|k: Seq<char>| !done.contains((p, k)) by {
                        if targets_under(m, rq, t0).contains((p, k)) {
                            let j = choose|j: int| 0 <= j < t0.len() && t0[j] == sv;
                            assert(lines_view(specs@)[j] == lines_view(specs@)[i as int]);
                        }
                        if top_targets(m, rq).contains((p, k)) {
                            assert(p.len() == 2);
                        }
                    }
                }
                let s_i = specs[i].as_str();
                if kind_at2(&doc, "target", s_i) == TomlKind::Table {
                    proof {
                        assert(dpath("target", Some(s_i)) == p);
                    }
                    match edit_dep_table(&mut doc, "target", Some(s_i), reqs, Ghost(m), Ghost(v), Ghost(done)) {
                        Ok(()) => {},
                        Err(e) => {
                            proof {
                                if let Error::UnexpectedDependencyItem(k) = &e {
                                    assert(bad_dep(m, rq, p, k@));
                                }
                            }
                            return Err(e);
                        },
                    }
                    proof {
                        assert forall|pk: (Seq<Seq<char>>, Seq<char>)| #[trigger] targets_under(m, rq, t1).contains(pk)
                            == targets_under(m, rq, t0).union(targets_in(m, rq, p)).contains(pk) by {
                            if pk.0.len() == 2 && t1.contains(pk.0[1]) && pk.0[1] != sv {
                                let j = choose|j: int| 0 <= j < t1.len() && t1[j] == pk.0[1];
                                assert(t0[j] == pk.0[1]);
                            }
                            if pk.0.len() == 2 && t0.contains(pk.0[1]) {
                                let j = choose|j: int| 0 <= j < t0.len() && t0[j] == pk.0[1];
                                assert(t1[j] == pk.0[1]);
                            }
                            if pk.0 == p {
                                assert(pk.0[1] == sv);
                            }
                            if pk.0.len() == 2 && pk.0[0] == target_key() && pk.0[1] == sv {
                                assert(pk.0 =~= p);
                            }
                        }
                        assert(targets_under(m, rq, t1) =~= targets_under(m, rq, t0).union(targets_in(m, rq, p)));
                        done = done.union(targets_in(m, rq, p));
                        assert(done =~= d3.union(targets_under(m, rq, t1)));
                    }
                } else {
                    proof {
                        assert(targets_in(m, rq, p) =~= Set::empty());
                        assert forall|pk: (Seq<Seq<char>>, Seq<char>)| #[trigger] targets_under(m, rq, t1).contains(pk)
                            == targets_under(m, rq, t0).contains(pk) by {
                            if pk.0.len() == 2 && t1.contains(pk.0[1]) && pk.0[1] != sv {
                                let j = choose|j: int| 0 <= j < t1.len() && t1[j] == pk.0[1];
                                assert(t0[j] == pk.0[1]);
                            }
                            if pk.0.len() == 2 && t0.contains(pk.0[1]) {
                                let j = choose|j: int| 0 <= j < t0.len() && t0[j] == pk.0[1];
                                assert(t1[j] == pk.0[1]);
                            }
                            if pk.0.len() == 2 && pk.0[0] == target_key() && pk.0[1] == sv {
                                assert(pk.0 =~= p);
                            }
                        }
                        assert(targets_under(m, rq, t1) =~= targets_under(m, rq, t0));
                    }
                }
                i = i + 1;
            }
            proof {
                assert(lines_view(specs@).take(specs@.len() as int) =~= lines_view(specs@));
                seen = lines_view(specs@);
            }
        },
    }
    proof {
        lemma_all_targets(m, rq, seen);
        assert(done == all_targets(m, rq));
        if has_bad_dep(m, rq) {
            let (bp, bk) = choose|bp: Seq<Seq<char>>, bk: Seq<char>| bad_dep(m, rq, bp, bk);
            assert(all_targets(m, rq).contains((bp, bk)));
        }
    }
    Ok(toml_render(&doc))
}

pub open spec fn metadata_key() -> Seq<char> {
    seq!['m', 'e', 't', 'a', 'd', 'a', 't', 'a']
}

pub open spec fn idv_key() -> Seq<char> {
    seq![
        'i', 'n', 't', 'e', 'r', 'n', 'a', 'l', '_', 'd', 'e', 'p', '_', 'v', 'e', 'r', 's', 'i', 'o', 'n', 's'
    ]
}

/// The path of `package.metadata.internal_dep_versions`.
pub open spec fn idv_path() -> Seq<Seq<char>> {
    seq![package_key(), metadata_key(), idv_key()]
}

/// The items after each `(name, requirement)` entry, in order, is stored in
/// the table at `p`.
pub open spec fn stored_all(
    m: Map<Seq<Seq<char>>, TomlEntry>,
    p: Seq<Seq<char>>,
    entries: Seq<(Seq<char>, Seq<char>)>,
) -> Map<Seq<Seq<char>>, TomlEntry>
    decreases entries.len(),
{
    if entries.len() == 0 {
        m
    } else {
        with_str(stored_all(m, p, entries.drop_last()), p, entries.last().0, entries.last().1)
    }
}

/// The items after `package.metadata` and
/// `package.metadata.internal_dep_versions` were made tables where nothing
/// stood, and the entries were stored in the latter.
pub open spec fn requirements_recorded(
    m: Map<Seq<Seq<char>>, TomlEntry>,
    entries: Seq<(Seq<char>, Seq<char>)>,
) -> Map<Seq<Seq<char>>, TomlEntry> {
    stored_all(
        with_table(with_table(m, seq![package_key()], metadata_key()), seq![package_key(), metadata_key()], idv_key()),
        idv_path(),
        entries,
    )
}

/// Records the Cranko requirements of a project's internal dependencies in
/// its `Cargo.toml`: each `(package name, requirement)` entry, in order, in
/// the table `package.metadata.internal_dep_versions`, which is created,
/// with `package.metadata`, where it does not exist. The rest of the file
/// stays as it was. A file that does not parse, lacks a `[package]` table,
/// or has something other than a table at either path is refused.
pub fn record_cranko_requirements(text: &str, entries: &Vec<(String, String)>) -> (res: Result<String, Error>)
    ensures
        match toml_read(text@) {
            None => res matches Err(Error::TomlSyntax),
            Some(m) => {
                let m1 = with_table(m, seq![package_key()], metadata_key());
                let m2 = with_table(m1, seq![package_key(), metadata_key()], idv_key());
                if kind_of(entry(m, seq![package_key()])) != TomlKind::Table {
                    res matches Err(Error::NoPackageSection)
                } else if kind_of(entry(m1, seq![package_key(), metadata_key()])) != TomlKind::Table {
                    res matches Err(Error::NotATable(t)) && t@ == "package.metadata"@
                } else if kind_of(entry(m2, idv_path())) != TomlKind::Table {
                    res matches Err(Error::NotATable(t)) && t@ == "package.metadata.internal_dep_versions"@
                } else {
                    res matches Ok(t) && exists|d: toml_edit::Document|
                        toml_text(d) == t@ && toml_items(d) == requirements_recorded(m, pairs_view(entries@))
                }
            },
        },
{
    let mut doc = match toml_parse(text) {
        Some(d) => d,
        None => return Err(Error::TomlSyntax),
    };
    let ghost m = toml_items(doc);
    proof {
        reveal_strlit("package");
        reveal_strlit("metadata");
        reveal_strlit("internal_dep_versions");
        assert("package"@ =~= package_key());
        assert("metadata"@ =~= metadata_key());
        assert("internal_dep_versions"@ =~= idv_key());
    }
    if kind_at1(&doc, "package") != TomlKind::Table {
        return Err(Error::NoPackageSection);
    }
    if !ensure_table2(&mut doc, "package", "metadata") {
        return Err(Error::NotATable(crate::text::owned("package.metadata")));
    }
    proof {
        let m1 = with_table(m, seq![package_key()], metadata_key());
        assert(seq![package_key()].push(metadata_key()) =~= seq![package_key(), metadata_key()]);
        assert(kind_of(entry(m1, seq![package_key()])) == TomlKind::Table);
    }
    if !ensure_table3(&mut doc, "package", "metadata", "internal_dep_versions") {
        return Err(Error::NotATable(crate::text::owned("package.metadata.internal_dep_versions")));
    }
    let ghost m2 = toml_items(doc);
    proof {
        assert(seq![package_key(), metadata_key()].push(idv_key()) =~= idv_path());
        assert(seq![package_key(), metadata_key()] != seq![package_key()]);
        assert(idv_path() != seq![package_key()]);
        assert(idv_path() != seq![package_key(), metadata_key()]);
        assert(pairs_view(entries@).take(0) =~= Seq::<(Seq<char>, Seq<char>)>::empty());
    }
    let mut i: usize = 0;
    while i < entries.len()
        invariant
            i <= entries@.len(),
            "package"@ == package_key(),
            "metadata"@ == metadata_key(),
            "internal_dep_versions"@ == idv_key(),
            toml_items(doc) == stored_all(m2, idv_path(), pairs_view(entries@).take(i as int)),
            kind_of(entry(toml_items(doc), seq![package_key()])) == TomlKind::Table,
            kind_of(entry(toml_items(doc), seq![package_key(), metadata_key()])) == TomlKind::Table,
            kind_of(entry(toml_items(doc), idv_path())) == TomlKind::Table,
        decreases entries@.len() - i,
    {
        let ghost cur = toml_items(doc);
        set_str4(
            &mut doc,
            "package",
            "metadata",
            "internal_dep_versions",
            entries[i].0.as_str(),
            entries[i].1.as_str(),
        );
        proof {
            assert(seq![package_key(), metadata_key(), idv_key()] =~= idv_path());
            let k = entries@[i as int].0@;
            let t1 = pairs_view(entries@).take(i + 1);
            assert(t1.drop_last() =~= pairs_view(entries@).take(i as int));
            assert(t1.last() == (k, entries@[i as int].1@));
            let nw = toml_items(doc);
            assert(idv_path().push(k).len() == 4);
            assert(!under(idv_path().push(k), seq![package_key()]));
            assert(!under(idv_path().push(k), seq![package_key(), metadata_key()]));
            assert(!under(idv_path().push(k), idv_path()));
            assert(entry(nw, seq![package_key()]) == entry(cur, seq![package_key()])) by {
                assert(seq![package_key()] != idv_path().push(k));
                assert(seq![package_key()] != idv_path());
            }
            assert(entry(nw, seq![package_key(), metadata_key()]) == entry(cur, seq![package_key(), metadata_key()])) by {
                assert(seq![package_key(), metadata_key()] != idv_path().push(k));
            }
            assert(idv_path() != idv_path().push(k));
        }
        i = i + 1;
    }
    proof {
        assert(pairs_view(entries@).take(entries@.len() as int) =~= pairs_view(entries@));
    }
    Ok(toml_render(&doc))
}

} // verus!
