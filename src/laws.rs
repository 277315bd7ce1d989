//! Properties that tie the registry's operations together.
use vstd::prelude::*;

use crate::graph::{tree, tree_deps};
use crate::handler::{moved_entry, move_refused, moves_spec, opposite, Move};
use crate::registry::{
    absent_from, crossover, declared_deps, find, has_key, lemma_find_put, lemma_put_members,
    missing_deps, owners_of, put, sorted, EntryView, Mods,
};

use crate::time::Timestamp;

verus! {

proof fn lemma_no_owner_no_crossover(m: Mods, name: Seq<char>, incoming: Seq<Seq<char>>)
    requires
        forall|i: int, k: int|
            0 <= i < m.len() && 0 <= k < incoming.len() && m[i].0 != name ==> !#[trigger] m[i].1.files.contains(incoming[k]),
    ensures
        crossover(m, name, incoming).len() == 0,
    decreases incoming.len(),
{
    if incoming.len() > 0 {
        lemma_no_owner_no_crossover(m, name, incoming.drop_last());
        lemma_no_owner_of(m, name, incoming.last(), incoming);
    }
}

proof fn lemma_no_owner_of(m: Mods, name: Seq<char>, p: Seq<char>, incoming: Seq<Seq<char>>)
    requires
        incoming.len() > 0,
        p == incoming.last(),
        forall|i: int, k: int|
            0 <= i < m.len() && 0 <= k < incoming.len() && m[i].0 != name ==> !#[trigger] m[i].1.files.contains(incoming[k]),
    ensures
        owners_of(m, name, p).len() == 0,
    decreases m.len(),
{
    if m.len() > 0 {
        let r = m.drop_last();
        assert forall|i: int, k: int|
            0 <= i < r.len() && 0 <= k < incoming.len() && r[i].0 != name implies !#[trigger] r[i].1.files.contains(incoming[k]) by {
            assert(r[i] == m[i]);
        }
        lemma_no_owner_of(r, name, p, incoming);
        assert(m.last() == m[m.len() - 1]);
        assert(incoming[incoming.len() - 1] == p);
    }
}

/// Two mods of different names whose file lists are disjoint never conflict
/// with each other: when no other mod owns their files, each installs without
/// conflict, in either order.
pub proof fn lemma_disjoint_installs_never_conflict(
    m: Mods,
    a: Seq<char>,
    ea: EntryView,
    b: Seq<char>,
    eb: EntryView,
)
    requires
        sorted(m),
        a != b,
        forall|p: Seq<char>| ea.files.contains(p) ==> !eb.files.contains(p),
        forall|i: int, p: Seq<char>|
            0 <= i < m.len() && (ea.files.contains(p) || eb.files.contains(p)) ==> !m[i].1.files.contains(p),
    ensures
        crossover(m, a, ea.files).len() == 0,
        crossover(put(m, a, ea), b, eb.files).len() == 0,
        crossover(m, b, eb.files).len() == 0,
        crossover(put(m, b, eb), a, ea.files).len() == 0,
{
    assert forall|i: int, k: int|
        0 <= i < m.len() && 0 <= k < ea.files.len() && m[i].0 != a implies !#[trigger] m[i].1.files.contains(ea.files[k]) by {
        assert(ea.files.contains(ea.files[k]));
    }
    lemma_no_owner_no_crossover(m, a, ea.files);
    assert forall|i: int, k: int|
        0 <= i < m.len() && 0 <= k < eb.files.len() && m[i].0 != b implies !#[trigger] m[i].1.files.contains(eb.files[k]) by {
        assert(eb.files.contains(eb.files[k]));
    }
    lemma_no_owner_no_crossover(m, b, eb.files);
    let ma = put(m, a, ea);
    assert forall|i: int, k: int|
        0 <= i < ma.len() && 0 <= k < eb.files.len() && ma[i].0 != b implies !#[trigger] ma[i].1.files.contains(eb.files[k]) by {
        assert(eb.files.contains(eb.files[k]));
        lemma_put_members(m, a, ea, i);
        if ma[i] != (a, ea) {
            let j = choose|j: int| 0 <= j < m.len() && m[j] == ma[i] && m[j].0 != a;
            assert(!m[j].1.files.contains(eb.files[k]));
        }
    }
    lemma_no_owner_no_crossover(ma, b, eb.files);
    let mb = put(m, b, eb);
    assert forall|i: int, k: int|
        0 <= i < mb.len() && 0 <= k < ea.files.len() && mb[i].0 != a implies !#[trigger] mb[i].1.files.contains(ea.files[k]) by {
        assert(ea.files.contains(ea.files[k]));
        lemma_put_members(m, b, eb, i);
        if mb[i] != (b, eb) {
            let j = choose|j: int| 0 <= j < m.len() && m[j] == mb[i] && m[j].0 != b;
            assert(!m[j].1.files.contains(ea.files[k]));
        }
    }
    lemma_no_owner_no_crossover(mb, a, ea.files);
}

proof fn lemma_owner_listed(m: Mods, name: Seq<char>, p: Seq<char>, i: int)
    requires
        0 <= i < m.len(),
        m[i].0 != name,
        m[i].1.files.contains(p),
    ensures
        owners_of(m, name, p).contains((m[i].0, p)),
    decreases m.len(),
{
    let o = owners_of(m, name, p);
    if i == m.len() - 1 {
        assert(o.last() == (m[i].0, p));
        assert(o[o.len() - 1] == (m[i].0, p));
    } else {
        let r = m.drop_last();
        assert(r[i] == m[i]);
        lemma_owner_listed(r, name, p, i);
        let rest = owners_of(r, name, p);
        let k = choose|k: int| 0 <= k < rest.len() && rest[k] == (m[i].0, p);
        assert(o[k] == rest[k]);
    }
}

/// An incoming mod with a file that another mod already owns always
/// conflicts, and the conflict names that owner and file. The check that
/// reports it reads the registry only.
pub proof fn lemma_overlap_always_conflicts(m: Mods, name: Seq<char>, incoming: Seq<Seq<char>>, i: int, k: int)
    requires
        0 <= i < m.len(),
        0 <= k < incoming.len(),
        m[i].0 != name,
        m[i].1.files.contains(incoming[k]),
    ensures
        crossover(m, name, incoming).contains((m[i].0, incoming[k])),
        crossover(m, name, incoming).len() > 0,
    decreases incoming.len(),
{
    let c = crossover(m, name, incoming);
    let before = crossover(m, name, incoming.drop_last());
    let last = owners_of(m, name, incoming.last());
    if k == incoming.len() - 1 {
        lemma_owner_listed(m, name, incoming[k], i);
        let j = choose|j: int| 0 <= j < last.len() && last[j] == (m[i].0, incoming[k]);
        assert(c[before.len() + j] == last[j]);
    } else {
        assert(incoming.drop_last()[k] == incoming[k]);
        lemma_overlap_always_conflicts(m, name, incoming.drop_last(), i, k);
        let j = choose|j: int| 0 <= j < before.len() && before[j] == (m[i].0, incoming[k]);
        assert(c[j] == before[j]);
    }
}

/// Moving a mod one way and then back returns every file to the path it came
/// from, under the root it came from; the mod keeps its files and ends in the
/// state it started in.
pub proof fn lemma_move_round_trip(
    root: Seq<char>,
    m: Mods,
    name: Seq<char>,
    dir: Move,
    now: Timestamp,
    later: Timestamp,
)
    requires
        sorted(m),
        !move_refused(m, name, dir),
    ensures
        ({
            let e = find(m, name)->Some_0;
            let m2 = put(m, name, moved_entry(e, dir, now));
            let e2 = find(m2, name)->Some_0;
            let m3 = put(m2, name, moved_entry(e2, opposite(dir), later));
            let e3 = find(m3, name)->Some_0;
            let there = moves_spec(root, e.files, dir);
            let back = moves_spec(root, e2.files, opposite(dir));
            &&& sorted(m2)
            &&& !move_refused(m2, name, opposite(dir))
            &&& e2.files == e.files
            &&& back.len() == there.len()
            &&& forall|i: int|
                0 <= i < there.len() ==> back[i].file == there[i].file && back[i].from == there[i].to
                    && #[trigger] back[i].to == there[i].from
            &&& e3.installed == e.installed
            &&& e3.files == e.files
        }),
{
    let e = find(m, name)->Some_0;
    let m2 = put(m, name, moved_entry(e, dir, now));
    lemma_find_put(m, name, moved_entry(e, dir, now));
    let e2 = find(m2, name)->Some_0;
    lemma_find_put(m2, name, moved_entry(e2, opposite(dir), later));
}

/// A mod's missing dependencies are empty exactly when the registry has every
/// dependency it declares; otherwise they are the declared names that the
/// registry lacks, each of them declared and absent.
pub proof fn lemma_missing_deps_exact(m: Mods, name: Seq<char>)
    requires
        has_key(m, name),
    ensures
        ({
            let ds = declared_deps(find(m, name)->Some_0);
            let r = missing_deps(m, name);
            &&& r.len() == 0 <==> forall|k: int| 0 <= k < ds.len() ==> has_key(m, #[trigger] ds[k])
            &&& r == ds.filter(absent_from(m))
            &&& forall|k: int| 0 <= k < r.len() ==> ds.contains(#[trigger] r[k]) && !has_key(m, r[k])
        }),
{
    let ds = declared_deps(find(m, name)->Some_0);
    let r = missing_deps(m, name);
    broadcast use vstd::seq_lib::group_filter_ensures;

    if r.len() == 0 {
        assert forall|k: int| 0 <= k < ds.len() implies has_key(m, #[trigger] ds[k]) by {
            if !has_key(m, ds[k]) {
                ds.lemma_filter_contains(absent_from(m), k);
            }
        }
    } else {
        ds.lemma_filter_pred(absent_from(m), 0);
        assert(ds.filter(absent_from(m)).contains(r[0]));
    }
    assert forall|k: int| 0 <= k < r.len() implies ds.contains(#[trigger] r[k]) && !has_key(m, r[k]) by {
        ds.lemma_filter_pred(absent_from(m), k);
        assert(r.contains(r[k]));
        ds.lemma_filter_contains_rev(absent_from(m), r[k]);
    }
}

pub open spec fn extends(s: Seq<Seq<char>>, t: Seq<Seq<char>>) -> bool {
    s.len() <= t.len() && t.subrange(0, s.len() as int) == s
}

proof fn lemma_tree_no_dup(m: Mods, name: Seq<char>, seen: Seq<Seq<char>>, fuel: nat)
    requires
        seen.no_duplicates(),
    ensures
        tree(m, name, seen, fuel).1.no_duplicates(),
        extends(seen, tree(m, name, seen, fuel).1),
    decreases fuel, 0nat,
{
    if fuel == 0 || seen.contains(name) {
        assert(seen.subrange(0, seen.len() as int) =~= seen);
    } else {
        let s1 = seen.push(name);
        assert forall|a: int, b: int| 0 <= a < b < s1.len() implies s1[a] != s1[b] by {
            if b == s1.len() - 1 {
                assert(seen.contains(s1[a]) || s1[a] != name);
            }
        }
        match find(m, name) {
            Some(e) => {
                lemma_deps_no_dup(m, declared_deps(e), s1, (fuel - 1) as nat);
                let t = tree(m, name, seen, fuel).1;
                assert(t.subrange(0, s1.len() as int) == s1);
                assert(t.subrange(0, seen.len() as int) =~= t.subrange(0, s1.len() as int).subrange(0, seen.len() as int));
                assert(s1.subrange(0, seen.len() as int) =~= seen);
            },
            None => {
                assert(s1.subrange(0, seen.len() as int) =~= seen);
            },
        }
    }
}

proof fn lemma_deps_no_dup(m: Mods, deps: Seq<Seq<char>>, seen: Seq<Seq<char>>, fuel: nat)
    requires
        seen.no_duplicates(),
    ensures
        tree_deps(m, deps, seen, fuel).1.no_duplicates(),
        extends(seen, tree_deps(m, deps, seen, fuel).1),
    decreases fuel, deps.len() + 1,
{
    if deps.len() == 0 {
        assert(seen.subrange(0, seen.len() as int) =~= seen);
    } else {
        let d = deps[0];
        let seen1 = match find(m, d) {
            Some(de) => tree(m, d, seen, fuel).1,
            None => seen,
        };
        match find(m, d) {
            Some(de) => {
                lemma_tree_no_dup(m, d, seen, fuel);
            },
            None => {
                assert(seen.subrange(0, seen.len() as int) =~= seen);
            },
        }
        lemma_deps_no_dup(m, deps.drop_first(), seen1, fuel);
        let t = tree_deps(m, deps, seen, fuel).1;
        assert(t.subrange(0, seen.len() as int) =~= t.subrange(0, seen1.len() as int).subrange(0, seen.len() as int));
    }
}

/// Walking the dependency tree of a mod expands each name at most once: the
/// names expanded, in the order of expansion, hold no duplicates, so a cycle
/// (A needs B, B needs A) is walked once and the walk ends.
pub proof fn lemma_graph_expands_each_name_once(m: Mods, i: int)
    requires
        0 <= i < m.len(),
    ensures
        tree(m, m[i].0, Seq::empty(), (m.len() + 1) as nat).1.no_duplicates(),
{
    lemma_tree_no_dup(m, m[i].0, Seq::empty(), (m.len() + 1) as nat);
}

} // verus!
