//! The dependency tree of each mod, walked so that cycles and shared
//! dependencies are expanded once per tree.
use vstd::prelude::*;

use crate::registry::{
    contains_string, declared_deps, find, has_key, lemma_find_sorted, ModRegistry, Mods,
};

verus! {

/// One step of building a tree: open a child with a label, or close the
/// child opened last.
pub enum TreeEvent {
    Begin(String),
    End,
}

pub enum TreeEventView {
    Begin(Seq<char>),
    End,
}

impl View for TreeEvent {
    type V = TreeEventView;

    open spec fn view(&self) -> TreeEventView {
        match self {
            TreeEvent::Begin(l) => TreeEventView::Begin(l@),
            TreeEvent::End => TreeEventView::End,
        }
    }
}

pub open spec fn events_view(v: Seq<TreeEvent>) -> Seq<TreeEventView> {
    v.map_values(|e: TreeEvent| e@)
}

/// The label of a tree's root.
pub open spec fn root_label(name: Seq<char>, version: Seq<char>) -> Seq<char> {
    "* \x1b[1m"@ + name + "\x1b[0m v"@ + version
}

/// The label of a dependency that the registry has.
pub open spec fn found_label(name: Seq<char>, version: Seq<char>) -> Seq<char> {
    "\x1b[1m\x1b[32m\u{2714}\x1b[0m \x1b[1m"@ + name + "\x1b[0m v"@ + version
}

/// The label of a dependency that the registry lacks.
pub open spec fn lacking_label(name: Seq<char>) -> Seq<char> {
    "\x1b[1m\x1b[31m\u{2718}\x1b[0m \x1b[1m"@ + name + "\x1b[0m"@
}

/// The label of an expanded name that the registry lacks.
pub open spec fn unknown_label(name: Seq<char>) -> Seq<char> {
    "\x1b[1m\x1b[31m\u{2718}\x1b[0m "@ + name
}

/// The events that expand `name` given the names `seen` so far, and the names
/// seen afterwards. A seen name is not expanded again; `fuel` bounds the depth.
pub open spec fn tree(m: Mods, name: Seq<char>, seen: Seq<Seq<char>>, fuel: nat) -> (
    Seq<TreeEventView>,
    Seq<Seq<char>>,
)
    decreases fuel, 0nat,
{
    if fuel == 0 || seen.contains(name) {
        (Seq::empty(), seen)
    } else {
        let seen1 = seen.push(name);
        match find(m, name) {
            Some(e) => tree_deps(m, declared_deps(e), seen1, (fuel - 1) as nat),
            None => (seq![TreeEventView::Begin(unknown_label(name)), TreeEventView::End], seen1),
        }
    }
}

/// The events for each dependency of `deps` in turn: a child for it, expanded
/// when the registry has it.
pub open spec fn tree_deps(m: Mods, deps: Seq<Seq<char>>, seen: Seq<Seq<char>>, fuel: nat) -> (
    Seq<TreeEventView>,
    Seq<Seq<char>>,
)
    decreases fuel, deps.len() + 1,
{
    if deps.len() == 0 {
        (Seq::empty(), seen)
    } else {
        let d = deps[0];
        let (head, seen1) = match find(m, d) {
            Some(de) => {
                let (sub, s) = tree(m, d, seen, fuel);
                (seq![TreeEventView::Begin(found_label(d, de.version))] + sub + seq![
                    TreeEventView::End,
                ], s)
            },
            None => (seq![TreeEventView::Begin(lacking_label(d)), TreeEventView::End], seen),
        };
        let (tail, seen2) = tree_deps(m, deps.drop_first(), seen1, fuel);
        (head + tail, seen2)
    }
}

/// The tree of the mod at position `i`: its root label and its events.
pub open spec fn graph_of(m: Mods, i: int) -> (Seq<char>, Seq<TreeEventView>) {
    (root_label(m[i].0, m[i].1.version), tree(m, m[i].0, Seq::empty(), (m.len() + 1) as nat).0)
}

/// Every name of `seen` is a name of the registry.
pub open spec fn all_known(m: Mods, seen: Seq<Seq<char>>) -> bool {
    forall|k: int| 0 <= k < seen.len() ==> has_key(m, #[trigger] seen[k])
}

proof fn lemma_find_index(m: Mods, name: Seq<char>)
    requires
        has_key(m, name),
    ensures
        exists|i: int| 0 <= i < m.len() && m[i].0 == name,
    decreases m.len(),
{
    if m.last().0 != name {
        lemma_find_index(m.drop_last(), name);
        let i = choose|i: int| 0 <= i < m.len() - 1 && m.drop_last()[i].0 == name;
        assert(m[i].0 == name);
    } else {
        assert(m[m.len() - 1].0 == name);
    }
}

/// Distinct names of the registry are no more than its entries.
proof fn lemma_seen_bound(m: Mods, seen: Seq<Seq<char>>)
    requires
        seen.no_duplicates(),
        all_known(m, seen),
    ensures
        seen.len() <= m.len(),
{
    let keys = m.map_values(|p: (Seq<char>, crate::registry::EntryView)| p.0);
    assert forall|x: Seq<char>| seen.to_set().contains(x) implies keys.to_set().contains(x) by {
        let k = choose|k: int| 0 <= k < seen.len() && seen[k] == x;
        assert(has_key(m, seen[k]));
        lemma_find_index(m, x);
        let i = choose|i: int| 0 <= i < m.len() && m[i].0 == x;
        assert(keys[i] == x);
    }
    seen.unique_seq_to_set();
    keys.lemma_cardinality_of_set();
    vstd::seq_lib::seq_to_set_is_finite(keys);
    vstd::set_lib::lemma_len_subset(seen.to_set(), keys.to_set());
}

impl ModRegistry {
    /// Appends the events that expand `name` (see [`tree`]) and records the
    /// names it expands in `seen`.
    fn build_tree(
        &self,
        name: &String,
        seen: &mut Vec<String>,
        out: &mut Vec<TreeEvent>,
        Ghost(fuel): Ghost<nat>,
    )
        requires
            old(seen).deep_view().no_duplicates(),
            all_known(self@, old(seen).deep_view()),
            has_key(self@, name@),
            fuel >= self@.len() - old(seen).deep_view().len() + 1,
        ensures
            final(seen).deep_view().no_duplicates(),
            all_known(self@, final(seen).deep_view()),
            old(seen).deep_view().len() <= final(seen).deep_view().len(),
            events_view(final(out)@) == events_view(old(out)@) + tree(self@, name@, old(seen).deep_view(), fuel).0,
            final(seen).deep_view() == tree(self@, name@, old(seen).deep_view(), fuel).1,
        decreases fuel,
    {
        let ghost s0 = seen.deep_view();
        let ghost o0 = events_view(out@);
        if contains_string(seen, name) {
            assert(events_view(out@) =~= o0 + Seq::<TreeEventView>::empty());
            return;
        }
        let ghost m = self@;
        proof {
            lemma_seen_bound(m, s0);
        }
        seen.push(name.clone());
        assert(seen.deep_view() =~= s0.push(name@));
        let ghost s1 = seen.deep_view();
        proof {
            assert forall|a: int, b: int| 0 <= a < b < s1.len() implies s1[a] != s1[b] by {
                if b == s1.len() - 1 {
                    assert(s0.contains(s1[a]) || s1[a] != name@);
                }
            }
            assert(all_known(m, s1)) by {
                assert forall|k: int| 0 <= k < s1.len() implies has_key(m, #[trigger] s1[k]) by {
                    if k < s0.len() {
                        assert(s1[k] == s0[k]);
                    }
                }
            }
            lemma_seen_bound(m, s1);
        }
        let entry = match self.get(name.as_str()) {
            Some(e) => e,
            None => {
                return;
            },
        };
        let ghost f1: nat = (fuel - 1) as nat;
        let ghost all = declared_deps(entry@);
        assert(tree(m, name@, s0, fuel) == tree_deps(m, all, s1, f1));
        let empty: Vec<String> = Vec::new();
        let deps: &Vec<String> = match &entry.dependencies {
            Some(d) => d,
            None => &empty,
        };
        assert(deps.deep_view() =~= all);
        let mut i: usize = 0;
        assert(all.subrange(0, all.len() as int) =~= all);
        assert(o0 + Seq::<TreeEventView>::empty() =~= o0);
        while i < deps.len()
            invariant
                all == deps.deep_view(),
                m == self@,
                i <= deps.len(),
                f1 + 1 == fuel,
                seen.deep_view().no_duplicates(),
                all_known(m, seen.deep_view()),
                s1.len() <= seen.deep_view().len(),
                fuel >= m.len() - s0.len() + 1,
                s1.len() == s0.len() + 1,
                ({
                    let rest = tree_deps(m, all.subrange(i as int, all.len() as int), seen.deep_view(), f1);
                    &&& events_view(out@) + rest.0 == o0 + tree(m, name@, s0, fuel).0
                    &&& rest.1 == tree(m, name@, s0, fuel).1
                }),
            decreases deps.len() - i,
        {
            let ghost rest_ds = all.subrange(i as int, all.len() as int);
            assert(rest_ds.drop_first() =~= all.subrange(i + 1, all.len() as int));
            assert(rest_ds[0] == all[i as int]);
            let ghost sc = seen.deep_view();
            let ghost oc = events_view(out@);
            let d = &deps[i];
            match self.get(d.as_str()) {
                Some(de) => {
                    let mut label = String::from_str("\x1b[1m\x1b[32m\u{2714}\x1b[0m \x1b[1m");
                    label.append(d.as_str());
                    label.append("\x1b[0m v");
                    label.append(de.version.as_str());
                    assert(label@ =~= found_label(d@, de.version@));
                    let ghost b = TreeEventView::Begin(label@);
                    out.push(TreeEvent::Begin(label));
                    let ghost o1 = events_view(out@);
                    assert(o1 =~= oc.push(b));
                    self.build_tree(d, seen, out, Ghost(f1));
                    let ghost sub = tree(m, d@, sc, f1);
                    let ghost o2 = events_view(out@);
                    out.push(TreeEvent::End);
                    assert(events_view(out@) =~= o2.push(TreeEventView::End));
                    assert(events_view(out@) =~= oc + (seq![b] + sub.0 + seq![TreeEventView::End]));
                },
                None => {
                    let mut label = String::from_str("\x1b[1m\x1b[31m\u{2718}\x1b[0m \x1b[1m");
                    label.append(d.as_str());
                    label.append("\x1b[0m");
                    assert(label@ =~= lacking_label(d@));
                    out.push(TreeEvent::Begin(label));
                    out.push(TreeEvent::End);
                    assert(events_view(out@) =~= oc + seq![TreeEventView::Begin(lacking_label(d@)), TreeEventView::End]);
                },
            }
            i = i + 1;
        }
        assert(all.subrange(i as int, all.len() as int) =~= Seq::<Seq<char>>::empty());
        assert(events_view(out@) + Seq::<TreeEventView>::empty() =~= events_view(out@));
    }

    /// The dependency tree of every mod, in name order: the root label and the
    /// events that build the tree under it.
    pub fn graph_trees(&self) -> (r: Vec<(String, Vec<TreeEvent>)>)
        requires
            self.wf(),
        ensures
            r@.len() == self@.len(),
            forall|i: int|
                0 <= i < r@.len() ==> (#[trigger] r@[i].0@, events_view(r@[i].1@)) == graph_of(self@, i),
    {
        let mut r: Vec<(String, Vec<TreeEvent>)> = Vec::new();
        let mut i: usize = 0;
        while i < self.mods.len()
            invariant
                self.wf(),
                i <= self@.len(),
                self@.len() == self.mods@.len(),
                r@.len() == i,
                forall|k: int|
                    0 <= k < i ==> (#[trigger] r@[k].0@, events_view(r@[k].1@)) == graph_of(self@, k),
            decreases self.mods.len() - i,
        {
            let name = &self.mods[i].0;
            let mut root = String::from_str("* \x1b[1m");
            root.append(name.as_str());
            root.append("\x1b[0m v");
            root.append(self.mods[i].1.version.as_str());
            let mut seen: Vec<String> = Vec::new();
            let mut out: Vec<TreeEvent> = Vec::new();
            proof {
                lemma_find_sorted(self@, i as int);
                assert(seen.deep_view() =~= Seq::<Seq<char>>::empty());
                assert(events_view(out@) =~= Seq::<TreeEventView>::empty());
            }
            self.build_tree(name, &mut seen, &mut out, Ghost((self@.len() + 1) as nat));
            assert(events_view(out@) =~= tree(self@, name@, Seq::empty(), (self@.len() + 1) as nat).0);
            r.push((root, out));
            i = i + 1;
        }
        r
    }
}

} // verus!
