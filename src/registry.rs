//! The registry: mod names, in order, each with what was recorded when the mod
//! was installed.
use vstd::prelude::*;

use crate::names::{
    lemma_name_less_asymmetric, lemma_name_less_irreflexive, lemma_name_less_total,
    lemma_name_less_transitive, name_eq, name_less, name_lt,
};
use crate::time::Timestamp;

verus! {

/// What the registry records of one mod.
#[derive(Clone, Debug)]
pub struct ModEntry {
    /// Opaque version string.
    pub version: String,
    /// The archive the mod was installed from.
    pub file: String,
    /// Whether the mod's files sit in the active tree.
    pub installed: bool,
    /// When the mod was last installed or enabled; absent while disabled.
    pub installed_at: Option<Timestamp>,
    /// Names of the mods this one needs; an empty list is recorded as absent.
    pub dependencies: Option<Vec<String>>,
    /// The files of the mod, relative to the managed root, as listed from its
    /// archive at install time.
    pub files: Vec<String>,
}

/// A [`ModEntry`] with its strings seen as character sequences.
pub struct EntryView {
    pub version: Seq<char>,
    pub file: Seq<char>,
    pub installed: bool,
    pub installed_at: Option<Timestamp>,
    pub dependencies: Option<Seq<Seq<char>>>,
    pub files: Seq<Seq<char>>,
}

impl View for ModEntry {
    type V = EntryView;

    open spec fn view(&self) -> EntryView {
        EntryView {
            version: self.version@,
            file: self.file@,
            installed: self.installed,
            installed_at: self.installed_at,
            dependencies: match self.dependencies {
                Some(d) => Some(d.deep_view()),
                None => None,
            },
            files: self.files.deep_view(),
        }
    }
}

/// The registry as a sequence of (name, entry) pairs.
pub type Mods = Seq<(Seq<char>, EntryView)>;

/// The declared dependencies of an entry, none when absent.
pub open spec fn declared_deps(e: EntryView) -> Seq<Seq<char>> {
    match e.dependencies {
        Some(d) => d,
        None => Seq::empty(),
    }
}

/// Names strictly increase along the registry, so each name occurs once.
pub open spec fn sorted(m: Mods) -> bool {
    forall|i: int, j: int| 0 <= i < j < m.len() ==> name_less(m[i].0, m[j].0)
}

/// The entry recorded under `name`.
pub open spec fn find(m: Mods, name: Seq<char>) -> Option<EntryView>
    decreases m.len(),
{
    if m.len() == 0 {
        None
    } else if m.last().0 == name {
        Some(m.last().1)
    } else {
        find(m.drop_last(), name)
    }
}

pub open spec fn has_key(m: Mods, name: Seq<char>) -> bool {
    find(m, name) is Some
}

/// `m` with `e` recorded under `name`: in place of an entry of that name, or
/// else where the name falls in order.
pub open spec fn put(m: Mods, name: Seq<char>, e: EntryView) -> Mods
    decreases m.len(),
{
    if m.len() == 0 {
        seq![(name, e)]
    } else if m[0].0 == name {
        m.update(0, (name, e))
    } else if name_less(name, m[0].0) {
        seq![(name, e)] + m
    } else {
        seq![m[0]] + put(m.drop_first(), name, e)
    }
}

/// The declared dependencies of `name` that no entry of the registry has, in
/// declared order; none when `name` is not in the registry.
pub open spec fn missing_deps(m: Mods, name: Seq<char>) -> Seq<Seq<char>> {
    match find(m, name) {
        None => Seq::empty(),
        Some(e) => declared_deps(e).filter(absent_from(m)),
    }
}

/// Holds of the names that are not in the registry.
pub open spec fn absent_from(m: Mods) -> spec_fn(Seq<char>) -> bool {
    |d: Seq<char>| !has_key(m, d)
}

/// The pairs `(owner, path)` for every entry of `m`, in order, other than
/// `name`, whose files hold `path`.
pub open spec fn owners_of(m: Mods, name: Seq<char>, path: Seq<char>) -> Seq<(Seq<char>, Seq<char>)>
    decreases m.len(),
{
    if m.len() == 0 {
        Seq::empty()
    } else {
        let rest = owners_of(m.drop_last(), name, path);
        if m.last().1.files.contains(path) && m.last().0 != name {
            rest.push((m.last().0, path))
        } else {
            rest
        }
    }
}

/// [`owners_of`] for each incoming path in turn.
pub open spec fn crossover(m: Mods, name: Seq<char>, incoming: Seq<Seq<char>>) -> Seq<
    (Seq<char>, Seq<char>),
>
    decreases incoming.len(),
{
    if incoming.len() == 0 {
        Seq::empty()
    } else {
        crossover(m, name, incoming.drop_last()) + owners_of(m, name, incoming.last())
    }
}

/// Pairs of strings seen as pairs of character sequences.
pub open spec fn pairs_view(v: Seq<(String, String)>) -> Seq<(Seq<char>, Seq<char>)> {
    v.map_values(|p: (String, String)| (p.0@, p.1@))
}

/// The mods that have been installed, by name, in the order of their names.
pub struct ModRegistry {
    pub mods: Vec<(String, ModEntry)>,
}

impl View for ModRegistry {
    type V = Mods;

    open spec fn view(&self) -> Mods {
        self.mods@.map_values(|p: (String, ModEntry)| (p.0@, p.1@))
    }
}

impl ModRegistry {
    pub open spec fn wf(&self) -> bool {
        sorted(self@)
    }

    /// An empty registry.
    pub fn new() -> (r: ModRegistry)
        ensures
            r@ == Seq::<(Seq<char>, EntryView)>::empty(),
            r.wf(),
    {
        let r = ModRegistry { mods: Vec::new() };
        assert(r@ =~= Seq::<(Seq<char>, EntryView)>::empty());
        r
    }

    /// The position of the entry named `name`.
    pub fn index_of(&self, name: &str) -> (r: Option<usize>)
        ensures
            match r {
                Some(i) => i < self@.len() && self@[i as int].0 == name@ && find(self@, name@) == Some(
                    self@[i as int].1,
                ),
                None => find(self@, name@) is None,
            },
    {
        let mut i: usize = self.mods.len();
        assert(self@.subrange(0, i as int) =~= self@);
        while i > 0
            invariant
                i <= self@.len(),
                self@.len() == self.mods@.len(),
                find(self@, name@) == find(self@.subrange(0, i as int), name@),
            decreases i,
        {
            let ghost s = self@.subrange(0, i as int);
            assert(s.drop_last() =~= self@.subrange(0, i - 1));
            if name_eq(self.mods[i - 1].0.as_str(), name) {
                return Some(i - 1);
            }
            i = i - 1;
        }
        None
    }

    /// Whether a mod named `name` is recorded.
    pub fn contains_key(&self, name: &str) -> (r: bool)
        ensures
            r == has_key(self@, name@),
    {
        self.index_of(name).is_some()
    }

    /// The entry recorded under `name`.
    pub fn get(&self, name: &str) -> (r: Option<&ModEntry>)
        ensures
            match r {
                Some(e) => find(self@, name@) == Some(e@),
                None => find(self@, name@) is None,
            },
    {
        match self.index_of(name) {
            Some(i) => Some(&self.mods[i].1),
            None => None,
        }
    }

    /// Records `entry` under `name`, replacing an entry of that name.
    pub fn insert(&mut self, name: String, entry: ModEntry)
        requires
            old(self).wf(),
        ensures
            final(self).wf(),
            final(self)@ == put(old(self)@, name@, entry@),
    {
        let ghost m = self@;
        let n = self.mods.len();
        let mut p: usize = 0;
        while p < n && name_lt(self.mods[p].0.as_str(), name.as_str())
            invariant
                n == self.mods@.len(),
                m == self@,
                p <= n,
                forall|k: int| 0 <= k < p ==> name_less(#[trigger] m[k].0, name@),
            decreases n - p,
        {
            p = p + 1;
        }
        proof {
            lemma_put_after(m, name@, entry@, p as int);
        }
        if p < n && name_eq(self.mods[p].0.as_str(), name.as_str()) {
            let ghost ev = entry@;
            self.mods.set(p, (name, entry));
            assert(self@ =~= m.update(p as int, (m[p as int].0, ev)));
        } else {
            let ghost nv = name@;
            let ghost ev = entry@;
            self.mods.insert(p, (name, entry));
            assert(self@ =~= m.insert(p as int, (nv, ev)));
        }
        proof {
            lemma_put_sorted(m, name@, entry@);
        }
    }

    /// The names of the enabled mods, in name order.
    pub fn installed_names(&self) -> (r: Vec<String>)
        ensures
            r.deep_view() == self@.filter(|p: (Seq<char>, EntryView)| p.1.installed).map_values(
                |p: (Seq<char>, EntryView)| p.0,
            ),
    {
        let ghost pred = |p: (Seq<char>, EntryView)| p.1.installed;
        let ghost key = |p: (Seq<char>, EntryView)| p.0;
        let mut r: Vec<String> = Vec::new();
        let mut i: usize = 0;
        assert(self@.subrange(0, 0).filter(pred) =~= Seq::<(Seq<char>, EntryView)>::empty()) by {
            reveal(Seq::filter);
        }
        assert(r.deep_view() =~= Seq::<(Seq<char>, EntryView)>::empty().map_values(key));
        while i < self.mods.len()
            invariant
                pred == (|p: (Seq<char>, EntryView)| p.1.installed),
                key == (|p: (Seq<char>, EntryView)| p.0),
                i <= self@.len(),
                self@.len() == self.mods@.len(),
                r.deep_view() == self@.subrange(0, i as int).filter(pred).map_values(key),
            decreases self.mods.len() - i,
        {
            let ghost f0 = self@.subrange(0, i as int).filter(pred);
            assert(self@.subrange(0, i + 1).drop_last() =~= self@.subrange(0, i as int));
            assert(self@.subrange(0, i + 1).filter(pred) == if pred(self@[i as int]) {
                f0.push(self@[i as int])
            } else {
                f0
            }) by {
                reveal(Seq::filter);
            }
            if self.mods[i].1.installed {
                let ghost before = r.deep_view();
                let k = self.mods[i].0.clone();
                assert(k@ == self@[i as int].0);
                r.push(k);
                assert(r.deep_view() =~= before.push(k@));
                assert(f0.push(self@[i as int]).map_values(key) =~= f0.map_values(key).push(key(self@[i as int])));
            }
            i = i + 1;
        }
        assert(self@.subrange(0, i as int) =~= self@);
        r
    }

    /// Every declared dependency of `name` that is not in the registry, in
    /// declared order; empty when `name` has none or is not recorded.
    pub fn satisfied_deps(&self, name: &str) -> (r: Vec<String>)
        ensures
            r.deep_view() == missing_deps(self@, name@),
    {
        let mut broken: Vec<String> = Vec::new();
        let entry = match self.get(name) {
            Some(e) => e,
            None => {
                assert(broken.deep_view() =~= Seq::<Seq<char>>::empty());
                return broken;
            },
        };
        let deps = match &entry.dependencies {
            Some(d) => d,
            None => {
                assert(broken.deep_view() =~= Seq::<Seq<char>>::empty());
                return broken;
            },
        };
        let ghost ds = deps.deep_view();
        let ghost pred = absent_from(self@);
        assert(ds == declared_deps(entry@));
        assert(ds.subrange(0, 0).filter(pred) =~= Seq::<Seq<char>>::empty()) by {
            reveal(Seq::filter);
        }
        let mut i: usize = 0;
        while i < deps.len()
            invariant
                ds == deps.deep_view(),
                pred == absent_from(self@),
                i <= deps.len(),
                broken.deep_view() == ds.subrange(0, i as int).filter(pred),
            decreases deps.len() - i,
        {
            let ghost before = broken.deep_view();
            assert(ds.subrange(0, i + 1).drop_last() =~= ds.subrange(0, i as int));
            assert(ds.subrange(0, i + 1).filter(pred) == if pred(ds[i as int]) {
                ds.subrange(0, i as int).filter(pred).push(ds[i as int])
            } else {
                ds.subrange(0, i as int).filter(pred)
            }) by {
                reveal(Seq::filter);
            }
            let present = self.contains_key(deps[i].as_str());
            assert(deps[i as int]@ == ds[i as int]);
            if !present {
                broken.push(deps[i].clone());
                assert(broken.deep_view() =~= before.push(ds[i as int]));
            } else {
                assert(broken.deep_view() == before);
            }
            i = i + 1;
        }
        assert(ds.subrange(0, i as int) =~= ds);
        broken
    }

    /// The pairs `(owner, path)` for each incoming path, in order, and each
    /// other mod, in name order, that already owns that path.
    pub fn crossover_paths(&self, mod_name: &str, paths: &Vec<String>) -> (r: Vec<(String, String)>)
        ensures
            pairs_view(r@) == crossover(self@, mod_name@, paths.deep_view()),
    {
        let mut overlaps: Vec<(String, String)> = Vec::new();
        let ghost inc = paths.deep_view();
        let mut i: usize = 0;
        assert(pairs_view(overlaps@) =~= crossover(self@, mod_name@, inc.subrange(0, 0)));
        while i < paths.len()
            invariant
                inc == paths.deep_view(),
                i <= paths.len(),
                pairs_view(overlaps@) == crossover(self@, mod_name@, inc.subrange(0, i as int)),
            decreases paths.len() - i,
        {
            let path = &paths[i];
            let ghost base = pairs_view(overlaps@);
            let mut j: usize = 0;
            assert(base + owners_of(self@.subrange(0, 0), mod_name@, path@) =~= base);
            while j < self.mods.len()
                invariant
                    inc == paths.deep_view(),
                    i < paths.len(),
                    path@ == inc[i as int],
                    j <= self.mods@.len(),
                    self@.len() == self.mods@.len(),
                    pairs_view(overlaps@) == base + owners_of(self@.subrange(0, j as int), mod_name@, path@),
                decreases self.mods.len() - j,
            {
                let ghost before = pairs_view(overlaps@);
                let ghost sj = self@.subrange(0, j + 1);
                assert(sj.drop_last() =~= self@.subrange(0, j as int));
                let owner = &self.mods[j].0;
                let owned = contains_string(&self.mods[j].1.files, path);
                if owned && !name_eq(owner.as_str(), mod_name) {
                    overlaps.push((owner.clone(), path.clone()));
                    assert(pairs_view(overlaps@) =~= before.push((owner@, path@)));
                }
                j = j + 1;
            }
            assert(self@.subrange(0, j as int) =~= self@);
            assert(inc.subrange(0, i + 1).drop_last() =~= inc.subrange(0, i as int));
            i = i + 1;
        }
        assert(inc.subrange(0, i as int) =~= inc);
        overlaps
    }
}

/// Whether `v` holds the string `s`.
pub fn contains_string(v: &Vec<String>, s: &String) -> (r: bool)
    ensures
        r == v.deep_view().contains(s@),
{
    let mut i: usize = 0;
    while i < v.len()
        invariant
            i <= v.len(),
            forall|k: int| 0 <= k < i ==> v.deep_view()[k] != s@,
        decreases v.len() - i,
    {
        if v[i] == *s {
            assert(v.deep_view()[i as int] == s@);
            return true;
        }
        i = i + 1;
    }
    false
}

/// A copy of a list of strings.
pub fn clone_strings(v: &Vec<String>) -> (r: Vec<String>)
    ensures
        r.deep_view() == v.deep_view(),
{
    let mut r: Vec<String> = Vec::new();
    let mut i: usize = 0;
    while i < v.len()
        invariant
            i <= v.len(),
            r.deep_view() == v.deep_view().subrange(0, i as int),
        decreases v.len() - i,
    {
        let ghost before = r.deep_view();
        r.push(v[i].clone());
        assert(r.deep_view() =~= before.push(v.deep_view()[i as int]));
        assert(v.deep_view().subrange(0, i + 1) =~= v.deep_view().subrange(0, i as int).push(
            v.deep_view()[i as int],
        ));
        i = i + 1;
    }
    assert(v.deep_view().subrange(0, i as int) =~= v.deep_view());
    r
}

/// In a sorted registry, putting under a name already at position `i`
/// replaces the entry there.
pub proof fn lemma_put_existing(m: Mods, i: int, e: EntryView)
    requires
        sorted(m),
        0 <= i < m.len(),
    ensures
        put(m, m[i].0, e) == m.update(i, (m[i].0, e)),
{
    lemma_name_less_irreflexive(m[i].0);
    lemma_put_after(m, m[i].0, e, i);
}

/// In a sorted registry the entry found under a name is the one at its position.
pub proof fn lemma_find_sorted(m: Mods, i: int)
    requires
        sorted(m),
        0 <= i < m.len(),
    ensures
        find(m, m[i].0) == Some(m[i].1),
    decreases m.len(),
{
    if i < m.len() - 1 {
        lemma_name_less_irreflexive(m[i].0);
        assert(name_less(m[i].0, m[m.len() - 1].0));
        let r = m.drop_last();
        assert(sorted(r)) by {
            assert forall|a: int, b: int| 0 <= a < b < r.len() implies name_less(r[a].0, r[b].0) by {
                assert(r[a] == m[a] && r[b] == m[b]);
            }
        }
        lemma_find_sorted(r, i);
        assert(r[i] == m[i]);
    }
}


/// [`put`] holds the new pair somewhere.
proof fn lemma_put_holds(m: Mods, name: Seq<char>, e: EntryView)
    ensures
        exists|j: int| 0 <= j < put(m, name, e).len() && put(m, name, e)[j] == (name, e),
    decreases m.len(),
{
    let q = put(m, name, e);
    if m.len() == 0 || name_less(name, m[0].0) {
        assert(q[0] == (name, e));
    } else if m[0].0 == name {
        assert(q[0] == (name, e));
    } else {
        lemma_put_holds(m.drop_first(), name, e);
        let j = choose|j: int| 0 <= j < put(m.drop_first(), name, e).len() && put(m.drop_first(), name, e)[j] == (name, e);
        assert(q[j + 1] == (name, e));
    }
}

/// After [`put`] on a sorted registry, the name finds the new entry, and the
/// registry stays sorted.
pub proof fn lemma_find_put(m: Mods, name: Seq<char>, e: EntryView)
    requires
        sorted(m),
    ensures
        sorted(put(m, name, e)),
        find(put(m, name, e), name) == Some(e),
{
    lemma_put_sorted(m, name, e);
    lemma_put_holds(m, name, e);
    let q = put(m, name, e);
    let j = choose|j: int| 0 <= j < q.len() && q[j] == (name, e);
    lemma_find_sorted(q, j);
}

/// Putting at the first position whose name is not below `name` gives [`put`].
proof fn lemma_put_after(m: Mods, name: Seq<char>, e: EntryView, p: int)
    requires
        sorted(m),
        0 <= p <= m.len(),
        forall|k: int| 0 <= k < p ==> name_less(#[trigger] m[k].0, name),
        p < m.len() ==> !name_less(m[p].0, name),
    ensures
        p < m.len() && m[p].0 == name ==> put(m, name, e) == m.update(p, (m[p].0, e)),
        !(p < m.len() && m[p].0 == name) ==> put(m, name, e) == m.insert(p, (name, e)),
    decreases p,
{
    if p == 0 {
        if m.len() > 0 && m[0].0 != name {
            lemma_name_less_total(m[0].0, name);
            assert(seq![(name, e)] + m =~= m.insert(0, (name, e)));
        } else if m.len() == 0 {
            assert(seq![(name, e)] =~= m.insert(0, (name, e)));
        }
    } else {
        let r = m.drop_first();
        assert forall|k: int| 0 <= k < p - 1 implies name_less(#[trigger] r[k].0, name) by {
            assert(r[k] == m[k + 1]);
        }
        lemma_put_after(r, name, e, p - 1);
        lemma_name_less_irreflexive(name);
        lemma_name_less_asymmetric(m[0].0, name);
        assert(m[0].0 != name);
        if p < m.len() && m[p].0 == name {
            assert(seq![m[0]] + r.update(p - 1, (r[p - 1].0, e)) =~= m.update(p, (m[p].0, e)));
        } else {
            assert(seq![m[0]] + r.insert(p - 1, (name, e)) =~= m.insert(p, (name, e)));
        }
    }
}

/// Every pair of [`put`] is the new one or a pair of `m`.
pub proof fn lemma_put_members(m: Mods, name: Seq<char>, e: EntryView, i: int)
    requires
        sorted(m),
        0 <= i < put(m, name, e).len(),
    ensures
        put(m, name, e)[i] == (name, e) || exists|j: int|
            0 <= j < m.len() && m[j] == put(m, name, e)[i] && m[j].0 != name,
    decreases m.len(),
{
    if m.len() > 0 {
        if m[0].0 == name {
            if i != 0 {
                assert(m[i] == put(m, name, e)[i]);
                lemma_name_less_irreflexive(name);
                assert(name_less(m[0].0, m[i].0));
                assert(0 <= i < m.len() && m[i] == put(m, name, e)[i] && m[i].0 != name);
            }
        } else if name_less(name, m[0].0) {
            if i > 0 {
                assert(put(m, name, e)[i] == m[i - 1]);
                lemma_name_less_irreflexive(name);
                if i - 1 > 0 {
                    lemma_name_less_transitive(name, m[0].0, m[i - 1].0);
                }
                assert(0 <= i - 1 < m.len() && m[i - 1] == put(m, name, e)[i] && m[i - 1].0 != name);
            }
        } else if i > 0 {
            let r = m.drop_first();
            assert(sorted(r)) by {
                assert forall|a: int, b: int| 0 <= a < b < r.len() implies name_less(r[a].0, r[b].0) by {
                    assert(r[a] == m[a + 1] && r[b] == m[b + 1]);
                }
            }
            lemma_put_members(r, name, e, i - 1);
            if put(r, name, e)[i - 1] != (name, e) {
                let j = choose|j: int| 0 <= j < r.len() && r[j] == put(r, name, e)[i - 1] && r[j].0 != name;
                assert(m[j + 1] == put(m, name, e)[i]);
                assert(0 <= j + 1 < m.len() && m[j + 1] == put(m, name, e)[i] && m[j + 1].0 != name);
            }
        }
    }
}

proof fn lemma_put_sorted(m: Mods, name: Seq<char>, e: EntryView)
    requires
        sorted(m),
    ensures
        sorted(put(m, name, e)),
        put(m, name, e).len() >= 1,
        forall|i: int|
            0 <= i < put(m, name, e).len() ==> put(m, name, e)[i].0 == name || exists|j: int|
                0 <= j < m.len() && m[j].0 == #[trigger] put(m, name, e)[i].0,
    decreases m.len(),
{
    let q = put(m, name, e);
    if m.len() == 0 {
    } else if m[0].0 == name {
        assert forall|i: int| 0 <= i < q.len() implies q[i].0 == name || exists|j: int|
            0 <= j < m.len() && m[j].0 == #[trigger] q[i].0 by {
            if i > 0 {
                assert(m[i].0 == q[i].0);
            }
        }
    } else if name_less(name, m[0].0) {
        assert forall|i: int, j: int| 0 <= i < j < q.len() implies name_less(q[i].0, q[j].0) by {
            if i == 0 {
                if j > 1 {
                    lemma_name_less_transitive(name, m[0].0, m[j - 1].0);
                }
            }
        }
        assert forall|i: int| 0 <= i < q.len() implies q[i].0 == name || exists|j: int|
            0 <= j < m.len() && m[j].0 == #[trigger] q[i].0 by {
            if i > 0 {
                assert(m[i - 1].0 == q[i].0);
            }
        }
    } else {
        let r = m.drop_first();
        lemma_put_sorted(r, name, e);
        lemma_name_less_total(m[0].0, name);
        let pr = put(r, name, e);
        assert(q == seq![m[0]] + pr);
        assert forall|i: int, j: int| 0 <= i < j < q.len() implies name_less(q[i].0, q[j].0) by {
            if i == 0 {
                let k = j - 1;
                if pr[k].0 != name {
                    let jj = choose|jj: int| 0 <= jj < r.len() && r[jj].0 == #[trigger] pr[k].0;
                    assert(m[jj + 1].0 == pr[k].0);
                }
            } else {
                assert(q[i] == pr[i - 1] && q[j] == pr[j - 1]);
            }
        }
        assert forall|i: int| 0 <= i < q.len() implies q[i].0 == name || exists|j: int|
            0 <= j < m.len() && m[j].0 == #[trigger] q[i].0 by {
            if i == 0 {
                assert(m[0].0 == q[0].0);
            } else if pr[i - 1].0 != name {
                let jj = choose|jj: int| 0 <= jj < r.len() && r[jj].0 == #[trigger] pr[i - 1].0;
                assert(m[jj + 1].0 == q[i].0);
            }
        }
    }
}

} // verus!
