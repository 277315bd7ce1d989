//! Reports over a loaded registry: the status of each mod, and the tree of its
//! dependencies.
use vstd::prelude::*;

use crate::registry::{declared_deps, has_key, missing_deps, ModRegistry, Mods};
use crate::time::{clamp_human, human_time_of, humanize_since, whole_secs_between, Timestamp};

verus! {

/// The status of one mod.
pub struct ModStatus {
    pub name: String,
    pub enabled: bool,
    pub version: String,
    pub installed_at: Option<Timestamp>,
    /// Declared dependencies that the registry lacks, in declared order.
    pub missing_dependencies: Vec<String>,
    /// Declared dependencies that the registry has, in declared order.
    pub dependencies: Vec<String>,
}

pub struct StatusView {
    pub name: Seq<char>,
    pub enabled: bool,
    pub version: Seq<char>,
    pub installed_at: Option<Timestamp>,
    pub missing_dependencies: Seq<Seq<char>>,
    pub dependencies: Seq<Seq<char>>,
}

impl View for ModStatus {
    type V = StatusView;

    open spec fn view(&self) -> StatusView {
        StatusView {
            name: self.name@,
            enabled: self.enabled,
            version: self.version@,
            installed_at: self.installed_at,
            missing_dependencies: self.missing_dependencies.deep_view(),
            dependencies: self.dependencies.deep_view(),
        }
    }
}

/// Holds of the names that the registry has.
pub open spec fn present_in(m: Mods) -> spec_fn(Seq<char>) -> bool {
    |d: Seq<char>| has_key(m, d)
}

/// The status of the `i`-th mod of the registry.
pub open spec fn status_of(m: Mods, i: int) -> StatusView {
    StatusView {
        name: m[i].0,
        enabled: m[i].1.installed,
        version: m[i].1.version,
        installed_at: m[i].1.installed_at,
        missing_dependencies: missing_deps(m, m[i].0),
        dependencies: declared_deps(m[i].1).filter(present_in(m)),
    }
}

/// 1 when some mod of the registry lacks a dependency, else 0.
pub open spec fn outcome(m: Mods) -> i32 {
    if exists|i: int| 0 <= i < m.len() && #[trigger] missing_deps(m, m[i].0).len() > 0 {
        1
    } else {
        0
    }
}

/// `pre + d + post` for each `d` of `ds`, concatenated.
pub open spec fn dep_lines(pre: Seq<char>, ds: Seq<Seq<char>>, post: Seq<char>) -> Seq<char>
    decreases ds.len(),
{
    if ds.len() == 0 {
        Seq::empty()
    } else {
        dep_lines(pre, ds.drop_last(), post) + pre + ds.last() + post
    }
}

/// The name, state and version lines of a status block.
pub open spec fn block_head(s: StatusView) -> Seq<char> {
    "\x1b[1m*\x1b[0m \x1b[1m\x1b[33mName\x1b[0m: `"@ + s.name + "`\n"@ + "  - Enabled: "@ + (if s.enabled {
        "\x1b[32mtrue\x1b[0m"@
    } else {
        "\x1b[31mfalse\x1b[0m"@
    }) + "\n"@ + "  - Version: \x1b[36m"@ + s.version + "\x1b[0m\n"@
}

/// How long ago a mod was installed, in words, seen from `now`.
pub open spec fn installed_phrase(s: StatusView, now: Timestamp) -> Option<Seq<char>> {
    match s.installed_at {
        Some(t) => Some(human_time_of(clamp_human(whole_secs_between(t, now)))),
        None => None,
    }
}

/// The install-time line of a status block, given the phrase for it.
pub open spec fn block_installed(phrase: Option<Seq<char>>) -> Seq<char> {
    match phrase {
        Some(h) => "  - Installed: "@ + h + "\n"@,
        None => Seq::empty(),
    }
}

/// The missing-dependency lines of a status block.
pub open spec fn block_missing(s: StatusView) -> Seq<char> {
    if s.missing_dependencies.len() > 0 {
        "  - Missing dependencies:\n"@ + dep_lines(
            "      > `\x1b[31m"@,
            s.missing_dependencies,
            "\x1b[0m`\n"@,
        )
    } else {
        Seq::empty()
    }
}

/// The dependency lines of a status block.
pub open spec fn block_deps(s: StatusView) -> Seq<char> {
    if s.dependencies.len() > 0 {
        "  - Dependencies:\n"@ + dep_lines("      > `"@, s.dependencies, "`\n"@)
    } else {
        Seq::empty()
    }
}

/// The text block of one mod's status, with `phrase` for its install time.
pub open spec fn status_block_with(s: StatusView, phrase: Option<Seq<char>>) -> Seq<char> {
    block_head(s) + block_installed(phrase) + block_missing(s) + block_deps(s)
}

/// The text block of one mod's status, seen from `now`.
pub open spec fn status_block(s: StatusView, now: Timestamp) -> Seq<char> {
    status_block_with(s, installed_phrase(s, now))
}

pub open spec fn opt_str_view(o: Option<&str>) -> Option<Seq<char>> {
    match o {
        Some(h) => Some(h@),
        None => None,
    }
}

/// The blocks of the first `n` mods, in order.
pub open spec fn status_text_spec(m: Mods, n: int, now: Timestamp) -> Seq<char>
    decreases n,
{
    if n <= 0 {
        Seq::empty()
    } else {
        status_text_spec(m, n - 1, now) + status_block(status_of(m, n - 1), now)
    }
}

/// Appends `pre + d + post` for each `d` of `ds`.
fn push_dep_lines(out: &mut String, pre: &str, ds: &Vec<String>, post: &str)
    ensures
        final(out)@ == old(out)@ + dep_lines(pre@, ds.deep_view(), post@),
{
    let ghost start = out@;
    let ghost dv = ds.deep_view();
    let mut i: usize = 0;
    assert(dv.subrange(0, 0) =~= Seq::<Seq<char>>::empty());
    assert(start + Seq::<char>::empty() =~= start);
    while i < ds.len()
        invariant
            dv == ds.deep_view(),
            i <= ds.len(),
            out@ == start + dep_lines(pre@, dv.subrange(0, i as int), post@),
        decreases ds.len() - i,
    {
        assert(dv.subrange(0, i + 1).drop_last() =~= dv.subrange(0, i as int));
        out.append(pre);
        out.append(ds[i].as_str());
        out.append(post);
        assert(out@ =~= start + dep_lines(pre@, dv.subrange(0, i + 1), post@));
        i = i + 1;
    }
    assert(dv.subrange(0, i as int) =~= dv);
}

/// The text block of the status `s`, with `installed` as the phrase for its
/// install time (no install line when absent).
pub fn status_block_text(s: &ModStatus, installed: Option<&str>) -> (r: String)
    ensures
        r@ == status_block_with(s@, opt_str_view(installed)),
{
    let mut out = String::new();
    out.append("\x1b[1m*\x1b[0m \x1b[1m\x1b[33mName\x1b[0m: `");
    out.append(s.name.as_str());
    out.append("`\n");
    out.append("  - Enabled: ");
    if s.enabled {
        out.append("\x1b[32mtrue\x1b[0m");
    } else {
        out.append("\x1b[31mfalse\x1b[0m");
    }
    out.append("\n");
    out.append("  - Version: \x1b[36m");
    out.append(s.version.as_str());
    out.append("\x1b[0m\n");
    assert(out@ =~= block_head(s@));
    let ghost p1 = out@;
    match installed {
        Some(h) => {
            out.append("  - Installed: ");
            out.append(h);
            out.append("\n");
        },
        None => {},
    }
    assert(out@ =~= p1 + block_installed(opt_str_view(installed)));
    let ghost p2 = out@;
    if s.missing_dependencies.len() > 0 {
        out.append("  - Missing dependencies:\n");
        push_dep_lines(&mut out, "      > `\x1b[31m", &s.missing_dependencies, "\x1b[0m`\n");
    }
    assert(out@ =~= p2 + block_missing(s@));
    let ghost p3 = out@;
    if s.dependencies.len() > 0 {
        out.append("  - Dependencies:\n");
        push_dep_lines(&mut out, "      > `", &s.dependencies, "`\n");
    }
    assert(out@ =~= p3 + block_deps(s@));
    assert(out@ =~= status_block_with(s@, opt_str_view(installed)));
    out
}

impl ModRegistry {
    /// The status of the mod at position `i`.
    fn status_at(&self, i: usize) -> (r: ModStatus)
        requires
            i < self@.len(),
        ensures
            r@ == status_of(self@, i as int),
    {
        let name = &self.mods[i].0;
        let entry = &self.mods[i].1;
        let missing = self.satisfied_deps(name.as_str());
        let mut present: Vec<String> = Vec::new();
        match &entry.dependencies {
            Some(deps) => {
                let ghost dv = deps.deep_view();
                let ghost pred = present_in(self@);
                let mut j: usize = 0;
                assert(dv.subrange(0, 0).filter(pred) =~= Seq::<Seq<char>>::empty()) by {
                    reveal(Seq::filter);
                }
                while j < deps.len()
                    invariant
                        dv == deps.deep_view(),
                        pred == present_in(self@),
                        j <= deps.len(),
                        present.deep_view() == dv.subrange(0, j as int).filter(pred),
                    decreases deps.len() - j,
                {
                    let ghost before = present.deep_view();
                    assert(dv.subrange(0, j + 1).drop_last() =~= dv.subrange(0, j as int));
                    assert(dv.subrange(0, j + 1).filter(pred) == if pred(dv[j as int]) {
                        dv.subrange(0, j as int).filter(pred).push(dv[j as int])
                    } else {
                        dv.subrange(0, j as int).filter(pred)
                    }) by {
                        reveal(Seq::filter);
                    }
                    if self.contains_key(deps[j].as_str()) {
                        present.push(deps[j].clone());
                        assert(present.deep_view() =~= before.push(dv[j as int]));
                    }
                    j = j + 1;
                }
                assert(dv.subrange(0, j as int) =~= dv);
            },
            None => {
                assert(present.deep_view() =~= Seq::<Seq<char>>::empty());
                assert(Seq::<Seq<char>>::empty().filter(present_in(self@)) =~= Seq::<Seq<char>>::empty()) by {
                    reveal(Seq::filter);
                }
            },
        }
        ModStatus {
            name: name.clone(),
            enabled: entry.installed,
            version: entry.version.clone(),
            installed_at: entry.installed_at,
            missing_dependencies: missing,
            dependencies: present,
        }
    }

    /// The status of every mod, in name order, and the outcome code: 1 when
    /// some mod lacks a dependency, else 0.
    pub fn status_report(&self) -> (r: (Vec<ModStatus>, i32))
        ensures
            r.0@.map_values(|s: ModStatus| s@) == Seq::new(self@.len(), |i: int| status_of(self@, i)),
            r.1 == outcome(self@),
    {
        let mut out: Vec<ModStatus> = Vec::new();
        let mut code: i32 = 0;
        let mut i: usize = 0;
        while i < self.mods.len()
            invariant
                i <= self@.len(),
                self@.len() == self.mods@.len(),
                out@.map_values(|s: ModStatus| s@) == Seq::new(i as nat, |k: int| status_of(self@, k)),
                code == 0 || code == 1,
                code == 1 <==> exists|k: int| 0 <= k < i && #[trigger] missing_deps(self@, self@[k].0).len() > 0,
            decreases self.mods.len() - i,
        {
            let s = self.status_at(i);
            assert(s@.missing_dependencies.len() == s.missing_dependencies.len());
            if s.missing_dependencies.len() > 0 {
                code = 1;
                assert(missing_deps(self@, self@[i as int].0).len() > 0);
            }
            let ghost before = out@.map_values(|s: ModStatus| s@);
            let ghost sv = s@;
            out.push(s);
            assert(out@.map_values(|s: ModStatus| s@) =~= before.push(sv));
            assert(out@.map_values(|s: ModStatus| s@) =~= Seq::new((i + 1) as nat, |k: int| status_of(self@, k)));
            i = i + 1;
        }
        (out, code)
    }

    /// The status of every mod as text for a terminal, with install times
    /// told relative to `now`, and the outcome code of [`Self::status_report`].
    pub fn status_text(&self, now: Timestamp) -> (r: (String, i32))
        ensures
            r.0@ == status_text_spec(self@, self@.len() as int, now),
            r.1 == outcome(self@),
    {
        let (statuses, code) = self.status_report();
        assert(statuses@.map_values(|s: ModStatus| s@).len() == statuses@.len());
        let mut out = String::new();
        let mut i: usize = 0;
        while i < statuses.len()
            invariant
                i <= statuses.len(),
                statuses.len() == self@.len(),
                statuses@.map_values(|s: ModStatus| s@) == Seq::new(self@.len(), |k: int| status_of(self@, k)),
                out@ == status_text_spec(self@, i as int, now),
            decreases statuses.len() - i,
        {
            let s = &statuses[i];
            assert(statuses@.map_values(|s: ModStatus| s@)[i as int] == statuses@[i as int]@);
            assert(s@ == status_of(self@, i as int));
            let phrase: Option<String> = match s.installed_at {
                Some(t) => Some(humanize_since(t, now)),
                None => None,
            };
            let installed: Option<&str> = match &phrase {
                Some(h) => Some(h.as_str()),
                None => None,
            };
            assert(opt_str_view(installed) == installed_phrase(s@, now));
            let block = status_block_text(s, installed);
            out.append(block.as_str());
            i = i + 1;
        }
        (out, code)
    }
}

} // verus!
