//! Installing mods and moving them between the active tree and quarantine.
//!
//! Each operation is split at its file-system work: the library decides what to
//! check, what to move and what the registry becomes; the caller reads the disk,
//! moves the files, and hands the results back.
use vstd::prelude::*;

use crate::paths::{cleanup_dirs, cleanup_dirs_spec, join, join_spec};
use crate::registry::{
    clone_strings, crossover, find, lemma_put_existing, pairs_view, put, EntryView, ModEntry,
    ModRegistry, Mods,
};
use crate::time::Timestamp;

verus! {

/// Where a mod goes: into the active tree, or into quarantine.
#[derive(PartialEq, Eq, Clone, Copy, Debug, Structural)]
pub enum Move {
    Enable,
    Disable,
}

impl Move {
    /// The `installed` flag of a mod once it has moved this way.
    pub fn installed(self) -> (r: bool)
        ensures
            r == (self == Move::Enable),
    {
        matches!(self, Move::Enable)
    }
}

pub open spec fn opposite(m: Move) -> Move {
    match m {
        Move::Enable => Move::Disable,
        Move::Disable => Move::Enable,
    }
}

impl core::ops::Not for Move {
    type Output = Move;

    fn not(self) -> Move {
        match self {
            Move::Enable => Move::Disable,
            Move::Disable => Move::Enable,
        }
    }
}

impl vstd::std_specs::ops::NotSpecImpl for Move {
    open spec fn obeys_not_spec() -> bool {
        true
    }

    open spec fn not_req(self) -> bool {
        true
    }

    open spec fn not_spec(self) -> Move {
        opposite(self)
    }
}

/// What an operation did.
pub enum Operation {
    /// A mod was installed at this version.
    Added(String),
    /// A mod that was recorded at another version was installed again.
    Updated { old_version: String, new_version: String },
    /// A mod was moved; the variant holds the way back.
    Move(Move),
}

/// Why an operation was refused.
#[allow(inconsistent_fields)]
pub enum ModError {
    /// No mod of this name, or the mod is already where the move would take it.
    MissingMod(String),
    /// Files of the incoming mod are already owned by other mods.
    DoubleOwnedFiles {
        incoming: String,
        /// One line per conflict: the owner, then a link to the file.
        files: String,
        /// Each conflict as `(owner, path)`.
        raw_splits: Vec<(String, String)>,
    },
    /// Files listed in the archive were not on disk after extraction.
    ExtractionIncomplete {
        /// One link per missing file.
        files: String,
        /// The full paths of the missing files.
        raw_splits: Vec<String>,
    },
    /// A file of the mod was not where the move expected it.
    MissingFile { mod_name: String, path: String },
}

/// One file of a mod on its way between the active tree and quarantine.
pub struct FileMove {
    /// The path relative to either root.
    pub file: String,
    /// Where the file is now.
    pub from: String,
    /// Where the file goes.
    pub to: String,
    /// The directories to remove afterwards if empty, nearest first; removal
    /// stops at the first that cannot be removed.
    pub cleanup: Vec<String>,
}

pub struct FileMoveView {
    pub file: Seq<char>,
    pub from: Seq<char>,
    pub to: Seq<char>,
    pub cleanup: Seq<Seq<char>>,
}

impl View for FileMove {
    type V = FileMoveView;

    open spec fn view(&self) -> FileMoveView {
        FileMoveView {
            file: self.file@,
            from: self.from@,
            to: self.to@,
            cleanup: self.cleanup.deep_view(),
        }
    }
}

/// The managed root and the registry document under it.
pub struct ModHandler {
    pub root: String,
    pub toml: String,
}

/// Where disabled mods are kept under `root`.
pub open spec fn disabled_root(root: Seq<char>) -> Seq<char> {
    join_spec(root, "Disabled Mods"@)
}

/// The root that a move takes files from.
pub open spec fn source_root(root: Seq<char>, dir: Move) -> Seq<char> {
    match dir {
        Move::Enable => disabled_root(root),
        Move::Disable => root,
    }
}

/// The root that a move takes files to.
pub open spec fn dest_root(root: Seq<char>, dir: Move) -> Seq<char> {
    match dir {
        Move::Enable => root,
        Move::Disable => disabled_root(root),
    }
}

/// The moves of `files` in direction `dir`, in order.
pub open spec fn moves_spec(root: Seq<char>, files: Seq<Seq<char>>, dir: Move) -> Seq<FileMoveView> {
    files.map_values(
        |f: Seq<char>|
            FileMoveView {
                file: f,
                from: join_spec(source_root(root, dir), f),
                to: join_spec(dest_root(root, dir), f),
                cleanup: cleanup_dirs_spec(f).map_values(
                    |d: Seq<char>| join_spec(source_root(root, dir), d),
                ),
            },
    )
}

/// A move of `name` in direction `dir` is refused: the mod is unknown, or
/// already where the move would take it.
pub open spec fn move_refused(m: Mods, name: Seq<char>, dir: Move) -> bool {
    match find(m, name) {
        None => true,
        Some(e) => e.installed == (dir == Move::Enable),
    }
}

/// The entry after a move in direction `dir` at time `now`.
pub open spec fn moved_entry(e: EntryView, dir: Move, now: Timestamp) -> EntryView {
    EntryView {
        installed: dir == Move::Enable,
        installed_at: if dir == Move::Enable {
            Some(now)
        } else {
            None
        },
        ..e
    }
}

/// The entry recorded for a fresh install.
pub open spec fn installed_entry(
    version: Seq<char>,
    file: Seq<char>,
    deps: Seq<Seq<char>>,
    files: Seq<Seq<char>>,
    now: Timestamp,
) -> EntryView {
    EntryView {
        version,
        file,
        installed: true,
        installed_at: Some(now),
        dependencies: if deps.len() == 0 {
            None
        } else {
            Some(deps)
        },
        files,
    }
}

/// A terminal hyperlink to `file` under `root`, showing `file`.
pub open spec fn term_link_spec(root: Seq<char>, file: Seq<char>) -> Seq<char> {
    "\x1b]8;;file://"@ + join_spec(root, file) + "\x1b\\"@ + file + "\x1b]8;;\x1b\\"@
}

/// `lines` joined with newlines.
pub open spec fn lines_spec(lines: Seq<Seq<char>>) -> Seq<char>
    decreases lines.len(),
{
    if lines.len() == 0 {
        Seq::empty()
    } else if lines.len() == 1 {
        lines[0]
    } else {
        lines_spec(lines.drop_last()) + "\n"@ + lines.last()
    }
}

/// The listing of conflicts: `owner | link` per line.
pub open spec fn conflict_lines(root: Seq<char>, pairs: Seq<(Seq<char>, Seq<char>)>) -> Seq<
    Seq<char>,
> {
    pairs.map_values(
        |p: (Seq<char>, Seq<char>)| p.0 + " | "@ + term_link_spec(root, p.1),
    )
}

/// The files of `files` whose flag in `present` is false, in order.
pub open spec fn absent_files(files: Seq<Seq<char>>, present: Seq<bool>) -> Seq<Seq<char>>
    decreases files.len(),
{
    if files.len() == 0 || present.len() == 0 {
        Seq::empty()
    } else {
        let rest = absent_files(files.drop_last(), present.drop_last());
        if present.last() {
            rest
        } else {
            rest.push(files.last())
        }
    }
}

/// Joins `lines` with newlines.
fn join_lines(lines: &Vec<String>) -> (r: String)
    ensures
        r@ == lines_spec(lines.deep_view()),
{
    let mut r = String::new();
    let ghost ls = lines.deep_view();
    let mut i: usize = 0;
    assert(ls.subrange(0, 0) =~= Seq::<Seq<char>>::empty());
    while i < lines.len()
        invariant
            ls == lines.deep_view(),
            i <= lines.len(),
            r@ == lines_spec(ls.subrange(0, i as int)),
        decreases lines.len() - i,
    {
        let ghost sub = ls.subrange(0, i + 1);
        assert(sub.drop_last() =~= ls.subrange(0, i as int));
        if i > 0 {
            r.append("\n");
        } else {
            assert(sub =~= seq![ls[0]]);
        }
        r.append(lines[i].as_str());
        i = i + 1;
    }
    assert(ls.subrange(0, i as int) =~= ls);
    r
}

impl ModHandler {
    /// A handler for the managed root `root`; the registry document is
    /// `mods.toml` under it.
    pub fn new(root: String) -> (r: ModHandler)
        ensures
            r.root@ == root@,
            r.toml@ == join_spec(root@, "mods.toml"@),
    {
        let toml = join(root.as_str(), "mods.toml");
        ModHandler { root, toml }
    }

    /// A terminal hyperlink to `file` under the root, showing `file`.
    pub fn term_link(&self, file: &str) -> (r: String)
        ensures
            r@ == term_link_spec(self.root@, file@),
    {
        let full = join(self.root.as_str(), file);
        let mut r = String::from_str("\x1b]8;;file://");
        r.append(full.as_str());
        r.append("\x1b\\");
        r.append(file);
        r.append("\x1b]8;;\x1b\\");
        r
    }

    /// Refuses an incoming mod whose files other mods already own, naming each
    /// conflict; no file has been touched at this point.
    pub fn check_incoming(&self, reg: &ModRegistry, name: &str, files: &Vec<String>) -> (r: Result<(), ModError>)
        ensures
            crossover(reg@, name@, files.deep_view()).len() == 0 <==> r is Ok,
            match r {
                Ok(()) => true,
                Err(ModError::DoubleOwnedFiles { incoming, files: text, raw_splits }) => {
                    &&& incoming@ == name@
                    &&& pairs_view(raw_splits@) == crossover(reg@, name@, files.deep_view())
                    &&& text@ == lines_spec(conflict_lines(self.root@, pairs_view(raw_splits@)))
                },
                Err(_) => false,
            },
    {
        let crossed = reg.crossover_paths(name, files);
        if crossed.len() == 0 {
            return Ok(());
        }
        let mut lines: Vec<String> = Vec::new();
        let mut i: usize = 0;
        while i < crossed.len()
            invariant
                i <= crossed.len(),
                lines.deep_view() == conflict_lines(self.root@, pairs_view(crossed@)).subrange(
                    0,
                    i as int,
                ),
            decreases crossed.len() - i,
        {
            let mut line = crossed[i].0.clone();
            line.append(" | ");
            let link = self.term_link(crossed[i].1.as_str());
            line.append(link.as_str());
            let ghost before = lines.deep_view();
            assert(pairs_view(crossed@)[i as int] == (crossed@[i as int].0@, crossed@[i as int].1@));
            assert(line@ == conflict_lines(self.root@, pairs_view(crossed@))[i as int]);
            lines.push(line);
            assert(lines.deep_view() =~= before.push(line@));
            assert(lines.deep_view() =~= conflict_lines(self.root@, pairs_view(crossed@)).subrange(
                0,
                i + 1,
            ));
            i = i + 1;
        }
        assert(lines.deep_view() =~= conflict_lines(self.root@, pairs_view(crossed@)));
        let text = join_lines(&lines);
        Err(ModError::DoubleOwnedFiles { incoming: String::from_str(name), files: text, raw_splits: crossed })
    }

    /// Refuses an install whose extraction left out files that the archive
    /// lists; `present` tells, for each of `files`, whether it is on disk.
    pub fn missing_after_extract(&self, files: &Vec<String>, present: &Vec<bool>) -> (r: Result<(), ModError>)
        requires
            files.len() == present.len(),
        ensures
            absent_files(files.deep_view(), present@).len() == 0 <==> r is Ok,
            match r {
                Ok(()) => true,
                Err(ModError::ExtractionIncomplete { files: text, raw_splits }) => {
                    &&& raw_splits.deep_view() == absent_files(files.deep_view(), present@).map_values(
                        |f: Seq<char>| join_spec(self.root@, f),
                    )
                    &&& text@ == lines_spec(
                        absent_files(files.deep_view(), present@).map_values(
                            |f: Seq<char>| term_link_spec(self.root@, f),
                        ),
                    )
                },
                Err(_) => false,
            },
    {
        let ghost fs = files.deep_view();
        let mut paths: Vec<String> = Vec::new();
        let mut links: Vec<String> = Vec::new();
        let mut i: usize = 0;
        assert(absent_files(fs.subrange(0, 0), present@.subrange(0, 0)) =~= Seq::<Seq<char>>::empty());
        assert(paths.deep_view() =~= Seq::<Seq<char>>::empty().map_values(|f: Seq<char>| join_spec(self.root@, f)));
        assert(links.deep_view() =~= Seq::<Seq<char>>::empty().map_values(|f: Seq<char>| term_link_spec(self.root@, f)));
        while i < files.len()
            invariant
                fs == files.deep_view(),
                files.len() == present.len(),
                i <= files.len(),
                paths.deep_view() == absent_files(fs.subrange(0, i as int), present@.subrange(0, i as int)).map_values(
                    |f: Seq<char>| join_spec(self.root@, f),
                ),
                links.deep_view() == absent_files(fs.subrange(0, i as int), present@.subrange(0, i as int)).map_values(
                    |f: Seq<char>| term_link_spec(self.root@, f),
                ),
            decreases files.len() - i,
        {
            let ghost a0 = absent_files(fs.subrange(0, i as int), present@.subrange(0, i as int));
            assert(fs.subrange(0, i + 1).drop_last() =~= fs.subrange(0, i as int));
            assert(present@.subrange(0, i + 1).drop_last() =~= present@.subrange(0, i as int));
            assert(absent_files(fs.subrange(0, i + 1), present@.subrange(0, i + 1)) == if present@[i as int] {
                a0
            } else {
                a0.push(fs[i as int])
            });
            if !present[i] {
                let ghost pb = paths.deep_view();
                let ghost lb = links.deep_view();
                let p = join(self.root.as_str(), files[i].as_str());
                let l = self.term_link(files[i].as_str());
                assert(files[i as int]@ == fs[i as int]);
                paths.push(p);
                links.push(l);
                assert(paths.deep_view() =~= pb.push(p@));
                assert(links.deep_view() =~= lb.push(l@));
                assert(a0.push(fs[i as int]).map_values(|f: Seq<char>| join_spec(self.root@, f))
                    =~= a0.map_values(|f: Seq<char>| join_spec(self.root@, f)).push(p@));
                assert(a0.push(fs[i as int]).map_values(|f: Seq<char>| term_link_spec(self.root@, f))
                    =~= a0.map_values(|f: Seq<char>| term_link_spec(self.root@, f)).push(l@));
            }
            i = i + 1;
        }
        assert(fs.subrange(0, i as int) =~= fs);
        assert(present@.subrange(0, i as int) =~= present@);
        if paths.len() == 0 {
            return Ok(());
        }
        let text = join_lines(&links);
        Err(ModError::ExtractionIncomplete { files: text, raw_splits: paths })
    }

    /// The file moves that take mod `name` in direction `dir`, one per
    /// recorded file, in order; refused when the mod is unknown or already
    /// there.
    pub fn move_plan(&self, reg: &ModRegistry, name: &str, dir: Move) -> (r: Result<Vec<FileMove>, ModError>)
        ensures
            move_refused(reg@, name@, dir) <==> r is Err,
            match r {
                Ok(plan) => plan@.map_values(|m: FileMove| m@) == moves_spec(
                    self.root@,
                    find(reg@, name@)->Some_0.files,
                    dir,
                ),
                Err(ModError::MissingMod(n)) => n@ == name@,
                Err(_) => false,
            },
    {
        let entry = match reg.get(name) {
            Some(e) => e,
            None => return Err(ModError::MissingMod(String::from_str(name))),
        };
        if entry.installed == dir.installed() {
            return Err(ModError::MissingMod(String::from_str(name)));
        }
        let disabled = join(self.root.as_str(), "Disabled Mods");
        let src = match dir {
            Move::Enable => disabled.clone(),
            Move::Disable => self.root.clone(),
        };
        let dst = match dir {
            Move::Enable => self.root.clone(),
            Move::Disable => disabled,
        };
        let ghost fs = entry.files.deep_view();
        let ghost want = moves_spec(self.root@, fs, dir);
        let mut plan: Vec<FileMove> = Vec::new();
        let mut i: usize = 0;
        while i < entry.files.len()
            invariant
                fs == entry.files.deep_view(),
                want == moves_spec(self.root@, fs, dir),
                src@ == source_root(self.root@, dir),
                dst@ == dest_root(self.root@, dir),
                i <= entry.files.len(),
                plan@.map_values(|m: FileMove| m@) == want.subrange(0, i as int),
            decreases entry.files.len() - i,
        {
            let f = &entry.files[i];
            let dirs = cleanup_dirs(f.as_str());
            let mut cleanup: Vec<String> = Vec::new();
            let mut j: usize = 0;
            while j < dirs.len()
                invariant
                    src@ == source_root(self.root@, dir),
                    j <= dirs.len(),
                    cleanup.deep_view() == dirs.deep_view().subrange(0, j as int).map_values(
                        |d: Seq<char>| join_spec(source_root(self.root@, dir), d),
                    ),
                decreases dirs.len() - j,
            {
                let ghost before = cleanup.deep_view();
                let c = join(src.as_str(), dirs[j].as_str());
                assert(dirs[j as int]@ == dirs.deep_view()[j as int]);
                cleanup.push(c);
                assert(cleanup.deep_view() =~= before.push(c@));
                assert(cleanup.deep_view() =~= dirs.deep_view().subrange(0, j + 1).map_values(
                    |d: Seq<char>| join_spec(source_root(self.root@, dir), d),
                ));
                j = j + 1;
            }
            assert(dirs.deep_view().subrange(0, j as int) =~= dirs.deep_view());
            let fm = FileMove {
                file: f.clone(),
                from: join(src.as_str(), f.as_str()),
                to: join(dst.as_str(), f.as_str()),
                cleanup,
            };
            let ghost before = plan@.map_values(|m: FileMove| m@);
            assert(fm@ == want[i as int]);
            plan.push(fm);
            assert(plan@.map_values(|m: FileMove| m@) =~= before.push(fm@));
            assert(want.subrange(0, i + 1) =~= want.subrange(0, i as int).push(want[i as int]));
            i = i + 1;
        }
        assert(want.subrange(0, i as int) =~= want);
        Ok(plan)
    }

    /// Refuses a move before any file moves when one of its files is not in
    /// place; `present` tells, for each move of `plan`, whether its source
    /// exists. The error names the first such file.
    pub fn check_sources(&self, name: &str, plan: &Vec<FileMove>, present: &Vec<bool>) -> (r: Result<(), ModError>)
        requires
            plan.len() == present.len(),
        ensures
            (forall|i: int| 0 <= i < present.len() ==> present[i]) <==> r is Ok,
            match r {
                Ok(()) => true,
                Err(ModError::MissingFile { mod_name, path }) => {
                    &&& mod_name@ == name@
                    &&& exists|i: int|
                        0 <= i < present.len() && !present[i] && (forall|k: int| 0 <= k < i ==> present[k])
                            && path@ == plan@[i]@.file
                },
                Err(_) => false,
            },
    {
        let mut i: usize = 0;
        while i < present.len()
            invariant
                plan.len() == present.len(),
                i <= present.len(),
                forall|k: int| 0 <= k < i ==> present[k],
            decreases present.len() - i,
        {
            if !present[i] {
                return Err(ModError::MissingFile { mod_name: String::from_str(name), path: plan[i].file.clone() });
            }
            i = i + 1;
        }
        Ok(())
    }
}

impl ModRegistry {
    /// Records a fresh install of `name`, replacing an entry of that name: the
    /// mod is enabled as of `now` and owns `files`. Tells whether the mod was
    /// added or moved from another version.
    pub fn record_install(
        &mut self,
        name: String,
        version: String,
        file: String,
        dependencies: &Vec<String>,
        files: Vec<String>,
        now: Timestamp,
    ) -> (r: Operation)
        requires
            old(self).wf(),
        ensures
            final(self).wf(),
            final(self)@ == put(
                old(self)@,
                name@,
                installed_entry(version@, file@, dependencies.deep_view(), files.deep_view(), now),
            ),
            match find(old(self)@, name@) {
                Some(e) if e.version != version@ => match r {
                    Operation::Updated { old_version, new_version } => old_version@ == e.version
                        && new_version@ == version@,
                    _ => false,
                },
                _ => match r {
                    Operation::Added(v) => v@ == version@,
                    _ => false,
                },
            },
    {
        let previous: Option<String> = match self.get(name.as_str()) {
            Some(e) => Some(e.version.clone()),
            None => None,
        };
        let deps = if dependencies.len() == 0 {
            None
        } else {
            Some(clone_strings(dependencies))
        };
        let entry = ModEntry {
            version: version.clone(),
            file,
            installed: true,
            installed_at: Some(now),
            dependencies: deps,
            files,
        };
        assert(entry@ == installed_entry(version@, entry.file@, dependencies.deep_view(), entry.files.deep_view(), now));
        self.insert(name, entry);
        match previous {
            Some(p) => {
                if p != version {
                    Operation::Updated { old_version: p, new_version: version }
                } else {
                    Operation::Added(version)
                }
            },
            None => Operation::Added(version),
        }
    }

    /// Flips mod `name` to the state `dir` leads to, as of `now`, once its files
    /// have moved; refused when the mod is unknown or already there.
    pub fn move_entry(&mut self, name: &str, dir: Move, now: Timestamp) -> (r: Result<Operation, ModError>)
        requires
            old(self).wf(),
        ensures
            final(self).wf(),
            move_refused(old(self)@, name@, dir) <==> r is Err,
            match r {
                Ok(Operation::Move(back)) => back == opposite(dir) && final(self)@ == put(
                    old(self)@,
                    name@,
                    moved_entry(find(old(self)@, name@)->Some_0, dir, now),
                ),
                Ok(_) => false,
                Err(ModError::MissingMod(n)) => n@ == name@ && final(self)@ == old(self)@,
                Err(_) => false,
            },
    {
        let i = match self.index_of(name) {
            Some(i) => i,
            None => return Err(ModError::MissingMod(String::from_str(name))),
        };
        let installed = dir.installed();
        if self.mods[i].1.installed == installed {
            return Err(ModError::MissingMod(String::from_str(name)));
        }
        let ghost m = self@;
        let (key, mut entry) = self.mods.remove(i);
        entry.installed = installed;
        entry.installed_at = if installed {
            Some(now)
        } else {
            None
        };
        let ghost ev = entry@;
        self.mods.insert(i, (key, entry));
        proof {
            assert(self@ =~= m.update(i as int, (m[i as int].0, ev)));
            lemma_put_existing(m, i as int, ev);
        }
        Ok(Operation::Move(core::ops::Not::not(dir)))
    }
}

} // verus!
