use libvapor::handler::{ModError, ModHandler, Move, Operation};
use libvapor::registry::{ModEntry, ModRegistry};
use libvapor::report::status_block_text;
use libvapor::time::Timestamp;

fn entry(files: &[&str], deps: &[&str], installed: bool) -> ModEntry {
    ModEntry {
        version: "1.0".to_string(),
        file: "/tmp/mod.zip".to_string(),
        installed,
        installed_at: if installed { Some(Timestamp { secs: 1_700_000_000, nanos: 0 }) } else { None },
        dependencies: if deps.is_empty() {
            None
        } else {
            Some(deps.iter().map(|d| d.to_string()).collect())
        },
        files: files.iter().map(|f| f.to_string()).collect(),
    }
}

fn strings(v: &[&str]) -> Vec<String> {
    v.iter().map(|s| s.to_string()).collect()
}

fn names(reg: &ModRegistry) -> Vec<String> {
    reg.mods.iter().map(|(n, _)| n.clone()).collect()
}

const NOW: Timestamp = Timestamp { secs: 1_700_000_000, nanos: 0 };

#[test]
fn missing_dependency_is_reported_and_sets_the_outcome() {
    let mut reg = ModRegistry::new();
    reg.insert("ModA".to_string(), entry(&["archive/a.archive"], &["ModB"], true));
    assert_eq!(reg.satisfied_deps("ModA"), vec!["ModB".to_string()]);
    assert_eq!(reg.status_report().1, 1);
    assert_eq!(reg.status_text(NOW).1, 1);
}

#[test]
fn conflicting_install_names_owner_and_path() {
    let mut reg = ModRegistry::new();
    reg.insert("ModD".to_string(), entry(&["r6/script.lua"], &[], true));
    let handler = ModHandler::new("/games/cp".to_string());
    let incoming = strings(&["r6/script.lua"]);
    match handler.check_incoming(&reg, "ModC", &incoming) {
        Err(ModError::DoubleOwnedFiles { incoming, files, raw_splits }) => {
            assert_eq!(incoming, "ModC");
            assert_eq!(raw_splits, vec![("ModD".to_string(), "r6/script.lua".to_string())]);
            assert!(files.starts_with("ModD | "));
            assert!(files.contains("file:///games/cp/r6/script.lua"));
        }
        _ => panic!("expected a conflict"),
    }
    assert_eq!(names(&reg), vec!["ModD".to_string()]);
    assert_eq!(reg.get("ModD").unwrap().files, strings(&["r6/script.lua"]));
    assert!(reg.get("ModC").is_none());
}

#[test]
fn disjoint_mods_install_in_either_order() {
    let handler = ModHandler::new("/root".to_string());
    let fa = strings(&["r6/a.lua", "archive/a.archive"]);
    let fb = strings(&["r6/b.lua", "bin/b.dll"]);
    for order in [[("A", &fa), ("B", &fb)], [("B", &fb), ("A", &fa)]] {
        let mut reg = ModRegistry::new();
        for (name, files) in order {
            assert!(handler.check_incoming(&reg, name, files).is_ok());
            reg.record_install(name.to_string(), "1".to_string(), "x.zip".to_string(), &vec![], files.clone(), NOW);
        }
        assert_eq!(names(&reg), strings(&["A", "B"]));
    }
}

#[test]
fn overlapping_install_fails_and_leaves_registry_unchanged() {
    let mut reg = ModRegistry::new();
    reg.insert("Base".to_string(), entry(&["r6/x.lua", "r6/y.lua"], &[], true));
    reg.insert("Other".to_string(), entry(&["bin/z.dll"], &[], false));
    let handler = ModHandler::new("/root".to_string());
    let incoming = strings(&["r6/new.lua", "bin/z.dll", "r6/x.lua"]);
    let before: Vec<(String, Vec<String>, bool)> =
        reg.mods.iter().map(|(n, e)| (n.clone(), e.files.clone(), e.installed)).collect();
    match handler.check_incoming(&reg, "New", &incoming) {
        Err(ModError::DoubleOwnedFiles { raw_splits, .. }) => assert_eq!(
            raw_splits,
            vec![
                ("Other".to_string(), "bin/z.dll".to_string()),
                ("Base".to_string(), "r6/x.lua".to_string()),
            ]
        ),
        _ => panic!("expected a conflict"),
    }
    let after: Vec<(String, Vec<String>, bool)> =
        reg.mods.iter().map(|(n, e)| (n.clone(), e.files.clone(), e.installed)).collect();
    assert_eq!(before, after);
}

#[test]
fn reinstalling_under_same_name_is_no_conflict() {
    let mut reg = ModRegistry::new();
    reg.insert("A".to_string(), entry(&["r6/a.lua"], &[], true));
    let handler = ModHandler::new("/root".to_string());
    assert!(handler.check_incoming(&reg, "A", &strings(&["r6/a.lua"])).is_ok());
}

#[test]
fn crossover_lists_every_owner_in_order() {
    let mut reg = ModRegistry::new();
    reg.insert("Z".to_string(), entry(&["r6/a.lua"], &[], true));
    reg.insert("M".to_string(), entry(&["r6/a.lua", "r6/b.lua"], &[], true));
    reg.insert("Self".to_string(), entry(&["r6/b.lua"], &[], true));
    let got = reg.crossover_paths("Self", &strings(&["r6/b.lua", "r6/a.lua", "r6/c.lua"]));
    assert_eq!(
        got,
        vec![
            ("M".to_string(), "r6/b.lua".to_string()),
            ("M".to_string(), "r6/a.lua".to_string()),
            ("Z".to_string(), "r6/a.lua".to_string()),
        ]
    );
}

#[test]
fn install_reports_added_and_updated() {
    let mut reg = ModRegistry::new();
    let op = reg.record_install("A".into(), "1.0".into(), "a.zip".into(), &vec![], strings(&["r6/a"]), NOW);
    assert!(matches!(op, Operation::Added(v) if v == "1.0"));
    let e = reg.get("A").unwrap();
    assert!(e.installed);
    assert_eq!(e.installed_at, Some(NOW));
    assert!(e.dependencies.is_none());
    let op = reg.record_install("A".into(), "1.0".into(), "a.zip".into(), &vec![], strings(&["r6/a"]), NOW);
    assert!(matches!(op, Operation::Added(v) if v == "1.0"));
    let deps = strings(&["B"]);
    let op = reg.record_install("A".into(), "2.0".into(), "a2.zip".into(), &deps, strings(&["r6/a2"]), NOW);
    match op {
        Operation::Updated { old_version, new_version } => {
            assert_eq!(old_version, "1.0");
            assert_eq!(new_version, "2.0");
        }
        _ => panic!("expected an update"),
    }
    let e = reg.get("A").unwrap();
    assert_eq!(e.files, strings(&["r6/a2"]));
    assert_eq!(e.dependencies, Some(deps));
    assert_eq!(e.file, "a2.zip");
    assert_eq!(names(&reg), strings(&["A"]));
}

#[test]
fn registry_keeps_names_in_order() {
    let mut reg = ModRegistry::new();
    for n in ["delta", "Alpha", "charlie", "bravo", "alpha", "Ä"] {
        reg.insert(n.to_string(), entry(&[], &[], true));
    }
    let mut expected = strings(&["delta", "Alpha", "charlie", "bravo", "alpha", "Ä"]);
    expected.sort();
    assert_eq!(names(&reg), expected);
    assert!(reg.contains_key("bravo"));
    assert!(!reg.contains_key("echo"));
}

#[test]
fn satisfied_deps_in_declared_order() {
    let mut reg = ModRegistry::new();
    reg.insert("A".to_string(), entry(&[], &["X", "B", "W", "C"], true));
    reg.insert("B".to_string(), entry(&[], &[], true));
    reg.insert("C".to_string(), entry(&[], &[], false));
    assert_eq!(reg.satisfied_deps("A"), strings(&["X", "W"]));
    assert!(reg.satisfied_deps("B").is_empty());
    assert!(reg.satisfied_deps("Nope").is_empty());
    reg.insert("X".to_string(), entry(&[], &[], true));
    reg.insert("W".to_string(), entry(&[], &[], true));
    assert!(reg.satisfied_deps("A").is_empty());
}

#[test]
fn status_outcome_is_zero_when_all_satisfied() {
    let mut reg = ModRegistry::new();
    reg.insert("A".to_string(), entry(&[], &["B"], true));
    reg.insert("B".to_string(), entry(&[], &[], false));
    let (statuses, code) = reg.status_report();
    assert_eq!(code, 0);
    assert_eq!(statuses.len(), 2);
    assert_eq!(statuses[0].name, "A");
    assert_eq!(statuses[0].dependencies, strings(&["B"]));
    assert!(statuses[0].missing_dependencies.is_empty());
    assert!(!statuses[1].enabled);
    assert_eq!(ModRegistry::new().status_report().1, 0);
}

#[test]
fn status_report_splits_dependencies() {
    let mut reg = ModRegistry::new();
    reg.insert("A".to_string(), entry(&[], &["B", "Q"], true));
    reg.insert("B".to_string(), entry(&[], &[], true));
    let (statuses, code) = reg.status_report();
    assert_eq!(code, 1);
    assert_eq!(statuses[0].missing_dependencies, strings(&["Q"]));
    assert_eq!(statuses[0].dependencies, strings(&["B"]));
    assert_eq!(statuses[0].version, "1.0");
    assert_eq!(statuses[0].installed_at, Some(NOW));
}

#[test]
fn status_text_renders_each_mod() {
    let mut reg = ModRegistry::new();
    let mut a = entry(&[], &["B", "Q"], true);
    a.installed_at = Some(Timestamp { secs: NOW.secs - 3 * 86_400, nanos: 0 });
    reg.insert("A".to_string(), a);
    reg.insert("B".to_string(), entry(&[], &[], false));
    let (text, code) = reg.status_text(NOW);
    assert_eq!(code, 1);
    let expected = "\x1b[1m*\x1b[0m \x1b[1m\x1b[33mName\x1b[0m: `A`\n  - Enabled: \x1b[32mtrue\x1b[0m\n  - Version: \x1b[36m1.0\x1b[0m\n  - Installed: 3 days ago\n  - Missing dependencies:\n      > `\x1b[31mQ\x1b[0m`\n  - Dependencies:\n      > `B`\n\x1b[1m*\x1b[0m \x1b[1m\x1b[33mName\x1b[0m: `B`\n  - Enabled: \x1b[31mfalse\x1b[0m\n  - Version: \x1b[36m1.0\x1b[0m\n";
    assert_eq!(text, expected);
}

#[test]
fn status_text_tells_future_and_present() {
    let mut reg = ModRegistry::new();
    let mut a = entry(&[], &[], true);
    a.installed_at = Some(Timestamp { secs: NOW.secs + 2 * 3600, nanos: 0 });
    reg.insert("A".to_string(), a);
    let mut b = entry(&[], &[], true);
    b.installed_at = Some(Timestamp { secs: NOW.secs - 1, nanos: 500_000_000 });
    reg.insert("B".to_string(), b);
    let (text, _) = reg.status_text(NOW);
    assert!(text.contains("  - Installed: in 2 hours\n"));
    assert!(text.contains("  - Installed: now\n"));
}

#[test]
fn installed_names_lists_enabled_mods() {
    let mut reg = ModRegistry::new();
    reg.insert("b".to_string(), entry(&[], &[], true));
    reg.insert("a".to_string(), entry(&[], &[], false));
    reg.insert("c".to_string(), entry(&[], &[], true));
    assert_eq!(reg.installed_names(), strings(&["b", "c"]));
}

#[test]
fn move_enable_then_disable_restores_paths() {
    let mut reg = ModRegistry::new();
    reg.insert("M".to_string(), entry(&["r6/scripts/m/x.lua", "archive/pc/mod/m.archive"], &[], false));
    let handler = ModHandler::new("/g".to_string());
    let there = handler.move_plan(&reg, "M", Move::Enable).ok().unwrap();
    assert_eq!(there[0].from, "/g/Disabled Mods/r6/scripts/m/x.lua");
    assert_eq!(there[0].to, "/g/r6/scripts/m/x.lua");
    assert_eq!(there[0].cleanup, strings(&["/g/Disabled Mods/r6/scripts/m", "/g/Disabled Mods/r6/scripts"]));
    assert_eq!(there[1].cleanup, strings(&["/g/Disabled Mods/archive/pc/mod", "/g/Disabled Mods/archive/pc"]));
    match reg.move_entry("M", Move::Enable, NOW) {
        Ok(Operation::Move(back)) => assert_eq!(back, Move::Disable),
        _ => panic!("expected a move"),
    }
    assert!(reg.get("M").unwrap().installed);
    assert_eq!(reg.get("M").unwrap().installed_at, Some(NOW));
    let back = handler.move_plan(&reg, "M", Move::Disable).ok().unwrap();
    assert_eq!(back.len(), there.len());
    for (b, t) in back.iter().zip(there.iter()) {
        assert_eq!(b.from, t.to);
        assert_eq!(b.to, t.from);
        assert_eq!(b.file, t.file);
    }
    assert!(reg.move_entry("M", Move::Disable, NOW).is_ok());
    let e = reg.get("M").unwrap();
    assert!(!e.installed);
    assert_eq!(e.installed_at, None);
    assert_eq!(e.files, strings(&["r6/scripts/m/x.lua", "archive/pc/mod/m.archive"]));
}

#[test]
fn move_refuses_unknown_or_same_state() {
    let mut reg = ModRegistry::new();
    reg.insert("On".to_string(), entry(&["r6/a"], &[], true));
    let handler = ModHandler::new("/g".to_string());
    assert!(matches!(reg.move_entry("Nope", Move::Enable, NOW), Err(ModError::MissingMod(n)) if n == "Nope"));
    assert!(matches!(reg.move_entry("On", Move::Enable, NOW), Err(ModError::MissingMod(n)) if n == "On"));
    assert!(matches!(handler.move_plan(&reg, "On", Move::Enable), Err(ModError::MissingMod(n)) if n == "On"));
    assert!(matches!(handler.move_plan(&reg, "Nope", Move::Disable), Err(ModError::MissingMod(_))));
    assert!(reg.get("On").unwrap().installed);
}

#[test]
fn check_sources_names_first_missing_file() {
    let mut reg = ModRegistry::new();
    reg.insert("M".to_string(), entry(&["r6/a", "r6/b", "r6/c"], &[], true));
    let handler = ModHandler::new("/g".to_string());
    let plan = handler.move_plan(&reg, "M", Move::Disable).ok().unwrap();
    assert!(handler.check_sources("M", &plan, &vec![true, true, true]).is_ok());
    match handler.check_sources("M", &plan, &vec![true, false, false]) {
        Err(ModError::MissingFile { mod_name, path }) => {
            assert_eq!(mod_name, "M");
            assert_eq!(path, "r6/b");
        }
        _ => panic!("expected a missing file"),
    }
}

#[test]
fn extraction_check_lists_absent_files() {
    let handler = ModHandler::new("/g".to_string());
    let files = strings(&["r6/a", "r6/b", "bin/c"]);
    assert!(handler.missing_after_extract(&files, &vec![true, true, true]).is_ok());
    match handler.missing_after_extract(&files, &vec![false, true, false]) {
        Err(ModError::ExtractionIncomplete { files, raw_splits }) => {
            assert_eq!(raw_splits, strings(&["/g/r6/a", "/g/bin/c"]));
            assert_eq!(
                files,
                "\x1b]8;;file:///g/r6/a\x1b\\r6/a\x1b]8;;\x1b\\\n\x1b]8;;file:///g/bin/c\x1b\\bin/c\x1b]8;;\x1b\\"
            );
        }
        _ => panic!("expected incomplete extraction"),
    }
}

#[test]
fn move_direction_and_flag() {
    assert!(Move::Enable.installed());
    assert!(!Move::Disable.installed());
    assert_eq!(!Move::Enable, Move::Disable);
    assert_eq!(!Move::Disable, Move::Enable);
}

#[test]
fn handler_paths() {
    let h = ModHandler::new("/games/cp/".to_string());
    assert_eq!(h.root, "/games/cp/");
    assert_eq!(h.toml, "/games/cp/mods.toml");
    let h = ModHandler::new("/games/cp".to_string());
    assert_eq!(h.toml, "/games/cp/mods.toml");
    assert_eq!(h.term_link("r6/a.lua"), "\x1b]8;;file:///games/cp/r6/a.lua\x1b\\r6/a.lua\x1b]8;;\x1b\\");
}

#[test]
fn status_block_uses_given_phrase() {
    let mut reg = ModRegistry::new();
    reg.insert("A".to_string(), entry(&[], &[], true));
    let (statuses, _) = reg.status_report();
    let with = status_block_text(&statuses[0], Some("yesterday"));
    assert!(with.contains("  - Installed: yesterday\n"));
    let without = status_block_text(&statuses[0], None);
    assert!(!without.contains("Installed"));
    assert!(without.ends_with("  - Version: \x1b[36m1.0\x1b[0m\n"));
}
