use libvapor::archive::file_entries;
use libvapor::graph::TreeEvent;
use libvapor::paths::{cleanup_dirs, is_protected_root_segment, join, root_dir_common_filter};
use libvapor::names::name_lt;
use libvapor::registry::{ModEntry, ModRegistry};

fn entry(deps: &[&str], version: &str) -> ModEntry {
    ModEntry {
        version: version.to_string(),
        file: "m.zip".to_string(),
        installed: true,
        installed_at: None,
        dependencies: if deps.is_empty() {
            None
        } else {
            Some(deps.iter().map(|d| d.to_string()).collect())
        },
        files: vec![],
    }
}

fn labels(events: &[TreeEvent]) -> Vec<String> {
    events
        .iter()
        .map(|e| match e {
            TreeEvent::Begin(l) => format!("+{l}"),
            TreeEvent::End => "-".to_string(),
        })
        .collect()
}

fn found(name: &str, version: &str) -> String {
    format!("+\x1b[1m\x1b[32m\u{2714}\x1b[0m \x1b[1m{name}\x1b[0m v{version}")
}

#[test]
fn graph_of_a_cycle_expands_each_name_once() {
    let mut reg = ModRegistry::new();
    reg.insert("A".to_string(), entry(&["B"], "1"));
    reg.insert("B".to_string(), entry(&["A"], "2"));
    let trees = reg.graph_trees();
    assert_eq!(trees.len(), 2);
    assert_eq!(trees[0].0, "* \x1b[1mA\x1b[0m v1");
    assert_eq!(labels(&trees[0].1), vec![found("B", "2"), found("A", "1"), "-".to_string(), "-".to_string()]);
    assert_eq!(trees[1].0, "* \x1b[1mB\x1b[0m v2");
    assert_eq!(labels(&trees[1].1), vec![found("A", "1"), found("B", "2"), "-".to_string(), "-".to_string()]);
}

#[test]
fn graph_marks_missing_and_shares_diamonds() {
    let mut reg = ModRegistry::new();
    reg.insert("A".to_string(), entry(&["B", "C", "Z"], "1"));
    reg.insert("B".to_string(), entry(&["D"], "1"));
    reg.insert("C".to_string(), entry(&["D"], "1"));
    reg.insert("D".to_string(), entry(&["E"], "1"));
    reg.insert("E".to_string(), entry(&[], "1"));
    let trees = reg.graph_trees();
    let lacking = "+\x1b[1m\x1b[31m\u{2718}\x1b[0m \x1b[1mZ\x1b[0m".to_string();
    let end = "-".to_string();
    assert_eq!(
        labels(&trees[0].1),
        vec![
            found("B", "1"),
            found("D", "1"),
            found("E", "1"),
            end.clone(),
            end.clone(),
            end.clone(),
            found("C", "1"),
            found("D", "1"),
            end.clone(),
            end.clone(),
            lacking,
            end.clone(),
        ]
    );
    assert!(trees[4].1.is_empty());
}

#[test]
fn file_entries_skip_directories() {
    let listing: Vec<String> = ["r6/", "r6/scripts/", "r6/scripts/a.reds", "archive/pc/mod/x.archive", ""]
        .iter()
        .map(|s| s.to_string())
        .collect();
    assert_eq!(
        file_entries(&listing),
        vec!["r6/scripts/a.reds".to_string(), "archive/pc/mod/x.archive".to_string(), String::new()]
    );
}

#[test]
fn cleanup_stops_at_protected_and_top() {
    assert_eq!(cleanup_dirs("r6/scripts/mod/x.reds"), vec!["r6/scripts/mod".to_string(), "r6/scripts".to_string()]);
    assert_eq!(cleanup_dirs("r6/x.reds"), Vec::<String>::new());
    assert_eq!(cleanup_dirs("x.reds"), Vec::<String>::new());
    assert_eq!(cleanup_dirs("mods/bin/tool/x"), vec!["mods/bin/tool".to_string()]);
    assert_eq!(cleanup_dirs("other/a/x"), vec!["other/a".to_string(), "other".to_string()]);
}

#[test]
fn protected_segments_and_filter() {
    for s in ["r6", "archive", "bin", "red4ext", "engine"] {
        assert!(is_protected_root_segment(s));
    }
    assert!(!is_protected_root_segment("R6"));
    assert!(!is_protected_root_segment("r6x"));
    assert!(!is_protected_root_segment(""));
    assert!(root_dir_common_filter("r6/scripts/a.reds"));
    assert!(root_dir_common_filter("engine"));
    assert!(!root_dir_common_filter("Wrapper/r6/a"));
    assert!(!root_dir_common_filter("/r6/a"));
    assert!(!root_dir_common_filter("./r6/a"));
}

#[test]
fn join_places_one_separator() {
    assert_eq!(join("/a", "b/c"), "/a/b/c");
    assert_eq!(join("/a/", "b"), "/a/b");
    assert_eq!(join("", "b"), "b");
    assert_eq!(join("/g", "Disabled Mods"), "/g/Disabled Mods");
}

#[test]
fn names_order_like_strings() {
    let words = ["", "a", "A", "ab", "b", "Ä", "é", "z", "aa"];
    for x in words {
        for y in words {
            assert_eq!(name_lt(x, y), x.to_string() < y.to_string(), "{x} {y}");
        }
    }
}
