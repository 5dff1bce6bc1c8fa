use std::collections::HashMap;

use singboard::runtime_scan::{
    detected_runtime_files, is_config_file, is_singbox_binary, read_dir_failure, EntryKind,
    RuntimeScan, ScanAction, ScanEntry, MAX_SCAN_DEPTH,
};

#[test]
fn singbox_names() {
    assert!(is_singbox_binary("sing-box"));
    assert!(is_singbox_binary("SING-BOX.EXE"));
    assert!(is_singbox_binary("SingBox"));
    assert!(is_singbox_binary("singbox.exe"));
    assert!(!is_singbox_binary("sing-box.zip"));
    assert!(!is_singbox_binary("sing_box"));
    assert!(is_config_file("Config.JSON"));
    assert!(!is_config_file("config.jsonc"));
}

/// A directory tree: path -> (name, kind) children, unsorted.
fn tree(items: &[(&str, EntryKind)]) -> HashMap<String, Vec<(String, EntryKind)>> {
    let mut t: HashMap<String, Vec<(String, EntryKind)>> = HashMap::new();
    t.insert("base".to_string(), vec![]);
    for (path, kind) in items {
        let (dir, name) = path.rsplit_once('/').unwrap();
        t.entry(dir.to_string()).or_default().push((name.to_string(), *kind));
        if *kind == EntryKind::Dir {
            t.entry(path.to_string()).or_default();
        }
    }
    t
}

fn entry(path: &str, name: Option<&str>, kind: EntryKind) -> ScanEntry<String> {
    let file = path.rsplit('/').next().unwrap();
    ScanEntry { path: path.to_string(), name: name.map(String::from), key: file.as_bytes().to_vec(), kind }
}

/// Runs a walk over a tree; gives what was found and the directories read.
fn walk(t: &HashMap<String, Vec<(String, EntryKind)>>) -> (Option<String>, Option<String>, Vec<String>) {
    let (mut scan, mut action) = RuntimeScan::begin("base".to_string());
    let mut reads = Vec::new();
    loop {
        match action {
            ScanAction::Done => break,
            ScanAction::ReadDir(dir, depth) => {
                reads.push(dir.clone());
                let kids = t.get(&dir).cloned().unwrap_or_default();
                let entries = kids
                    .into_iter()
                    .map(|(name, kind)| entry(&format!("{}/{}", dir, name), Some(&name), kind))
                    .collect();
                action = scan.entered(depth, entries);
            }
        }
    }
    let (s, c) = scan.finish();
    (s, c, reads)
}

#[test]
fn finds_both_in_sorted_depth_first_order() {
    let t = tree(&[
        ("base/b", EntryKind::Dir),
        ("base/b/config.json", EntryKind::File),
        ("base/a", EntryKind::Dir),
        ("base/a/sing-box", EntryKind::File),
        ("base/config.json", EntryKind::File),
        ("base/sing-box.exe", EntryKind::File),
    ]);
    let (s, c, reads) = walk(&t);
    assert_eq!(s, Some("base/a/sing-box".to_string()));
    assert_eq!(c, Some("base/b/config.json".to_string()));
    assert_eq!(reads, vec!["base".to_string(), "base/a".to_string(), "base/b".to_string()]);
}

#[test]
fn stops_reading_once_both_found() {
    let t = tree(&[
        ("base/config.json", EntryKind::File),
        ("base/sing-box", EntryKind::File),
        ("base/z", EntryKind::Dir),
        ("base/z/other", EntryKind::File),
    ]);
    let (s, c, reads) = walk(&t);
    assert_eq!(s, Some("base/sing-box".to_string()));
    assert_eq!(c, Some("base/config.json".to_string()));
    assert_eq!(reads, vec!["base".to_string()]);
}

#[test]
fn does_not_read_below_the_depth_limit() {
    let mut items: Vec<(String, EntryKind)> = Vec::new();
    let mut p = "base".to_string();
    for i in 0..10 {
        p = format!("{}/d{}", p, i);
        items.push((p.clone(), EntryKind::Dir));
    }
    items.push((format!("{}/config.json", p), EntryKind::File));
    let refs: Vec<(&str, EntryKind)> = items.iter().map(|(a, b)| (a.as_str(), *b)).collect();
    let t = tree(&refs);
    let (s, c, reads) = walk(&t);
    assert_eq!(s, None);
    assert_eq!(c, None);
    assert_eq!(reads.len(), MAX_SCAN_DEPTH + 1);
}

#[test]
fn other_entries_and_unnamed_files_are_passed_over() {
    let (mut scan, _) = RuntimeScan::begin("base".to_string());
    let entries = vec![
        entry("base/config.json", Some("config.json"), EntryKind::Other),
        entry("base/x", None, EntryKind::File),
        entry("base/SING-BOX", Some("SING-BOX"), EntryKind::File),
    ];
    assert!(matches!(scan.entered(0, entries), ScanAction::Done));
    assert_eq!(scan.finish(), (Some("base/SING-BOX".to_string()), None));
}

#[test]
fn entries_are_visited_in_byte_order_of_their_names() {
    let (mut scan, _) = RuntimeScan::begin("base".to_string());
    let entries = vec![
        entry("base/sing-box", Some("sing-box"), EntryKind::File),
        entry("base/b", Some("b"), EntryKind::Dir),
        entry("base/Sing-Box", Some("Sing-Box"), EntryKind::File),
        entry("base/a", Some("a"), EntryKind::Dir),
    ];
    match scan.entered(0, entries) {
        ScanAction::ReadDir(dir, depth) => {
            assert_eq!(dir, "base/a");
            assert_eq!(depth, 1);
        }
        ScanAction::Done => panic!("the walk should read base/a"),
    }
    assert!(matches!(scan.entered(1, vec![]), ScanAction::ReadDir(ref d, 1) if d == "base/b"));
    let last = scan.entered(1, vec![entry("base/b/CONFIG.json", Some("CONFIG.json"), EntryKind::File)]);
    assert!(matches!(last, ScanAction::Done));
    assert_eq!(scan.finish(), (Some("base/Sing-Box".to_string()), Some("base/b/CONFIG.json".to_string())));
}

#[test]
fn report_of_a_walk() {
    let r = detected_runtime_files("/w".to_string(), Some("/w/sing-box".to_string()), None);
    assert!(!r.found);
    let r = detected_runtime_files("/w".to_string(), Some("/w/sing-box".to_string()), Some("/w/config.json".to_string()));
    assert!(r.found);
    assert_eq!(r.base_dir, "/w");
    assert_eq!(read_dir_failure("/w/x", "denied"), "Failed to read directory /w/x: denied");
}

#[test]
fn a_directory_that_leads_back_to_itself_still_ends() {
    // Every directory holds a link back to itself: the walk reads the base
    // and then one level at a time down to the depth limit, and stops.
    let (mut scan, mut action) = RuntimeScan::begin("base".to_string());
    let mut reads = 0;
    loop {
        match action {
            ScanAction::Done => break,
            ScanAction::ReadDir(dir, depth) => {
                reads += 1;
                assert!(reads <= MAX_SCAN_DEPTH + 1);
                let entries = vec![entry(&format!("{}/self", dir), Some("self"), EntryKind::Dir)];
                action = scan.entered(depth, entries);
            }
        }
    }
    assert_eq!(reads, MAX_SCAN_DEPTH + 1);
    assert_eq!(scan.finish(), (None, None));
}
