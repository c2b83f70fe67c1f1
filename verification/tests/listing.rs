use md_preview::listing::{
    changed_json, diffstat_json, files_json, has_md_json, is_skipped_dir, list_dir_json, DirEntry, FileWalk, Truncation,
    FILE_LIST_MAX_DEPTH,
};
use std::collections::HashMap;

fn file(name: &str) -> DirEntry {
    DirEntry { name: name.to_string(), is_dir: false }
}

fn dir(name: &str) -> DirEntry {
    DirEntry { name: name.to_string(), is_dir: true }
}

/// Runs a walk over an in-memory tree: directory (relative path) -> entries.
fn walk(tree: &HashMap<String, Vec<DirEntry>>) -> (Vec<String>, Option<Truncation>) {
    let mut w = FileWalk::new();
    while let Some(rel) = w.next_dir() {
        let entries = tree.get(&rel).map(|v| v.as_slice());
        w.add_listing(entries);
    }
    (w.files().clone(), w.finished().unwrap())
}

fn entries(v: Vec<DirEntry>) -> Vec<DirEntry> {
    v
}

#[test]
fn file_list_is_recursive_shallow_first_and_skips_heavy_dirs() {
    let mut tree: HashMap<String, Vec<DirEntry>> = HashMap::new();
    tree.insert(
        String::new(),
        entries(vec![file("b.md"), dir("sub"), dir("node_modules"), dir(".git"), dir(".github"), file("a.md")]),
    );
    tree.insert("sub".to_string(), entries(vec![dir("deep"), file("c.txt")]));
    tree.insert("sub/deep".to_string(), entries(vec![file("d.md")]));
    tree.insert("node_modules".to_string(), entries(vec![dir("pkg")]));
    tree.insert(".git".to_string(), entries(vec![dir("objects")]));
    tree.insert(".github".to_string(), entries(vec![file("ci.yml")]));
    let (out, trunc) = walk(&tree);
    assert_eq!(trunc, None);
    assert_eq!(out, vec!["a.md", "b.md", ".github/ci.yml", "sub/c.txt", "sub/deep/d.md"]);

    let body = String::from_utf8(files_json(&out, trunc)).unwrap();
    assert!(body.starts_with(r#"{"files":["#), "{body}");
    assert!(body.contains(r#""truncated":false"#), "{body}");
    assert!(body.contains(r#""sub/deep/d.md""#), "{body}");
}

#[test]
fn file_list_reports_depth_truncation_with_matching_limit() {
    let mut tree: HashMap<String, Vec<DirEntry>> = HashMap::new();
    tree.insert(String::new(), entries(vec![file("top.md"), dir("d0")]));
    let mut rel = "d0".to_string();
    for i in 1..(FILE_LIST_MAX_DEPTH + 2) {
        tree.insert(rel.clone(), entries(vec![dir(&format!("d{i}"))]));
        rel = format!("{rel}/d{i}");
    }
    tree.insert(rel, entries(vec![file("buried.md")]));
    let (out, trunc) = walk(&tree);
    assert_eq!(trunc, Some(Truncation::Depth));
    assert_eq!(out, vec!["top.md"]);
    let body = String::from_utf8(files_json(&out, trunc)).unwrap();
    assert!(body.contains(r#""truncated":true"#), "{body}");
    assert!(body.contains(r#""reason":"depth""#), "{body}");
    assert!(body.contains(&format!(r#""limit":{}"#, FILE_LIST_MAX_DEPTH)), "{body}");
}

#[test]
fn file_list_does_not_report_denylisted_dirs_as_truncation() {
    let mut tree: HashMap<String, Vec<DirEntry>> = HashMap::new();
    tree.insert(String::new(), entries(vec![dir("node_modules"), file("a.md")]));
    tree.insert("node_modules".to_string(), entries(vec![file("index.js")]));
    let (out, trunc) = walk(&tree);
    assert_eq!(trunc, None);
    assert_eq!(out, vec!["a.md"]);
}

#[test]
fn the_file_cap_stops_the_walk() {
    let mut tree: HashMap<String, Vec<DirEntry>> = HashMap::new();
    let names: Vec<DirEntry> = (0..20_001).map(|i| file(&format!("f{i:05}.md"))).collect();
    tree.insert(String::new(), names);
    let (out, trunc) = walk(&tree);
    assert_eq!(trunc, Some(Truncation::Files));
    assert_eq!(out.len(), 20_000);
    assert_eq!(out[0], "f00000.md");
}

#[test]
fn unreadable_directories_are_passed_over() {
    let mut tree: HashMap<String, Vec<DirEntry>> = HashMap::new();
    tree.insert(String::new(), entries(vec![dir("locked"), file("a.md")]));
    let (out, trunc) = walk(&tree);
    assert_eq!(trunc, None);
    assert_eq!(out, vec!["a.md"]);
}

#[test]
fn skipped_dirs_are_the_heavy_ones() {
    assert!(is_skipped_dir(".git"));
    assert!(is_skipped_dir("node_modules"));
    assert!(is_skipped_dir("Pods"));
    assert!(!is_skipped_dir(".github"));
    assert!(!is_skipped_dir("src"));
}

#[test]
fn dir_listing_puts_dirs_first_in_name_order() {
    let es = vec![file("b.md"), dir("z"), file("a.md"), dir("y")];
    let body = String::from_utf8(list_dir_json("/r/docs", "/r", &es)).unwrap();
    assert_eq!(
        body,
        r#"[{"name":"y","path":"docs/y","kind":"dir"},{"name":"z","path":"docs/z","kind":"dir"},{"name":"a.md","path":"docs/a.md","kind":"file"},{"name":"b.md","path":"docs/b.md","kind":"file"}]"#
    );
    assert_eq!(String::from_utf8(list_dir_json("/r", "/r", &[])).unwrap(), "[]");
}

#[test]
fn small_answers() {
    assert_eq!(String::from_utf8(has_md_json(true)).unwrap(), r#"{"has_md":true}"#);
    assert_eq!(String::from_utf8(diffstat_json(3, 0)).unwrap(), r#"{"add":3,"del":0}"#);
    assert_eq!(
        String::from_utf8(changed_json(&[("a.md".to_string(), 1, 2), ("b/c.md".to_string(), 0, 5)])).unwrap(),
        r#"{"changed":[{"path":"a.md","add":1,"del":2},{"path":"b/c.md","add":0,"del":5}]}"#
    );
    assert_eq!(String::from_utf8(changed_json(&[])).unwrap(), r#"{"changed":[]}"#);
}
