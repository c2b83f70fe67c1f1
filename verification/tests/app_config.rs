use md_preview::app_config::{common_ancestor, owned_stdin_dir, plan_paths, AppConfig, PathArg};
use md_preview::page::{page_script_names, PageAssets};
use md_preview::theme::Appearance;

fn paths(list: &[&str]) -> Vec<String> {
    list.iter().map(|s| s.to_string()).collect()
}

fn file(arg: &str, path: &str) -> PathArg {
    PathArg { arg: arg.to_string(), resolved: Ok((path.to_string(), false)) }
}

fn dir(arg: &str, path: &str) -> PathArg {
    PathArg { arg: arg.to_string(), resolved: Ok((path.to_string(), true)) }
}

fn assets() -> PageAssets {
    PageAssets::new(String::new(), vec![String::new(); page_script_names().len()]).unwrap()
}

#[test]
fn common_ancestor_is_the_deepest_shared_dir() {
    assert_eq!(common_ancestor(&paths(&["/a/b/x.md", "/a/b/y.md"])), Some("/a/b".to_string()));
    assert_eq!(common_ancestor(&paths(&["/a/b/x.md", "/a/c/d/y.md"])), Some("/a".to_string()));
    assert_eq!(common_ancestor(&paths(&["/a/b/c/x.md", "/a/y.md"])), Some("/a".to_string()));
    assert_eq!(common_ancestor(&paths(&["/a/x.md", "/b/y.md"])), Some("/".to_string()));
    assert_eq!(common_ancestor(&paths(&["/a/b/x.md"])), Some("/a/b".to_string()));
}

#[test]
fn common_ancestor_of_nothing_is_none() {
    assert_eq!(common_ancestor(&[]), None);
}

#[test]
fn files_root_prefers_cwd_and_falls_back_to_the_shared_parent() {
    let cwd = Some("/work");
    let (root, ids) = plan_paths(&[file("docs/a.md", "/work/docs/a.md")], cwd).unwrap();
    assert_eq!(root, "/work");
    assert_eq!(ids, vec!["/work/docs/a.md"]);
    let (root, _) = plan_paths(&[file("/other/a.md", "/other/a.md")], cwd).unwrap();
    assert_eq!(root, "/other");
    let (root, ids) =
        plan_paths(&[file("a", "/work/docs/a.md"), file("b", "/work/lib/b.md")], None).unwrap();
    assert_eq!(root, "/work");
    assert_eq!(ids, vec!["/work/docs/a.md", "/work/lib/b.md"]);
}

#[test]
fn a_root_that_would_be_the_filesystem_root_is_refused() {
    let err = plan_paths(&[file("a", "/a/x.md"), file("b", "/b/y.md")], Some("/work")).unwrap_err();
    assert!(err.starts_with("md: root がファイルシステムの根"), "{err}");
}

#[test]
fn a_single_directory_is_the_root_without_tabs() {
    let (root, ids) = plan_paths(&[dir("docs", "/work/docs")], Some("/work")).unwrap();
    assert_eq!(root, "/work/docs");
    assert!(ids.is_empty());
}

#[test]
fn a_directory_among_several_paths_is_refused() {
    let err = plan_paths(&[file("a.md", "/w/a.md"), dir("docs", "/w/docs")], Some("/w")).unwrap_err();
    assert_eq!(err, "md: 複数指定できるのはファイルだけです（'docs' はフォルダ）");
}

#[test]
fn an_unreadable_argument_is_reported_first() {
    let bad = PathArg { arg: "nope.md".to_string(), resolved: Err("No such file".to_string()) };
    let err = plan_paths(&[bad, dir("docs", "/w/docs")], Some("/w")).unwrap_err();
    assert_eq!(err, "md: 'nope.md' を開けませんでした: No such file");
}

#[test]
fn the_same_file_twice_is_one_tab() {
    let (_, ids) = plan_paths(&[file("a.md", "/w/a.md"), file("./a.md", "/w/a.md")], Some("/w")).unwrap();
    assert_eq!(ids, vec!["/w/a.md"]);
}

#[test]
fn only_our_own_spool_dir_is_ever_deleted() {
    let tmp = "/tmp";
    assert_eq!(owned_stdin_dir("/tmp/md-stdin-42/stdin.md", tmp), Some("/tmp/md-stdin-42".to_string()));
    assert_eq!(owned_stdin_dir("/tmp/stdin.md", tmp), None);
    assert_eq!(owned_stdin_dir("/tmp/other/stdin.md", tmp), None);
    assert_eq!(owned_stdin_dir("/etc/hosts", tmp), None);
    // The directory itself does not pass: the check looks at the parent of what it is given.
    assert_eq!(owned_stdin_dir("/tmp/md-stdin-42", tmp), None);
}

#[test]
fn stdin_opens_the_spooled_file_as_an_out_of_root_tab() {
    let doc = "/tmp/md-stdin-test/stdin.md";
    let config = AppConfig::from_stdin(doc, "/* theme */", "/* custom */", Some("/work"), "/tmp", "/tmp", "N", &assets());
    assert_eq!(config.root_dir, "/work");
    assert_eq!(config.title, "work");
    assert_eq!(config.stdin_dir, Some("/tmp/md-stdin-test".to_string()));
    let html = String::from_utf8(config.html_bytes).unwrap();
    assert!(html.contains(&format!(r#"var INITIAL_FILES = ["{}"];"#, doc)), "{html}");
}

#[test]
fn stdin_root_never_becomes_the_filesystem_root() {
    let doc = "/tmp/md-stdin-slash/stdin.md";
    let config = AppConfig::from_stdin(doc, "", "", Some("/"), "/tmp", "/tmp", "N", &assets());
    assert_eq!(config.root_dir, "/tmp/md-stdin-slash");
    let config = AppConfig::from_stdin(doc, "", "", None, "/tmp", "/tmp", "N", &assets());
    assert_eq!(config.root_dir, "/tmp/md-stdin-slash");
}

#[test]
fn page_globals_carry_the_appearance_and_the_root() {
    let config = AppConfig::from_paths(&[dir("p", "/proj")], "", "", None, "N", &assets()).ok().unwrap();
    assert_eq!(config.title, "proj");
    assert_eq!(
        config.page_globals(Appearance::Dark),
        r#"window.MD_APPEARANCE = "dark"; window.MD_RENDERABLE_EXT = ["md","markdown","html","htm"]; window.MD_ROOT_DIR = "/proj"; window.MD_STDIN_PREFIX = "md-stdin-";"#
    );
}

#[test]
fn the_gate_takes_the_file_not_the_directory() {
    let tmp = "/tmp";
    let doc = "/tmp/md-stdin-42/stdin.md";
    let dir = owned_stdin_dir(doc, tmp).expect("a spool file passes");
    // The directory it hands back, passed through again, is refused: its parent is the
    // temporary directory itself.
    assert_eq!(owned_stdin_dir(&dir, tmp), None);
}
