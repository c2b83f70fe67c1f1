use md_preview::urlpath::{asset_url, display_id, encode_path, file_id, percent_decode, DocBase};
use md_preview::paths::normalize;

#[test]
fn relative_src_resolves_against_the_document_not_the_root() {
    let b = DocBase::new("/proj/docs", "/proj");
    assert_eq!(b.resolve_url("fig.png").unwrap(), "/docs/fig.png");
    assert_eq!(b.resolve_url("./fig.png").unwrap(), "/docs/fig.png");
    assert_eq!(b.resolve_url("../fig.png").unwrap(), "/fig.png");
    assert_eq!(b.resolve_url("sub/fig.png").unwrap(), "/docs/sub/fig.png");
}

#[test]
fn out_of_root_gets_the_abs_prefix() {
    let b = DocBase::new("/proj/docs", "/proj");
    assert_eq!(b.resolve_url("../../assets/fig.png").unwrap(), "/__abs/assets/fig.png");
}

#[test]
fn absolute_and_scheme_urls_are_left_alone() {
    let b = DocBase::new("/proj/docs", "/proj");
    for url in ["https://example.com/a.png", "mailto:a@b.c", "data:image/png;base64,AA", "#sec", "/abs.png", ""] {
        assert!(b.resolve_url(url).is_none(), "{url} を書き換えてはいけない");
    }
}

#[test]
fn fragment_survives_the_rewrite() {
    let b = DocBase::new("/proj/docs", "/proj");
    assert_eq!(b.resolve_url("./b.md#sec").unwrap(), "/docs/b.md#sec");
}

#[test]
fn spaces_and_non_ascii_are_encoded_once() {
    let b = DocBase::new("/proj/docs", "/proj");
    assert_eq!(b.resolve_url("my fig.png").unwrap(), "/docs/my%20fig.png");
    assert_eq!(b.resolve_url("my%20fig.png").unwrap(), "/docs/my%20fig.png");
}

#[test]
fn file_id_is_the_absolute_path_inside_or_outside_the_root() {
    assert_eq!(file_id("/proj/docs/a.md"), "/proj/docs/a.md");
    assert_eq!(file_id("/other/x.md"), "/other/x.md");
}

#[test]
fn display_id_strips_the_root_but_leaves_the_outside_alone() {
    assert_eq!(display_id("/proj", "/proj/docs/a.md"), "docs/a.md");
    assert_eq!(display_id("/proj", "/other/x.md"), "/other/x.md");
    assert_eq!(display_id("/proj", "/proj"), "/proj");
    assert_eq!(display_id("/proj", "/project/x.md"), "/project/x.md");
}

#[test]
fn display_id_handles_the_filesystem_root() {
    assert_eq!(display_id("/", "/Applications/x.md"), "Applications/x.md");
    assert_eq!(display_id("/", "/"), "/");
    assert_eq!(display_id("", "/Applications/x.md"), "/Applications/x.md");
}

#[test]
fn percent_decoding_and_encoding() {
    assert_eq!(percent_decode("a%20b%2Fc"), "a b/c");
    assert_eq!(percent_decode("100%"), "100%");
    assert_eq!(percent_decode("%e6%97%a5"), "日");
    assert_eq!(percent_decode("%zz"), "%zz");
    assert_eq!(encode_path("a b/日.md"), "a%20b/%E6%97%A5.md");
    assert_eq!(encode_path("A-z_0.~/"), "A-z_0.~/");
}

#[test]
fn normalize_folds_dots_lexically() {
    assert_eq!(normalize("/a/./b/../c"), "/a/c");
    assert_eq!(normalize("/../a"), "/a");
    assert_eq!(normalize("a//b/"), "a/b");
    assert_eq!(normalize("../x"), "x");
    assert_eq!(asset_url("/proj", "/proj/a b.png"), "/a%20b.png");
    assert_eq!(asset_url("/proj", "/elsewhere/a.png"), "/__abs/elsewhere/a.png");
}

#[test]
fn a_dotdot_above_the_root_is_dropped() {
    assert_eq!(normalize("/proj/../../x/./y"), "/x/y");
    assert_eq!(normalize("/proj/.."), "/");
    assert_eq!(normalize("/proj/../.."), "/");
    assert_eq!(normalize(&normalize("/proj/../../x/./y")), "/x/y");
}
