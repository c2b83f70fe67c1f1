use md_preview::request::{
    asset_reply, asset_target, AssetTarget,
    classify_ext, find_ci_ascii, guess_mime, inject_style_gate, is_renderable, parse_route, render_file,
    render_html_iframe, Route, Target, ViewKind, ViewMode, RENDERABLE_EXT,
};
use md_preview::page::{page_script_names, PageAssets};
use md_preview::urlpath::asset_url;

#[test]
fn html_mime_is_text_html() {
    assert_eq!(guess_mime("a.html"), "text/html; charset=utf-8");
    assert_eq!(guess_mime("a.HTM"), "text/html; charset=utf-8");
    assert_eq!(guess_mime("a.HTML"), "text/html; charset=utf-8");
    assert!(guess_mime("a.css").starts_with("text/css"));
    assert!(guess_mime("a.js").starts_with("text/javascript"));
}

#[test]
fn html_iframe_title_escapes_quotes() {
    let frag = render_html_iframe("/ev%22il.html", r#"ev"il.html"#);
    assert!(!frag.contains(r#"title="ev"il"#), "{frag}");
    assert!(frag.contains("&quot;"), "{frag}");
}

#[test]
fn classify_ext_is_case_insensitive() {
    for (name, want) in [
        ("a.md", ViewKind::Markdown),
        ("a.MARKDOWN", ViewKind::Markdown),
        ("a.html", ViewKind::HtmlPage),
        ("a.HTM", ViewKind::HtmlPage),
        ("a.txt", ViewKind::Source),
        ("a.rs", ViewKind::Source),
        ("noext", ViewKind::Source),
    ] {
        assert_eq!(classify_ext(name), want, "{name}");
    }
    for ext in RENDERABLE_EXT {
        assert!(is_renderable(&format!("a.{ext}")), "{ext}");
    }
    assert!(!is_renderable("a.txt"));
}

#[test]
fn html_iframe_fragment_has_encoded_src() {
    let root = "/proj";
    let frag = render_html_iframe(&asset_url(root, "/proj/sub dir/page.html"), "sub dir/page.html");
    assert!(frag.contains(r#"class="html-frame""#), "{frag}");
    assert!(frag.contains(r#"src="/sub%20dir/page.html""#), "{frag}");
    assert!(!frag.contains(r#"src="/sub dir"#), "{frag}");
    let out = render_html_iframe(&asset_url(root, "/other/page.html"), "/other/page.html");
    assert!(out.contains(r#"src="/__abs/other/page.html""#), "{out}");
}

#[test]
fn style_gate_inserted_before_head_close() {
    let out = inject_style_gate(b"<html><head><link rel=stylesheet></HEAD><body>x</body></html>".to_vec());
    let s = String::from_utf8(out).unwrap();
    assert!(s.contains("<script>/*md:style-gate*/void 0</script></HEAD>"), "{s}");
    assert!(s.find("stylesheet").unwrap() < s.find("md:style-gate").unwrap(), "{s}");
}

#[test]
fn style_gate_noop_without_head() {
    let src = b"<div>no head here</div>".to_vec();
    assert_eq!(inject_style_gate(src.clone()), src);
}

#[test]
fn style_gate_skips_script_and_comment_pseudo_head() {
    let src = br#"<head><script>var s="</head>";</script><!-- </head> --><link></head><body>x</body>"#.to_vec();
    let out = String::from_utf8(inject_style_gate(src)).unwrap();
    assert_eq!(out.matches("md:style-gate").count(), 1, "{out}");
    assert!(out.contains("<link><script>/*md:style-gate*/void 0</script></head>"), "{out}");
    assert!(out.contains(r#"<script>var s="</head>";</script>"#), "{out}");
}

#[test]
fn style_gate_handles_non_utf8() {
    let mut src = b"<head>".to_vec();
    src.push(0xFF);
    src.extend_from_slice(b"</head><body>x</body>");
    let out = inject_style_gate(src);
    assert!(find_ci_ascii(&out, b"md:style-gate").is_some());
}

#[test]
fn find_ci_ascii_edges() {
    assert_eq!(find_ci_ascii(b"", b"x"), None);
    assert_eq!(find_ci_ascii(b"ab", b"abc"), None);
    assert_eq!(find_ci_ascii(b"abc", b""), None);
    assert_eq!(find_ci_ascii(b"aXaX", b"ax"), Some(0));
}

#[test]
fn routes_are_keyed_not_prefix_matched() {
    assert_eq!(parse_route("/", "files=1", false), Route::Files);
    assert_eq!(parse_route("/", "changed=1", false), Route::Changed);
    assert_eq!(parse_route("/", "file=a.md", false), Route::View(Target::Rel("a.md".to_string())));
    assert_eq!(parse_route("/", "diffstat=1", true), Route::DiffStat(Target::Single));
    assert_eq!(
        parse_route("/", "file=sub%20dir%2Fa.md", false),
        Route::View(Target::Rel("sub dir/a.md".to_string()))
    );
}

#[test]
fn sentinel_only_applies_in_single_file_mode() {
    assert_eq!(parse_route("/", "raw=1", true), Route::Raw(Target::Single));
    assert_eq!(parse_route("/", "diff=1", true), Route::Diff(Target::Single));
    assert_eq!(parse_route("/", "raw=1", false), Route::Raw(Target::Rel("1".to_string())));
    assert_eq!(parse_route("/", "diff=1", false), Route::Diff(Target::Rel("1".to_string())));
    assert_eq!(parse_route("/", "body=1", false), Route::View(Target::Single));
}

#[test]
fn non_query_routes() {
    assert_eq!(parse_route("/__lib/mermaid.min.js", "", false), Route::BuiltinLib("mermaid.min.js".to_string()));
    assert_eq!(parse_route("/", "", false), Route::Index);
    assert_eq!(parse_route("/img/a.png", "", false), Route::Asset("/img/a.png".to_string()));
    assert_eq!(parse_route("/img/a.png", "v=2", false), Route::Asset("/img/a.png".to_string()));
}

#[test]
fn single_target_is_not_wrapped_but_rel_is() {
    assert!(!Target::Single.wrapped());
    assert!(Target::Rel("a.md".to_string()).wrapped());
}

#[test]
fn binary_contents_are_a_notice_on_every_path() {
    for mode in [ViewMode::Normal, ViewMode::RawSource] {
        let bytes: &[u8] = &[0xff, 0xfe, 0x00];
        let r = render_file("/d/blob.bin", "/d", mode, Some(bytes), None).unwrap();
        assert_eq!(r.kind, ViewKind::Binary);
        assert_eq!(r.body_class, "source-page");
        assert!(r.html.contains("md-notice"), "{}", r.html);
    }
}

#[test]
fn html_is_rendered_as_iframe_without_its_contents() {
    let r = render_file("/tmp/whatever/foo.html", "/tmp/whatever", ViewMode::Normal, None, None).unwrap();
    assert_eq!(r.kind, ViewKind::HtmlPage);
    assert_eq!(r.body_class, "html-page");
    assert!(r.html.contains(r#"class="html-frame""#), "{}", r.html);
    assert!(r.html.contains(r#"src="/foo.html""#), "{}", r.html);
    assert!(render_file("/tmp/whatever/foo.html", "/tmp/whatever", ViewMode::RawSource, None, None).is_none());
}

#[test]
fn asset_paths_point_inside_the_root_or_at_absolute_paths() {
    match asset_target("/__abs/etc/x.png") {
        AssetTarget::Abs(p) => assert_eq!(p, "/etc/x.png"),
        AssetTarget::Rel(_) => panic!("expected an absolute target"),
    }
    match asset_target("/img/a.png") {
        AssetTarget::Rel(p) => assert_eq!(p, "img/a.png"),
        AssetTarget::Abs(_) => panic!("expected a relative target"),
    }
}

#[test]
fn assets_are_answered_by_kind() {
    let assets = PageAssets::new(String::new(), vec![String::new(); page_script_names().len()]).unwrap();
    let r = asset_reply("/r/img/a.png", "/r", Some(vec![1, 2, 3]), None, "", "", "N", &assets);
    assert_eq!(r.status, 200);
    assert_eq!(r.content_type, "image/png");
    assert_eq!(r.body, vec![1, 2, 3]);
    let r = asset_reply("/r/page.html", "/r", Some(b"<head></head>".to_vec()), None, "", "", "N", &assets);
    assert_eq!(String::from_utf8(r.body).unwrap(), "<head><script>/*md:style-gate*/void 0</script></head>");
    let r = asset_reply("/r/doc.md", "/r", Some(b"# Hi\n".to_vec()), None, "", "", "N", &assets);
    assert_eq!(r.content_type, "text/html; charset=utf-8");
    let page = String::from_utf8(r.body).unwrap();
    assert!(page.contains("<title>doc.md</title>"), "{page}");
    assert!(page.contains("Hi</h1>"), "{page}");
    assert_eq!(asset_reply("/r/gone.png", "/r", None, None, "", "", "N", &assets).status, 404);
}

fn doc_body(md: &str) -> String {
    render_file("/base/proj/docs/a.md", "/base/proj", ViewMode::Normal, Some(md.as_bytes()), None).unwrap().html
}

#[test]
fn relative_image_resolves_against_the_document_dir() {
    let body = doc_body("# doc\n\n![fig](fig.png)\n");
    assert!(body.contains(r#"src="/docs/fig.png""#), "{body}");
    assert!(!body.contains(r#"src="fig.png""#), "{body}");
}

#[test]
fn relative_link_resolves_against_the_document_dir() {
    let body = doc_body("[b](./b.md)\n");
    assert!(body.contains(r#"href="/docs/b.md""#), "{body}");
}

#[test]
fn raw_html_img_is_rewritten_too() {
    let body = doc_body("<img src=\"fig.png\" width=\"300\">\n");
    assert!(body.contains(r#"<img src="/docs/fig.png" width="300">"#), "{body}");
}

#[test]
fn out_of_root_image_goes_through_the_abs_route() {
    let body = doc_body("![out](../../outside/out.png)\n");
    assert!(body.contains(r#"src="/__abs/base/outside/out.png""#), "{body}");
    let body = doc_body("[x](../../outside/x.md)\n");
    assert!(body.contains(r#"href="/__abs/base/outside/x.md""#), "{body}");
}

#[test]
fn absolute_and_scheme_destinations_stay_as_written() {
    let body = doc_body("[a](https://example.com/a) [b](#sec) [c](/abs.md)\n\n![i](data:image/png;base64,AA)\n");
    assert!(body.contains(r#"href="https://example.com/a""#), "{body}");
    assert!(body.contains(r##"href="#sec""##), "{body}");
    assert!(body.contains(r#"href="/abs.md""#), "{body}");
    assert!(body.contains(r#"src="data:image/png;base64,AA""#), "{body}");
}
