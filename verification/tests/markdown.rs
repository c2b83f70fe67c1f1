use md_preview::embed::EmbedFile;
use md_preview::markdown::{embed_targets, render_body, render_body_in};
use md_preview::page::{body_line_offset, build_folder_html, build_html, parse_frontmatter, render_frontmatter_html, open_files_script, page_script_names, PageAssets};

fn no_assets() -> PageAssets {
    PageAssets::new(String::new(), vec![String::new(); page_script_names().len()]).unwrap()
}

fn hrefs(body: &str) -> Vec<String> {
    body.match_indices("<a href=\"")
        .map(|(i, m)| {
            let rest = &body[i + m.len()..];
            rest[..rest.find('"').unwrap()].to_string()
        })
        .collect()
}

#[test]
fn drawio_block_becomes_mxgraph_div() {
    let md = "```drawio\n<mxGraphModel><root>A &amp; \"B\"</root></mxGraphModel>\n```\n";
    let body = render_body(md);
    assert!(body.contains("class=\"mxgraph\""), "missing mxgraph class: {body}");
    assert!(body.contains("data-mxgraph=\""), "missing data attr: {body}");
    assert!(body.contains("\\u003cmxGraphModel&gt;"), "xml not escaped: {body}");
    assert!(!body.contains("<mxGraphModel>"), "raw angle brackets leaked: {body}");
    assert!(body.contains("&quot;xml&quot;"), "json quotes not escaped: {body}");
    assert!(!body.contains("data-mxgraph=\"{\"highlight"), "attr not escaped: {body}");
}

#[test]
fn mermaid_block_still_works() {
    let body = render_body("```mermaid\ngraph LR\nA-->B\n```\n");
    assert!(body.contains("class=\"mermaid\""), "{body}");
}

#[test]
fn build_html_no_longer_inlines_diagram_libs() {
    let page = build_html("<p>hi</p>", "t", "", "", "", "0", &no_assets());
    assert!(page.len() < 1_000_000, "page too large, libs likely inlined: {} bytes", page.len());
    assert!(page.contains("<p>hi</p>"));
}

#[test]
fn frontmatter_shifts_src_line_to_file_lines() {
    let md = "---\ntitle: t\n---\n\n# 見出し\n\n段落。\n";
    let (_, body) = parse_frontmatter(md);
    assert_eq!(body_line_offset(md, &body), 3);
    let html = render_body_in(&body, None, body_line_offset(md, &body), None);
    assert!(html.contains("<h1 data-src-line=\"5\">"), "heading: {html}");
    assert!(html.contains("<p data-src-line=\"7\">"), "paragraph: {html}");
}

#[test]
fn frontmatter_block_is_one_unit() {
    let md = "---\ntitle: t\nauthor: z\n---\n\n# 見出し\n";
    let (pairs, body) = parse_frontmatter(md);
    let html = render_frontmatter_html(&pairs, body_line_offset(md, &body));
    assert!(
        html.contains(r#"<div class="frontmatter" data-src-line="1" data-src-end-line="4">"#),
        "frontmatter unit: {html}"
    );
}

#[test]
fn frontmatter_src_line_handles_crlf() {
    let md = "---\r\ntitle: t\r\n---\r\n\r\n# 見出し\r\n";
    let (_, body) = parse_frontmatter(md);
    assert_eq!(body_line_offset(md, &body), 3);
    let html = render_body_in(&body, None, body_line_offset(md, &body), None);
    assert!(html.contains("<h1 data-src-line=\"5\">"), "crlf heading: {html}");
}

#[test]
fn frontmatter_pairs_are_trimmed_and_keyless_lines_dropped() {
    let (pairs, body) = parse_frontmatter("---\n title : a b \nno colon\n: empty key\n---\nbody\n");
    assert_eq!(pairs, vec![("title".to_string(), "a b".to_string())]);
    assert_eq!(body, "body\n");
    let (pairs, body) = parse_frontmatter("---\nunclosed\n");
    assert!(pairs.is_empty());
    assert_eq!(body, "---\nunclosed\n");
    let (pairs, body) = parse_frontmatter("---\nk: v\n---");
    assert_eq!(pairs, vec![("k".to_string(), "v".to_string())]);
    assert_eq!(body, "");
}

#[test]
fn src_line_on_common_units() {
    let md = "# H\n\npara\n\n- a\n- b\n\n```\ncode\n```\n";
    let body = render_body(md);
    assert!(body.contains("<h1 data-src-line=\"1\">"), "heading: {body}");
    assert!(body.contains("<p data-src-line=\"3\">"), "paragraph: {body}");
    assert!(body.contains("<li data-src-line=\"5\">"), "li a: {body}");
    assert!(body.contains("<li data-src-line=\"6\">"), "li b: {body}");
    assert!(body.contains("class=\"code-wrapper\" data-src-line=\"8\""), "code: {body}");
}

#[test]
fn src_end_line_multiline_paragraph() {
    let md = "line one\nline two\nline three\n";
    let body = render_body(md);
    assert!(
        body.contains("<p data-src-line=\"1\" data-src-end-line=\"3\">"),
        "multiline paragraph end-line: {body}"
    );
}

#[test]
fn src_line_li_not_off_by_one() {
    let md = "- a\n\n- b\n";
    let body = render_body(md);
    assert!(body.contains("<li data-src-line=\"1\">"), "li a should be single-line: {body}");
    assert!(!body.contains("data-src-end-line=\"2\""), "li a must not include blank line: {body}");
}

#[test]
fn table_alignment_preserved_in_body() {
    let md = "| A | B |\n|:--|--:|\n| 1 | 2 |\n";
    let body = render_body(md);
    assert!(body.contains("<td style=\"text-align: left\">"), "body left align lost: {body}");
    assert!(body.contains("<td style=\"text-align: right\">"), "body right align lost: {body}");
    assert!(body.contains("class=\"table-wrap\" data-src-line=\"1\""), "table-wrap src-line: {body}");
}

#[test]
fn second_table_header_is_th() {
    let md = "| A | B |\n|---|---|\n| 1 | 2 |\n\npara\n\n| C | D |\n|---|---|\n| 3 | 4 |\n";
    let body = render_body(md);
    assert!(!body.contains("<thead><tr><td"), "2nd table header became <td>: {body}");
    assert_eq!(body.matches("<th>").count(), 4, "expected 4 header cells: {body}");
}

#[test]
fn details_summary_get_src_line() {
    let md = "<details>\n<summary>x</summary>\n\nbody\n\n</details>\n";
    let body = render_body(md);
    assert!(body.contains("<details data-src-line=\"1\">"), "details: {body}");
    assert!(body.contains("<summary data-src-line=\"2\">"), "summary: {body}");
    assert!(body.contains("</details>"), "closing details missing: {body}");
    assert!(!body.contains("</details data-src-line"), "closing tag wrongly injected: {body}");
}

#[test]
fn crlf_line_numbers() {
    let md = "# H\r\n\r\npara\r\n";
    let body = render_body(md);
    assert!(body.contains("<h1 data-src-line=\"1\">"), "crlf heading: {body}");
    assert!(body.contains("<p data-src-line=\"3\">"), "crlf paragraph: {body}");
}

#[test]
fn empty_and_multibyte_no_panic() {
    let _ = render_body("");
    let _ = render_body("# 日本語の見出し\n\nマルチバイト段落なのだ。\n");
}

fn three_line_file() -> Vec<EmbedFile> {
    vec![EmbedFile { rel: "./f.txt".to_string(), path: "/tmp/x/f.txt".to_string(), text: "one\ntwo\nthree\n".to_string() }]
}

#[test]
fn standalone_file_link_becomes_code_embed() {
    let md = "[f](./f.txt#L2)\n";
    assert_eq!(embed_targets(md), vec!["./f.txt".to_string()]);
    let body = render_body_in(md, Some(&three_line_file()), 0, None);
    assert!(body.contains("class=\"code-wrapper has-filename code-embed\""), "{body}");
    assert!(!body.contains("<a href"), "link should be replaced: {body}");
    assert!(body.contains(">two</code>"), "wrong line embedded: {body}");
    assert!(body.contains("code-embed\" data-src-line=\"1\""), "src-line missing: {body}");
}

#[test]
fn inline_file_link_stays_a_link() {
    let md = "見て [f](./f.txt#L2) なのだ。\n";
    assert!(embed_targets(md).is_empty());
    let body = render_body_in(md, Some(&three_line_file()), 0, None);
    assert!(body.contains("<a href=\"./f.txt#L2\">"), "{body}");
    assert!(!body.contains("code-embed"), "should not embed inline link: {body}");
}

#[test]
fn embedding_is_off_without_base_dir() {
    let body = render_body("[f](./f.txt#L2)\n");
    assert!(body.contains("<a href=\"./f.txt#L2\">"), "{body}");
    assert!(!body.contains("code-embed"), "{body}");
}

#[test]
fn paragraph_with_two_links_is_not_embedded() {
    let body = render_body_in("[a](./f.txt#L1)[b](./f.txt#L2)\n", Some(&three_line_file()), 0, None);
    assert!(!body.contains("code-embed"), "{body}");
    assert_eq!(body.matches("<a href").count(), 2, "{body}");
}

#[test]
fn bare_url_paragraph_is_not_code_embedded() {
    let body = render_body_in("https://example.com/f.txt\n", Some(&three_line_file()), 0, None);
    assert!(!body.contains("code-embed"), "{body}");
    assert_eq!(hrefs(&body), vec!["https://example.com/f.txt"], "{body}");
}

#[test]
fn bare_url_becomes_a_link() {
    let body = render_body("見て https://example.com/a なのだ。\n");
    assert_eq!(hrefs(&body), vec!["https://example.com/a"], "{body}");
}

#[test]
fn bare_url_in_various_containers() {
    let cases = [
        "- https://example.com/a\n",
        "| a |\n| --- |\n| https://example.com/a |\n",
        "**https://example.com/a**\n",
        "> [!NOTE]\n> https://example.com/a\n",
        "# https://example.com/a\n",
    ];
    for md in cases {
        let body = render_body(md);
        assert_eq!(hrefs(&body), vec!["https://example.com/a"], "md={md:?} body={body}");
    }
}

#[test]
fn url_in_inline_code_stays_text() {
    let body = render_body("`https://example.com/a` なのだ。\n");
    assert!(hrefs(&body).is_empty(), "{body}");
    assert!(body.contains("<code>https://example.com/a</code>"), "{body}");
}

#[test]
fn url_in_code_block_stays_text() {
    let body = render_body("```\nsee https://example.com/a\n```\n");
    assert!(hrefs(&body).is_empty(), "{body}");
    let body = render_body("    see https://example.com/a\n");
    assert!(hrefs(&body).is_empty(), "{body}");
}

#[test]
fn angle_autolink_is_not_double_linked() {
    let body = render_body("<https://example.com/a>\n");
    assert_eq!(hrefs(&body), vec!["https://example.com/a"], "{body}");
    assert_eq!(body.matches("<a ").count(), 1, "{body}");
}

#[test]
fn inline_link_with_url_text_is_not_nested() {
    let body = render_body("[https://example.com/a](https://example.com/b)\n");
    assert_eq!(hrefs(&body), vec!["https://example.com/b"], "{body}");
    assert_eq!(body.matches("<a ").count(), 1, "{body}");
}

#[test]
fn trailing_punctuation_is_excluded() {
    for suffix in ["。", ".", ",", "!", "?", ":", ";", "、", "」", "&gt;", "*", "'"] {
        let md = format!("x https://example.com/a{suffix} y\n");
        let body = render_body(&md);
        assert_eq!(hrefs(&body), vec!["https://example.com/a"], "suffix={suffix:?} {body}");
    }
}

#[test]
fn parens_are_balanced() {
    let body = render_body("(https://example.com/a) なのだ。\n");
    assert_eq!(hrefs(&body), vec!["https://example.com/a"], "{body}");
    let body = render_body("https://ja.wikipedia.org/wiki/Foo_(bar) なのだ。\n");
    assert_eq!(hrefs(&body), vec!["https://ja.wikipedia.org/wiki/Foo_(bar)"], "{body}");
}

#[test]
fn full_width_neighbors_are_handled() {
    let body = render_body("詳細はhttps://example.com/aを参照。\n");
    assert_eq!(hrefs(&body), vec!["https://example.com/a"], "{body}");
    assert!(body.contains("を参照。"), "trailing text lost: {body}");
    let body = render_body("（https://example.com/a）\n");
    assert_eq!(hrefs(&body), vec!["https://example.com/a"], "{body}");
}

#[test]
fn image_alt_with_url_is_not_broken() {
    let body = render_body("![https://example.com/a](./x.png)\n");
    assert!(hrefs(&body).is_empty(), "{body}");
    assert!(body.contains("alt=\"https://example.com/a\""), "{body}");
}

#[test]
fn multiple_urls_in_one_paragraph() {
    let body = render_body("a https://example.com/1 b http://example.com/2 c\n");
    assert_eq!(hrefs(&body), vec!["https://example.com/1", "http://example.com/2"], "{body}");
}

#[test]
fn url_query_ampersand_is_escaped() {
    let body = render_body("https://example.com/a?x=1&y=2\n");
    assert_eq!(hrefs(&body), vec!["https://example.com/a?x=1&amp;y=2"], "{body}");
}

#[test]
fn alert_quote_gets_its_class_title_and_icon() {
    let body = render_body("> [!WARNING]\n> careful\n");
    assert!(body.contains("<blockquote class=\"markdown-alert-warning\" data-src-line=\"1\""), "{body}");
    assert!(body.contains("<div class=\"markdown-alert-title\"><svg"), "{body}");
    assert!(body.contains("<span>Warning</span></div>"), "{body}");
    let body = render_body("> plain\n");
    assert!(body.contains("<blockquote data-src-line=\"1\">"), "{body}");
}

#[test]
fn named_code_block_has_a_file_bar() {
    let body = render_body("```rust:src/main.rs\nfn main() {}\n```\n");
    assert!(body.contains("<div class=\"code-wrapper has-filename\" data-src-line=\"1\" data-src-end-line=\"3\"><div class=\"code-filename\">src/main.rs</div><pre><code class=\"language-rust\">fn main() {}\n</code></pre></div>"), "{body}");
}

#[test]
fn folder_page_lists_its_tabs_in_order() {
    let files = vec!["/work/a.md".to_string(), "/tmp/md-stdin-1/stdin.md".to_string()];
    let html = build_folder_html("work", "", "", &files, "N", &no_assets());
    assert!(html.contains("<title>work</title>"), "{html}");
    assert!(html.contains(r#"<body class="folder-mode">"#), "{html}");
    assert!(html.contains(r#"<script nonce="N">var INITIAL_FILES = ["/work/a.md","/tmp/md-stdin-1/stdin.md"];</script>"#), "{html}");
    let one = build_folder_html("work", "", "", &files[..1], "N", &no_assets());
    assert!(one.contains(r#"var INITIAL_FILES = ["/work/a.md"];"#));
    let none = build_folder_html("work", "", "", &[], "N", &no_assets());
    assert!(none.contains("var INITIAL_FILES = [];"));
}

#[test]
fn front_matter_without_a_closing_line_is_all_body() {
    let s = "---\ntitle: x\nbody\n";
    let (pairs, body) = parse_frontmatter(s);
    assert!(pairs.is_empty());
    assert_eq!(body, s);
    let (pairs, body) = parse_frontmatter("---\ntitle: x\n---\nbody\n");
    assert_eq!(pairs, vec![("title".to_string(), "x".to_string())]);
    assert_eq!(body, "body\n");
}

#[test]
fn page_scripts_load_in_their_fixed_order() {
    let names = page_script_names();
    assert_eq!(
        names,
        vec![
            "keymap.js", "common.js", "highlight.min.js", "search.js", "palette.js", "toc.js", "contextmenu.js",
            "viewmode.js", "help.js", "keyscroll.js", "comment.js",
        ]
    );
    assert!(!names.contains(&"mermaid.min.js"));
    assert!(!names.contains(&"drawio-viewer.min.js"));
}

#[test]
fn page_assets_take_one_text_per_script_and_inline_them_in_order() {
    assert!(PageAssets::new(String::new(), Vec::new()).is_none());
    assert!(PageAssets::new(String::new(), vec![String::new(); 12]).is_none());
    let texts: Vec<String> = (0..page_script_names().len()).map(|k| format!("s{};", k)).collect();
    let assets = PageAssets::new("body{}".to_string(), texts).unwrap();
    let page = build_html("<p>hi</p>", "t", "", "", "", "N", &assets);
    assert!(page.contains("<style>body{}</style>"));
    assert!(page.contains("<script nonce=\"N\">s0;</script>\n<script nonce=\"N\">s1;</script>\n<script nonce=\"N\">s2;</script>"));
    assert!(page.contains("<script nonce=\"N\">s10;</script>\n"));
}

#[test]
fn open_files_script_lists_the_ids_as_json() {
    assert_eq!(open_files_script(&[]), "");
    let ids = vec!["/a.md".to_string(), "/b \"c\".md".to_string()];
    assert_eq!(open_files_script(&ids), "window.MdOpenFiles && window.MdOpenFiles([\"/a.md\",\"/b \\\"c\\\".md\"]);");
}
