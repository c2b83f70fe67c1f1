use md_preview::embed::{has_scheme, parse_dest, render_embed, EmbedFile, LineSpec, COLLAPSE_LINES, MAX_EMBED_LINES};

fn spec(dest: &str) -> Option<String> {
    let (path, s) = parse_dest(dest)?;
    let range = match s {
        None => "all".to_string(),
        Some(LineSpec { start, end: None }) => start.to_string(),
        Some(LineSpec { start, end: Some(e) }) => format!("{}-{}", start, e),
    };
    Some(format!("{}|{}", path, range))
}

#[test]
fn parses_local_paths_and_ranges() {
    assert_eq!(spec("./src/main.rs").unwrap(), "./src/main.rs|all");
    assert_eq!(spec("./src/main.rs#L10").unwrap(), "./src/main.rs|10");
    assert_eq!(spec("./a.rs#L10-L20").unwrap(), "./a.rs|10-20");
    assert_eq!(spec("./a.rs#l10-20").unwrap(), "./a.rs|10-20");
    assert_eq!(spec("my%20file.rs#L1").unwrap(), "my file.rs|1");
}

#[test]
fn rejects_non_embeddable_destinations() {
    assert_eq!(spec("https://github.com/"), None);
    assert_eq!(spec("mailto:a@b.c"), None);
    assert_eq!(spec("//example.com/x.rs"), None);
    assert_eq!(spec("#section"), None);
    assert_eq!(spec(""), None);
    assert_eq!(spec("./other.md#heading"), None);
    assert_eq!(spec("./a.rs#L0"), None);
    assert_eq!(spec("./a.rs#"), None);
}

#[test]
fn colon_in_filename_is_not_a_scheme() {
    assert!(!has_scheme("./a:b.rs"));
    assert!(!has_scheme("src/main.rs"));
    assert!(has_scheme("https://x"));
    assert!(has_scheme("mailto:x"));
}

fn embed_with(lines: usize, dest_frag: &str) -> Option<String> {
    let body: String = (1..=lines).map(|i| format!("line {}\n", i)).collect();
    let files = vec![EmbedFile { rel: "./f.txt".to_string(), path: "/tmp/f.txt".to_string(), text: body }];
    render_embed(&format!("./f.txt{}", dest_frag), "", 1, &files)
}

#[test]
fn line_label_marks_truncation_only_when_cut() {
    assert!(embed_with(14, "#L5").unwrap().contains(">L5<"));
    assert!(embed_with(14, "#L8-L12").unwrap().contains(">L8-L12<"));
    assert!(embed_with(3, "").unwrap().contains("全 3 行"));
    let over = MAX_EMBED_LINES + 100;
    let big = embed_with(over, "").unwrap();
    assert!(big.contains(&format!("L1-L{} / 全 {} 行", MAX_EMBED_LINES, over)), "{big:.300}");
}

#[test]
fn long_embeds_are_foldable_and_short_ones_are_not() {
    let short = embed_with(COLLAPSE_LINES, "").unwrap();
    assert!(!short.contains("is-foldable"), "{short:.300}");
    assert!(!short.contains("code-embed-fold"), "{short:.300}");
    let long = embed_with(COLLAPSE_LINES + 1, "").unwrap();
    assert!(long.contains("is-foldable"), "{long:.300}");
    assert!(long.contains(r#"type="checkbox" id="code-embed-1""#), "{long:.300}");
    assert!(long.contains(r#"for="code-embed-1""#), "{long:.300}");
    assert!(long.contains(&format!("すべて表示（{} 行）", COLLAPSE_LINES + 1)), "{long:.300}");
    let input_at = long.find("code-embed-fold").unwrap();
    let pre_at = long.find("<pre>").unwrap();
    let label_at = long.find("code-embed-expand").unwrap();
    assert!(input_at < pre_at && pre_at < label_at, "{long:.300}");
}

#[test]
fn hard_cap_applies_to_explicit_ranges_too() {
    let html = embed_with(3000, &format!("#L1-L{}", 2500)).unwrap();
    let shown = html.matches('\n').count() + 1;
    assert!(shown <= MAX_EMBED_LINES, "emitted {shown} lines");
    assert!(html.contains(&format!("L1-L{} / 全 3000 行", MAX_EMBED_LINES)), "{html:.300}");
}

#[test]
fn embeds_requested_lines_only() {
    let html = embed_with(20, "#L3-L5").unwrap();
    assert!(html.contains("line 3\nline 4\nline 5</code>"), "{html}");
    assert!(!html.contains("line 2"), "{html}");
}

#[test]
fn start_line_past_eof_is_not_embedded() {
    assert!(embed_with(5, "#L99").is_none());
}

#[test]
fn navigable_page_links_stay_links_without_a_range() {
    let files: Vec<EmbedFile> = ["./other.md", "./page.html", "./note.txt"]
        .iter()
        .map(|r| EmbedFile { rel: r.to_string(), path: format!("/tmp{}", &r[1..]), text: "one\ntwo\nthree\n".to_string() })
        .collect();
    assert!(render_embed("./other.md", "", 1, &files).is_none());
    assert!(render_embed("./page.html", "", 1, &files).is_none());
    assert!(render_embed("./other.md#L2", "", 1, &files).is_some());
    assert!(render_embed("./page.html#L1-L2", "", 1, &files).is_some());
    assert!(render_embed("./note.txt", "", 1, &files).is_some());
}

#[test]
fn unread_file_is_not_embedded() {
    assert!(render_embed("./missing.rs", "", 1, &Vec::new()).is_none());
}

#[test]
fn embed_markup_is_exact() {
    let files = vec![EmbedFile { rel: "./a.rs".to_string(), path: "/p/a.rs".to_string(), text: "x < y\n".to_string() }];
    assert_eq!(
        render_embed("./a.rs", " data-src-line=\"3\"", 3, &files).unwrap(),
        "<div class=\"code-wrapper has-filename code-embed\" data-src-line=\"3\"><div class=\"code-filename\"><span class=\"code-embed-path\">a.rs</span><span class=\"code-embed-lines\">全 1 行</span></div><pre><code class=\"language-rust\">x &lt; y</code></pre></div>"
    );
}
