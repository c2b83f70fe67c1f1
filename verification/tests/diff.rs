use md_preview::diff::{numstat_changes, numstat_counts, render_diff_inner, render_source_diff, line_count, HeadVersion};

#[test]
fn oversized_input_is_skipped_with_message() {
    let big = "line\n".repeat(20_001);
    let html = render_source_diff("", &big);
    assert!(html.contains("大きすぎて"), "サイズ超過通知が無い: {html}");
    assert!(!html.contains("diff-source"), "差分を組んでしまった: {html}");
}

#[test]
fn changed_line_marks_del_add_and_inline_chars() {
    let html = render_diff_inner("a.rs", Some(b"let x = 2;\nkeep me\n"), &HeadVersion::Committed(b"let x = 1;\nkeep me\n".to_vec()));
    assert!(html.contains("diff-source"), "{html}");
    assert!(html.contains("diff-del"), "{html}");
    assert!(html.contains("diff-add"), "{html}");
    assert!(html.contains(r#"<span class="diff-char-del">1</span>"#), "{html}");
    assert!(html.contains(r#"<span class="diff-char-add">2</span>"#), "{html}");
    assert!(html.contains("diff-ctx"), "{html}");
    assert!(html.contains("keep me"), "{html}");
    assert!(html.contains(r#"<span class="source-fname">a.rs</span><span class="source-lang">Diff</span>"#), "{html}");
}

#[test]
fn no_change_has_no_highlight_and_no_message() {
    let text = "# タイトル\n\n本文なのだ。\n";
    let html = render_diff_inner("a.md", Some(text.as_bytes()), &HeadVersion::Committed(text.as_bytes().to_vec()));
    assert!(!html.contains("diff-del") && !html.contains("diff-add"), "{html}");
    assert!(!html.contains("diff-msg"), "{html}");
    assert!(html.contains("本文なのだ"), "{html}");
    assert!(html.contains("diff-ctx"), "{html}");
}

#[test]
fn untracked_file_is_all_added() {
    let html = render_diff_inner("new.txt", Some(b"brand new\nsecond\n"), &HeadVersion::NotCommitted);
    assert!(html.contains("diff-add"), "{html}");
    assert!(html.contains("brand new"), "{html}");
    assert!(!html.contains("diff-del"), "{html}");
}

#[test]
fn outside_repo_shows_plain_source_no_message() {
    let text = "# タイトル\n\n本文なのだ。\n";
    let html = render_diff_inner("a.md", Some(text.as_bytes()), &HeadVersion::OutsideRepo);
    assert!(!html.contains("diff-msg"), "{html}");
    assert!(!html.contains("diff-del") && !html.contains("diff-add"), "{html}");
    assert!(html.contains("本文なのだ"), "{html}");
}

#[test]
fn non_utf8_reports_binary() {
    let html = render_diff_inner("blob.bin", Some(&[0xff, 0xfe, 0x00, 0x01]), &HeadVersion::OutsideRepo);
    assert!(html.contains("バイナリ"), "{html}");
    assert_eq!(html, r#"<p class="diff-msg">バイナリファイルは差分表示できません</p>"#);
}

#[test]
fn unreadable_file_reports_it() {
    let html = render_diff_inner("gone.md", None, &HeadVersion::OutsideRepo);
    assert_eq!(html, r#"<p class="diff-msg">ファイルを読み込めませんでした</p>"#);
}

#[test]
fn empty_file_gives_nothing() {
    assert_eq!(render_diff_inner("e.md", Some(b""), &HeadVersion::OutsideRepo), "");
    assert_eq!(render_source_diff("", ""), "");
}

#[test]
fn rows_number_both_sides_and_escape_text() {
    let html = render_source_diff("a\n<b>\n", "a\n<c>\n");
    assert!(html.starts_with(r#"<div class="diff-source"><div class="diff-body">"#), "{html}");
    assert!(html.contains(r#"<div class="diff-row diff-ctx"><span class="diff-gutter">1</span><span class="diff-gutter">1</span><span class="diff-sign"> </span><span class="diff-text">a</span></div>"#), "{html}");
    assert!(html.contains(r#"<div class="diff-row diff-del"><span class="diff-gutter">2</span><span class="diff-gutter"></span><span class="diff-sign">-</span><span class="diff-text">&lt;<span class="diff-char-del">b</span>&gt;</span></div>"#), "{html}");
    assert!(html.contains(r#"<div class="diff-row diff-add"><span class="diff-gutter"></span><span class="diff-gutter">2</span><span class="diff-sign">+</span><span class="diff-text">&lt;<span class="diff-char-add">c</span>&gt;</span></div>"#), "{html}");
}

#[test]
fn unpaired_lines_are_marked_whole() {
    let html = render_source_diff("x\n", "y\nz\n");
    assert!(html.contains(r#"<span class="diff-sign">+</span><span class="diff-text">z</span>"#), "{html}");
}

#[test]
fn numstat_first_line_is_read() {
    assert_eq!(numstat_counts(b"1\t1\ta.md\n"), Some((1, 1)));
    assert_eq!(numstat_counts(b"12\t0\tb.md\n3\t4\tc.md\n"), Some((12, 0)));
    assert_eq!(numstat_counts(b"-\t-\tblob.bin\n"), Some((0, 0)));
    assert_eq!(numstat_counts(b""), None);
}

#[test]
fn line_count_follows_str_lines() {
    assert_eq!(line_count("x\ny\n"), 2);
    assert_eq!(line_count("x\ny"), 2);
    assert_eq!(line_count(""), 0);
    assert_eq!(line_count("a\r\nb\r\n"), 2);
}

#[test]
fn numstat_lists_every_changed_file_with_its_counts() {
    let out = b"3\t1\tdocs/a.md\n-\t-\timg/logo.png\n10\t0\tsub dir/b\tc.md\n";
    assert_eq!(
        numstat_changes(out),
        vec![
            ("docs/a.md".to_string(), 3, 1),
            ("img/logo.png".to_string(), 0, 0),
            ("sub dir/b\tc.md".to_string(), 10, 0),
        ]
    );
    assert!(numstat_changes(b"").is_empty());
    assert!(numstat_changes(b"garbage without tabs\n").is_empty());
}
