use md_preview::cli::{html_dump_page, split_open_flags, theme_command, theme_list_text, ThemeCommand, USAGE};
use md_preview::page::{page_script_names, PageAssets};
use md_preview::theme::builtin_themes;

fn own(v: &[&str]) -> Vec<String> {
    v.iter().map(|s| s.to_string()).collect()
}

#[test]
fn theme_list_marks_the_active_theme_in_both_styles() {
    let plain = theme_list_text("nord", false, &[]);
    assert!(plain.contains("使用中: nord"), "{plain}");
    assert!(plain.contains("* nord"), "{plain}");
    assert!(!plain.contains('\x1b'), "{plain:?}");

    let rich = theme_list_text("nord", true, &[]);
    assert!(rich.contains('\x1b'), "{rich:?}");
    assert!(rich.contains("●"), "{rich:?}");
}

#[test]
fn theme_list_covers_every_builtin_theme() {
    let plain = theme_list_text("default", false, &[]);
    for t in builtin_themes() {
        assert!(plain.contains(t.name), "{} missing", t.name);
    }
}

#[test]
fn usage_lists_every_subcommand() {
    for flag in ["--sample", "--help", "--version", "theme", "uninstall", "--new-window"] {
        assert!(USAGE.contains(flag), "{flag} missing");
    }
}

#[test]
fn open_flags_are_stripped_and_the_rest_stays_a_path() {
    let args = own(&["-n", "a.md", "b.md"]);
    let (flags, paths) = split_open_flags(&args).unwrap();
    assert!(flags.new_window);
    assert_eq!(paths, vec!["a.md", "b.md"]);
}

#[test]
fn a_flag_after_the_paths_is_still_a_flag() {
    let (flags, paths) = split_open_flags(&own(&["a.md", "--new-window"])).unwrap();
    assert!(flags.new_window);
    assert_eq!(paths, vec!["a.md"]);
}

#[test]
fn everything_after_the_terminator_is_a_path() {
    let (flags, paths) = split_open_flags(&own(&["--", "-n", "--weird.md"])).unwrap();
    assert!(!flags.new_window);
    assert_eq!(paths, vec!["-n", "--weird.md"]);
}

#[test]
fn an_unknown_option_is_refused_instead_of_being_opened_as_a_file() {
    assert!(split_open_flags(&own(&["--nope", "a.md"])).is_err());
    assert!(split_open_flags(&own(&["-x"])).is_err());
}

#[test]
fn a_bare_dash_is_a_path_not_a_flag() {
    let (_, paths) = split_open_flags(&own(&["-"])).unwrap();
    assert_eq!(paths, vec!["-"]);
}

#[test]
fn unknown_option_message_names_the_option() {
    let err = split_open_flags(&own(&["a.md", "-x", "-n"])).err().unwrap();
    assert_eq!(err, "md: 不明なオプション '-x'");
}

#[test]
fn plain_listing_is_exact() {
    let user = own(&["nord", "zzz"]);
    let text = theme_list_text("zzz", false, &user);
    let expected = "テーマ（使用中: zzz）\n\
\nライト\n  \u{20} minimal\n  \u{20} editorial\n  \u{20} ink\n  \u{20} paper\n  \u{20} mono\n  \u{20} solarized-light\n\
\nダーク\n  \u{20} nord  （ユーザー定義で上書き）\n  \u{20} dracula\n  \u{20} gruvbox\n  \u{20} rose-pine\n  \u{20} terminal\n  \u{20} blueprint\n\
\nauto · OS設定に追従\n  \u{20} default\n\
\nユーザー\n  * zzz\n";
    assert_eq!(text, expected);
}

#[test]
fn rich_row_carries_the_accent_dot_and_the_palette() {
    let rich = theme_list_text("nord", true, &[]);
    // nord's accent is #88c0d0 = 136;192;208, its background #2e3440 = 46;52;64.
    assert!(rich.contains("\x1b[38;2;136;192;208m●\x1b[0m \x1b[1mnord\x1b[0m            "), "{rich:?}");
    assert!(rich.contains("\x1b[48;2;46;52;64m  \x1b[0m"), "{rich:?}");
}

#[test]
fn theme_without_a_name_lists_and_with_one_switches() {
    assert!(matches!(theme_command(&[]), ThemeCommand::List));
    match theme_command(&own(&["nord"])) {
        ThemeCommand::Switch(n) => assert_eq!(n, "nord"),
        _ => panic!("a single name switches"),
    }
    assert!(matches!(theme_command(&own(&["nord", "dark"])), ThemeCommand::Usage));
}

#[test]
fn html_dump_renders_the_file_as_a_whole_page() {
    let assets = PageAssets::new(String::new(), vec![String::new(); page_script_names().len()]).unwrap();
    let page = html_dump_page("/notes/a.md", Some(b"# Hello\n"), None, "", "", "n0", &assets).unwrap();
    assert!(page.contains("<title>a.md</title>"));
    assert!(page.contains("Hello</h1>"));
    assert!(page.contains("nonce-n0"));
}

#[test]
fn html_dump_of_an_unreadable_file_is_nothing() {
    let assets = PageAssets::new(String::new(), vec![String::new(); page_script_names().len()]).unwrap();
    assert!(html_dump_page("/notes/missing.md", None, None, "", "", "n0", &assets).is_none());
}

#[test]
fn every_builtin_keeps_its_line_whatever_is_active_or_overridden() {
    let user = own(&["nord", "mine"]);
    for rich in [false, true] {
        let text = theme_list_text("mine", rich, &user);
        for t in builtin_themes() {
            assert!(text.contains(t.name), "{} missing", t.name);
        }
        assert!(text.contains("mine"));
    }
}
