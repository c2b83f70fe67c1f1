use md_preview::theme::{
    active_name, user_theme_names,
    builtin, builtin_themes, default_theme, parse_hex_rgb, resolve, style_layer, theme_exists, valid_name, window_bg,
    Appearance, Theme, AUTO_DARK_BG, AUTO_LIGHT_BG,
};

fn resolve_style_layer(name: &str) -> String {
    let r = resolve(name, None);
    style_layer(r.appearance, "/* paint */", "/* hljs light */", "/* hljs dark */")
}

/// Every background colour that a `body { ... }` block of `css` sets.
fn body_bgs(css: &str) -> Vec<String> {
    let mut out = Vec::new();
    let mut rest = css;
    while let Some(i) = rest.find("body {") {
        let is_own_selector = i == 0
            || !matches!(rest.as_bytes()[i - 1],
                b'a'..=b'z' | b'A'..=b'Z' | b'0'..=b'9' | b'-' | b'_' | b'.' | b'#');
        let after = &rest[i + "body {".len()..];
        let Some(end) = after.find('}') else { break };
        if is_own_selector {
            for line in after[..end].lines() {
                if let Some(v) = line.trim().strip_prefix("background-color:") {
                    out.push(v.trim().trim_end_matches(';').to_string());
                }
            }
        }
        rest = &after[end..];
    }
    out
}

#[test]
fn auto_theme_keeps_os_following_syntax_highlight() {
    assert!(resolve_style_layer("default").contains("prefers-color-scheme"));
}

#[test]
fn fixed_themes_have_no_os_dependent_syntax_highlight() {
    for name in [
        "minimal", "editorial", "ink", "paper", "mono", "solarized-light",
        "nord", "dracula", "gruvbox", "rose-pine", "terminal", "blueprint",
    ] {
        assert!(!resolve_style_layer(name).contains("prefers-color-scheme"), "{name} leaked a prefers-color-scheme rule");
    }
}

#[test]
fn unknown_theme_falls_back_to_default() {
    assert!(resolve_style_layer("nope-not-real").contains("prefers-color-scheme"));
}

#[test]
fn auto_window_bg_matches_the_default_theme_body() {
    let d = default_theme();
    assert_eq!(window_bg(Some(&d), Some(false)), Some([0xff, 0xff, 0xff]));
    assert_eq!(window_bg(Some(&d), Some(true)), Some([0x0d, 0x11, 0x17]));
}

#[test]
fn only_the_default_theme_follows_the_os() {
    let autos: Vec<&str> =
        builtin_themes().iter().filter(|t| t.appearance == Appearance::Auto).map(|t| t.name).collect();
    assert_eq!(autos, ["default"]);
}

#[test]
fn body_bgs_ignores_other_selectors() {
    let css = ".markdown-body {\n  background-color: #111111;\n}\nbody {\n  background-color: #222222;\n}\n";
    assert_eq!(body_bgs(css), vec!["#222222".to_string()]);
}

#[test]
fn broken_fixed_theme_swatch_falls_back_to_its_own_appearance() {
    let broken = Theme { name: "broken", appearance: Appearance::Dark, swatch: ["nope", "", "", "", ""] };
    assert_eq!(window_bg(Some(&broken), None), Some(AUTO_DARK_BG));
    assert_eq!(window_bg(Some(&broken), Some(false)), Some(AUTO_DARK_BG));
}

#[test]
fn every_builtin_swatch_bg_parses() {
    for t in builtin_themes() {
        assert!(parse_hex_rgb(t.swatch[0]).is_some(), "{}", t.name);
    }
}

#[test]
fn fixed_theme_window_bg_needs_no_os_setting() {
    for os_dark in [Some(true), Some(false), None] {
        assert_eq!(window_bg(builtin("nord").as_ref(), os_dark), Some([0x2e, 0x34, 0x40]));
        assert_eq!(window_bg(builtin("minimal").as_ref(), os_dark), Some([0xff, 0xff, 0xff]));
    }
}

#[test]
fn user_themes_follow_the_os_pair() {
    assert_eq!(window_bg(None, Some(true)), Some(AUTO_DARK_BG));
    assert_eq!(window_bg(None, Some(false)), Some(AUTO_LIGHT_BG));
}

#[test]
fn os_following_themes_give_up_when_the_os_is_unknown() {
    assert_eq!(window_bg(builtin("default").as_ref(), None), None);
    assert_eq!(window_bg(None, None), None);
}

#[test]
fn unknown_theme_resolves_to_the_default_theme_itself() {
    let r = resolve("nope-not-real", None);
    assert_eq!(r.theme.map(|t| t.name), Some("default"));
    assert_eq!(r.appearance, Appearance::Auto);
    assert!(r.fell_back);
}

#[test]
fn malformed_swatch_is_rejected() {
    assert_eq!(parse_hex_rgb("#0d1117"), Some([0x0d, 0x11, 0x17]));
    assert_eq!(parse_hex_rgb("0d1117"), None);
    assert_eq!(parse_hex_rgb("#0d11"), None);
    assert_eq!(parse_hex_rgb("#gggggg"), None);
    assert_eq!("ああ".len(), 6);
    assert_eq!(parse_hex_rgb("#ああ"), None);
}

#[test]
fn traversal_names_are_rejected() {
    assert!(!valid_name("../../etc/passwd"));
    assert!(!valid_name("foo/bar"));
    assert!(!valid_name("foo.bar"));
    assert!(valid_name("my-theme_2"));
}

#[test]
fn a_user_theme_under_a_valid_name_wins_and_follows_the_os() {
    let r = resolve("mine", Some("body{}".to_string()));
    assert_eq!(r.user_css.as_deref(), Some("body{}"));
    assert_eq!(r.appearance, Appearance::Auto);
    assert!(r.theme.is_none());
    // A name that could climb out of the theme directory is never a user theme.
    let r = resolve("../x", Some("body{}".to_string()));
    assert!(r.user_css.is_none());
    assert!(r.fell_back);
}

#[test]
fn theme_exists_checks_user_and_builtin_names() {
    assert!(theme_exists("nord", None));
    assert!(theme_exists("mine", Some("")));
    assert!(!theme_exists("mine", None));
    assert!(!theme_exists("foo/bar", Some("")));
}

#[test]
fn style_layer_orders_highlighting_before_paint() {
    assert_eq!(style_layer(Appearance::Dark, "P", "L", "D"), "D\nP");
    assert_eq!(style_layer(Appearance::Light, "P", "L", "D"), "L\nP");
    assert_eq!(style_layer(Appearance::Auto, "P", "L", "D"), "L\n@media(prefers-color-scheme:dark){D}\nP");
    assert_eq!(Appearance::Auto.as_str(), "auto");
}

#[test]
fn user_theme_names_are_valid_css_stems_sorted_once() {
    let files: Vec<String> = ["zeta.css", "alpha.css", "notes.txt", ".css", "a.b.css", "Beta.css", "x.CSS", "alpha.css", "my-theme_2.css"]
        .iter()
        .map(|s| s.to_string())
        .collect();
    assert_eq!(user_theme_names(&files), vec!["Beta", "alpha", "my-theme_2", "zeta"]);
}

#[test]
fn the_active_name_defaults_when_unset() {
    assert_eq!(active_name(None), "default");
    assert_eq!(active_name(Some("  \n")), "default");
    assert_eq!(active_name(Some(" nord\n")), "nord");
}
