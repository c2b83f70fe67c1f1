use md_preview::uninstall::{
    candidates, cargo_bin, human_size, plan, plan_text, uninstall_flags, is_yes, webkit_dir_is_ours, Target,
};

#[test]
fn sizes_are_readable() {
    assert_eq!(human_size(4), "4B");
    assert_eq!(human_size(4096), "4K");
    assert_eq!(human_size(15 * 1024 * 1024), "15.0M");
}

#[test]
fn sizes_round_like_float_formatting() {
    assert_eq!(human_size(1023), "1023B");
    assert_eq!(human_size(1024), "1K");
    // 1.5 KiB and 2.5 KiB: a tie goes to the even neighbour.
    assert_eq!(human_size(1536), "2K");
    assert_eq!(human_size(2560), "2K");
    assert_eq!(human_size(1024 * 1024 - 1), "1024K");
    assert_eq!(human_size(3 * 1024 * 1024 * 1024 / 2), "1.5G");
    assert_eq!(human_size(u64::MAX), "17179869184.0G");
    for b in [0u64, 1, 999, 1024, 1500, 4096, 65535, 1048575, 1048576, 5_000_000, 1073741823, 1073741824, 9_999_999_999] {
        let k = 1024f64;
        let want = if b < 1024 {
            format!("{}B", b)
        } else if b < 1024 * 1024 {
            format!("{:.0}K", b as f64 / k)
        } else if b < 1024 * 1024 * 1024 {
            format!("{:.1}M", b as f64 / (k * k))
        } else {
            format!("{:.1}G", b as f64 / (k * k * k))
        };
        assert_eq!(human_size(b), want, "{b}");
    }
}

#[test]
fn candidates_are_the_settings_and_webkit_places() {
    let c = candidates("/Users/u", "md");
    assert_eq!(c[0].0, "/Users/u/.config/md-preview");
    assert_eq!(c[1].0, "/Users/u/Library/WebKit/md");
    assert_eq!(c[2].0, "/Users/u/Library/Caches/md");
}

#[test]
fn plan_skips_what_is_not_there_and_lists_what_is() {
    let targets = plan("/h", "md", &[Some(4), None, None], true);
    assert_eq!(targets.len(), 1);
    assert_eq!(targets[0].path, "/h/.config/md-preview");
    assert_eq!(targets[0].bytes, 4);
    assert_eq!(plan("/h", "md", &[Some(4), Some(10), Some(20)], true).len(), 3);
}

#[test]
fn plan_leaves_a_foreign_library_dir_out_entirely() {
    let targets = plan("/h", "md", &[Some(4), Some(10), Some(20)], false);
    assert_eq!(targets.len(), 1);
    let targets = plan("/h", "md", &[None, Some(10), Some(20)], false);
    assert!(targets.is_empty());
}

#[test]
fn webkit_dir_ownership_goes_by_the_recorded_origins() {
    assert!(webkit_dir_is_ours(&[b"\x00\x09mdpreview\x09localhost".to_vec()]));
    assert!(!webkit_dir_is_ours(&[b"\x00\x09https\x09example.com".to_vec()]));
    assert!(webkit_dir_is_ours(&[]));
    assert!(webkit_dir_is_ours(&[b"https".to_vec(), b"mdpreview".to_vec()]));
    assert!(!webkit_dir_is_ours(&[b"mdpreviw".to_vec()]));
}

#[test]
fn plan_text_aligns_on_the_longest_path_and_names_the_binary() {
    let targets = vec![Target { path: "/h/.config/md-preview".to_string(), label: "settings", bytes: 4 }];
    let text = plan_text(&targets, "md-preview", "/h/.cargo/bin/md", 2048);
    let cols: Vec<usize> = text.lines().filter(|l| l.starts_with("  /")).map(|l| l.rfind("   ").unwrap()).collect();
    assert_eq!(cols.len(), 2);
    assert!(cols.windows(2).all(|w| w[0] == w[1]), "{text}");
    assert!(text.contains("cargo uninstall md-preview"));
    assert_eq!(
        text,
        "md が置いたものを消します:\n\n  /h/.config/md-preview      4B   settings\n  /h/.cargo/bin/md           2K   本体（cargo uninstall md-preview で消します）\n"
    );
}

#[test]
fn cargo_bin_follows_cargo_home() {
    assert_eq!(cargo_bin("/h", "md", None), "/h/.cargo/bin/md");
    assert_eq!(cargo_bin("/h", "md", Some("/opt/cargo")), "/opt/cargo/bin/md");
}

#[test]
fn uninstall_takes_one_flag_at_most() {
    let own = |v: &[&str]| v.iter().map(|s| s.to_string()).collect::<Vec<_>>();
    assert_eq!(uninstall_flags(&own(&[])), Some((false, false)));
    assert_eq!(uninstall_flags(&own(&["--dry-run"])), Some((true, false)));
    assert_eq!(uninstall_flags(&own(&["-y"])), Some((false, true)));
    assert_eq!(uninstall_flags(&own(&["--yes"])), Some((false, true)));
    assert_eq!(uninstall_flags(&own(&["--dry-run", "--yes"])), None);
    assert_eq!(uninstall_flags(&own(&["-n"])), None);
}

#[test]
fn only_a_plain_yes_agrees() {
    assert!(is_yes("y\n"));
    assert!(is_yes("  Y  "));
    assert!(is_yes("yes\r\n"));
    assert!(!is_yes(""));
    assert!(!is_yes("\n"));
    assert!(!is_yes("YES"));
    assert!(!is_yes("yep"));
    assert!(!is_yes("n"));
}
