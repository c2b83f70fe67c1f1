use md_preview::bundle::{link_is_current, plist_is_current, BIN_NAME, INFO_PLIST};

#[test]
fn info_plist_points_at_the_neighbouring_executable() {
    assert!(INFO_PLIST.contains(&format!("<string>{}</string>", BIN_NAME)));
    assert!(INFO_PLIST.contains("CFBundleExecutable"));
    assert!(!INFO_PLIST.contains("CFBundleIdentifier"));
}

#[test]
fn an_up_to_date_bundle_is_left_alone() {
    assert!(plist_is_current(Some(INFO_PLIST)));
    assert!(!plist_is_current(Some("<plist/>")));
    assert!(!plist_is_current(None));
    assert!(link_is_current(Some("/u/.cargo/bin/md"), "/u/.cargo/bin/md"));
    assert!(link_is_current(Some("/u/.cargo//bin/md"), "/u/.cargo/bin/md"));
    assert!(!link_is_current(Some("/u/.cargo/bin/md-old"), "/u/.cargo/bin/md"));
    assert!(!link_is_current(None, "/u/.cargo/bin/md"));
}
