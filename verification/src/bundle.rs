//! The flat bundle that lets the input method's candidate window appear: next to the path
//! `md` is started from must lie an `Info.plist` naming the executable. The application
//! creates the directory, the link and the file, and starts itself again from there; what
//! the file says, and when an existing one can stay, is decided here.

use vstd::prelude::*;

verus! {

broadcast use vstd::string::group_string_axioms;

/// The executable's name inside the bundle; `CFBundleExecutable` must name it.
pub const BIN_NAME: &'static str = "md";

/// The bundle's `Info.plist`: the executable next to it, and no bundle identifier (with
/// one, WebKit would keep its data under another name and orphan the existing data).
pub const INFO_PLIST: &'static str = "<?xml version=\"1.0\" encoding=\"UTF-8\"?>
<plist version=\"1.0\"><dict>
  <key>CFBundleExecutable</key><string>md</string>
  <key>CFBundleName</key><string>md</string>
  <key>CFBundlePackageType</key><string>APPL</string>
  <key>NSHighResolutionCapable</key><true/>
</dict></plist>
";

/// Whether the `Info.plist` found on disk (none when it cannot be read) can stay as it
/// is: only when it is exactly [`INFO_PLIST`]. Rewriting it on every start would widen the
/// window in which a concurrent install finds it half written.
pub fn plist_is_current(existing: Option<&str>) -> (r: bool)
    ensures
        r == (existing matches Some(t) && t@ == INFO_PLIST@),
{
    match existing {
        Some(t) => crate::text::chars_eq_str(crate::text::chars_of(t).as_slice(), INFO_PLIST),
        None => false,
    }
}

/// Whether the link to the executable (its target, none when it cannot be read) can stay:
/// only when it already points at `exe`, as paths compare (component by component).
pub fn link_is_current(target: Option<&str>, exe: &str) -> (r: bool)
    ensures
        r == (target matches Some(t) && crate::paths::comps(t@) == crate::paths::comps(exe@)),
{
    match target {
        Some(t) => crate::paths::same_path(t, exe),
        None => false,
    }
}

} // verus!
