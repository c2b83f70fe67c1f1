//! Themes: the built-in ones with their appearance and palette, name checks, resolving a
//! name (a user theme first, else a built-in one, else the default theme), the window's
//! background before the page paints, and the switchable style layer. The stylesheets
//! themselves and the user's theme files are read by the application.

use vstd::prelude::*;
use vstd::utf8::*;
use crate::text::{chars_of, push_str, string_of};

verus! {

broadcast use vstd::string::group_string_axioms;

/// Whether a theme keeps one appearance or follows the system's.
#[derive(Clone, Copy, PartialEq, Eq, Debug, Structural)]
pub enum Appearance {
    Light,
    Dark,
    Auto,
}

impl Appearance {
    /// The tag given to the page as `window.MD_APPEARANCE`.
    pub fn as_str(self) -> (r: &'static str)
        ensures
            r@ == (match self {
                Appearance::Light => "light"@,
                Appearance::Dark => "dark"@,
                Appearance::Auto => "auto"@,
            }),
    {
        match self {
            Appearance::Light => "light",
            Appearance::Dark => "dark",
            Appearance::Auto => "auto",
        }
    }
}

/// A built-in theme: its name, appearance, and palette `[bg, fg, accent, accent2,
/// accent3]`. For a theme with a fixed appearance, `bg` is also the window's background.
#[derive(Clone, Copy, Debug)]
pub struct Theme {
    pub name: &'static str,
    pub appearance: Appearance,
    pub swatch: [&'static str; 5],
}

/// The content of a [`Theme`].
pub struct ThemeView {
    pub name: Seq<char>,
    pub appearance: Appearance,
    pub swatch: Seq<Seq<char>>,
}

/// The content of a theme.
pub open spec fn theme_view(t: Theme) -> ThemeView {
    ThemeView { name: t.name@, appearance: t.appearance, swatch: t.swatch@.map_values(|s: &str| s@) }
}

/// The built-in themes, in listing order.
pub open spec fn builtin_names() -> Seq<Seq<char>> {
    seq![
        "default"@, "minimal"@, "editorial"@, "ink"@, "paper"@, "mono"@, "solarized-light"@, "nord"@, "dracula"@,
        "gruvbox"@, "rose-pine"@, "terminal"@, "blueprint"@,
    ]
}

/// The palettes of the built-in themes, in listing order.
pub open spec fn builtin_swatches() -> Seq<Seq<Seq<char>>> {
    seq![
        seq!["#ffffff"@, "#1f2328"@, "#3b82f6"@, "#1a7f37"@, "#cf222e"@],
        seq!["#ffffff"@, "#37352f"@, "#2e7cd6"@, "#2f9e44"@, "#e03131"@],
        seq!["#fffefb"@, "#1a1a1a"@, "#8a1c1c"@, "#3a6ea5"@, "#a9761f"@],
        seq!["#ffffff"@, "#000000"@, "#000000"@, "#ebebeb"@, "#ffeb3b"@],
        seq!["#faf6ee"@, "#33302a"@, "#1f6f6b"@, "#2a6f8c"@, "#9b3b2c"@],
        seq!["#f7f5ef"@, "#2b2a26"@, "#9b2c2c"@, "#3a5a8c"@, "#3a6b3a"@],
        seq!["#fdf6e3"@, "#657b83"@, "#268bd2"@, "#859900"@, "#dc322f"@],
        seq!["#2e3440"@, "#d8dee9"@, "#88c0d0"@, "#a3be8c"@, "#bf616a"@],
        seq!["#282a36"@, "#f8f8f2"@, "#bd93f9"@, "#8be9fd"@, "#ff79c6"@],
        seq!["#282828"@, "#ebdbb2"@, "#fe8019"@, "#83a598"@, "#b8bb26"@],
        seq!["#191724"@, "#e0def4"@, "#c4a7e7"@, "#9ccfd8"@, "#eb6f92"@],
        seq!["#0b0f0b"@, "#6ee787"@, "#b9f6c7"@, "#ffe066"@, "#ff6b6b"@],
        seq!["#0e2a4a"@, "#cfe3f5"@, "#6fb3e0"@, "#7fd7c4"@, "#ffffff"@],
    ]
}

/// The appearance of the built-in theme at `k` in listing order: the first follows the
/// system, the next six are light, the last six dark.
pub open spec fn builtin_appearance(k: int) -> Appearance {
    if k == 0 {
        Appearance::Auto
    } else if k < 7 {
        Appearance::Light
    } else {
        Appearance::Dark
    }
}

/// The content of the built-in theme at `k` in listing order.
pub open spec fn builtin_view(k: int) -> ThemeView {
    ThemeView { name: builtin_names()[k], appearance: builtin_appearance(k), swatch: builtin_swatches()[k] }
}

/// The built-in themes, in listing order.
pub open spec fn builtin_views() -> Seq<ThemeView> {
    Seq::new(13, |k: int| builtin_view(k))
}

fn theme(name: &'static str, appearance: Appearance, swatch: [&'static str; 5]) -> (r: Theme)
    ensures
        r.name == name,
        r.appearance == appearance,
        r.swatch == swatch,
        theme_view(r) == (ThemeView {
            name: name@,
            appearance,
            swatch: seq![swatch[0]@, swatch[1]@, swatch[2]@, swatch[3]@, swatch[4]@],
        }),
{
    let r = Theme { name, appearance, swatch };
    assert(theme_view(r).swatch =~= seq![swatch[0]@, swatch[1]@, swatch[2]@, swatch[3]@, swatch[4]@]);
    r
}

/// The built-in themes, in listing order (see [`builtin_views`]): `default` follows the
/// system, six are light, six are dark.
pub fn builtin_themes() -> (r: Vec<Theme>)
    ensures
        r@.len() == 13,
        forall|k: int| 0 <= k < 13 ==> (#[trigger] r@[k]).name@ == builtin_names()[k],
        forall|k: int| 0 <= k < 13 ==> (#[trigger] r@[k]).appearance == builtin_appearance(k),
        forall|k: int| 0 <= k < 13 ==> theme_view(#[trigger] r@[k]) == builtin_view(k),
{
    let mut v: Vec<Theme> = Vec::new();
    v.push(theme("default", Appearance::Auto, ["#ffffff", "#1f2328", "#3b82f6", "#1a7f37", "#cf222e"]));
    v.push(theme("minimal", Appearance::Light, ["#ffffff", "#37352f", "#2e7cd6", "#2f9e44", "#e03131"]));
    v.push(theme("editorial", Appearance::Light, ["#fffefb", "#1a1a1a", "#8a1c1c", "#3a6ea5", "#a9761f"]));
    v.push(theme("ink", Appearance::Light, ["#ffffff", "#000000", "#000000", "#ebebeb", "#ffeb3b"]));
    v.push(theme("paper", Appearance::Light, ["#faf6ee", "#33302a", "#1f6f6b", "#2a6f8c", "#9b3b2c"]));
    v.push(theme("mono", Appearance::Light, ["#f7f5ef", "#2b2a26", "#9b2c2c", "#3a5a8c", "#3a6b3a"]));
    v.push(theme("solarized-light", Appearance::Light, ["#fdf6e3", "#657b83", "#268bd2", "#859900", "#dc322f"]));
    v.push(theme("nord", Appearance::Dark, ["#2e3440", "#d8dee9", "#88c0d0", "#a3be8c", "#bf616a"]));
    v.push(theme("dracula", Appearance::Dark, ["#282a36", "#f8f8f2", "#bd93f9", "#8be9fd", "#ff79c6"]));
    v.push(theme("gruvbox", Appearance::Dark, ["#282828", "#ebdbb2", "#fe8019", "#83a598", "#b8bb26"]));
    v.push(theme("rose-pine", Appearance::Dark, ["#191724", "#e0def4", "#c4a7e7", "#9ccfd8", "#eb6f92"]));
    v.push(theme("terminal", Appearance::Dark, ["#0b0f0b", "#6ee787", "#b9f6c7", "#ffe066", "#ff6b6b"]));
    v.push(theme("blueprint", Appearance::Dark, ["#0e2a4a", "#cfe3f5", "#6fb3e0", "#7fd7c4", "#ffffff"]));
    assert(forall|k: int| 0 <= k < 13 ==> theme_view(#[trigger] v@[k]) == builtin_view(k));
    v
}

/// Whether `c` is an ASCII letter or digit, `-` or `_`.
pub open spec fn name_char(c: char) -> bool {
    ('a' <= c && c <= 'z') || ('A' <= c && c <= 'Z') || ('0' <= c && c <= '9') || c == '-' || c == '_'
}

/// A theme name is a non-empty identifier of letters, digits, `-` and `_`, so it can never
/// climb out of the theme directory.
pub open spec fn valid_name_spec(name: Seq<char>) -> bool {
    name.len() > 0 && forall|k: int| 0 <= k < name.len() ==> name_char(#[trigger] name[k])
}

/// Renders [`valid_name_spec`].
pub fn valid_name(name: &str) -> (r: bool)
    ensures
        r == valid_name_spec(name@),
{
    let v = chars_of(name);
    if v.len() == 0 {
        return false;
    }
    let mut k: usize = 0;
    while k < v.len()
        invariant
            k <= v@.len(),
            v@ == name@,
            forall|q: int| 0 <= q < k ==> name_char(#[trigger] v@[q]),
        decreases v@.len() - k,
    {
        let c = v[k];
        if !(('a' <= c && c <= 'z') || ('A' <= c && c <= 'Z') || ('0' <= c && c <= '9') || c == '-' || c == '_') {
            assert(!name_char(v@[k as int]));
            return false;
        }
        k = k + 1;
    }
    true
}

/// The built-in theme called `name`, if there is one.
pub fn builtin(name: &str) -> (r: Option<Theme>)
    ensures
        r is Some <==> exists|k: int| 0 <= k < 13 && builtin_names()[k] == name@,
        r matches Some(t) ==> t.name@ == name@ && exists|k: int|
            0 <= k < 13 && builtin_names()[k] == name@ && theme_view(t) == builtin_view(k),
{
    let all = builtin_themes();
    let v = chars_of(name);
    let mut k: usize = 0;
    while k < all.len()
        invariant
            k <= all@.len(),
            all@.len() == 13,
            v@ == name@,
            forall|q: int| 0 <= q < 13 ==> (#[trigger] all@[q]).name@ == builtin_names()[q],
            forall|q: int| 0 <= q < 13 ==> theme_view(#[trigger] all@[q]) == builtin_view(q),
            forall|q: int| 0 <= q < k ==> builtin_names()[q] != name@,
        decreases all@.len() - k,
    {
        if crate::text::chars_eq_str(v.as_slice(), all[k].name) {
            assert(theme_view(all@[k as int]) == builtin_view(k as int));
            return Some(all[k]);
        }
        k = k + 1;
    }
    None
}

/// The theme unknown names fall back to.
pub fn default_theme() -> (r: Theme)
    ensures
        r.name@ == "default"@,
        r.appearance == Appearance::Auto,
        theme_view(r) == builtin_view(0),
{
    let all = builtin_themes();
    all[0]
}

/// Whether a theme called `name` exists: a user theme (`user_css` is what the
/// application read for it, none if there is no such file) under a valid name, or a
/// built-in one.
pub fn theme_exists(name: &str, user_css: Option<&str>) -> (r: bool)
    ensures
        r == ((user_css is Some && valid_name_spec(name@)) || exists|k: int| 0 <= k < 13 && builtin_names()[k] == name@),
{
    (user_css.is_some() && valid_name(name)) || builtin(name).is_some()
}

/// A theme name resolved: the user's stylesheet when a user theme is used (else the
/// built-in theme's stylesheet is meant), the appearance, the built-in theme (none for a
/// user theme), and whether the name was unknown and the default theme stands in.
pub struct Resolved {
    pub user_css: Option<String>,
    pub appearance: Appearance,
    pub theme: Option<Theme>,
    pub fell_back: bool,
}

/// Resolves a theme name: a user theme (its stylesheet is `user_css`, read by the
/// application for a valid name) follows the system; else the built-in theme of that
/// name; else the default theme, noting the fallback.
pub fn resolve(name: &str, user_css: Option<String>) -> (r: Resolved)
    ensures
        (user_css is Some && valid_name_spec(name@)) ==> r.user_css == user_css && r.appearance == Appearance::Auto
            && r.theme is None && !r.fell_back,
        !(user_css is Some && valid_name_spec(name@)) ==> r.user_css is None && r.theme is Some && (match r.theme {
            Some(t) => r.appearance == t.appearance && (if exists|k: int| 0 <= k < 13 && builtin_names()[k] == name@ {
                t.name@ == name@ && !r.fell_back && exists|k: int|
                    0 <= k < 13 && builtin_names()[k] == name@ && theme_view(t) == builtin_view(k)
            } else {
                t.name@ == "default"@ && r.fell_back && theme_view(t) == builtin_view(0)
            }),
            None => false,
        }),
{
    if user_css.is_some() && valid_name(name) {
        return Resolved { user_css, appearance: Appearance::Auto, theme: None, fell_back: false };
    }
    match builtin(name) {
        Some(t) => Resolved { user_css: None, appearance: t.appearance, theme: Some(t), fell_back: false },
        None => {
            let d = default_theme();
            Resolved { user_css: None, appearance: d.appearance, theme: Some(d), fell_back: true }
        },
    }
}

/// The window background of system-following themes on a light system.
pub const AUTO_LIGHT_BG: [u8; 3] = [0xff, 0xff, 0xff];

/// The window background of system-following themes on a dark system.
pub const AUTO_DARK_BG: [u8; 3] = [0x0d, 0x11, 0x17];

/// The value of a hexadecimal digit byte.
pub open spec fn hex_digit(b: u8) -> Option<u8> {
    crate::urlpath::hex_value(b)
}

/// Two bytes read as `u8::from_str_radix(.., 16)`: two hexadecimal digits, or `+` and one.
pub open spec fn byte_pair(a: u8, b: u8) -> Option<u8> {
    if hex_digit(a) is Some && hex_digit(b) is Some {
        Some((hex_digit(a).unwrap() * 16 + hex_digit(b).unwrap()) as u8)
    } else if a == 43u8 && hex_digit(b) is Some {
        hex_digit(b)
    } else {
        None
    }
}

/// `#rrggbb` read as three bytes.
pub open spec fn hex_rgb_spec(hex: Seq<char>) -> Option<Seq<u8>> {
    let b = encode_utf8(hex);
    if b.len() != 7 || b[0] != 35u8 {
        None
    } else {
        match (byte_pair(b[1], b[2]), byte_pair(b[3], b[4]), byte_pair(b[5], b[6])) {
            (Some(r), Some(g), Some(bl)) => Some(seq![r, g, bl]),
            _ => None,
        }
    }
}

fn pair_value(a: u8, b: u8) -> (r: Option<u8>)
    ensures
        r == byte_pair(a, b),
{
    match (crate::urlpath::from_hex(a), crate::urlpath::from_hex(b)) {
        (Some(x), Some(y)) => {
            assert(x * 16 + y < 256) by (nonlinear_arith)
                requires
                    x < 16,
                    y < 16,
            ;
            Some(x * 16 + y)
        },
        (None, Some(y)) => if a == 43u8 { Some(y) } else { None },
        _ => None,
    }
}

/// Renders [`hex_rgb_spec`].
pub fn parse_hex_rgb(hex: &str) -> (r: Option<[u8; 3]>)
    ensures
        match hex_rgb_spec(hex@) {
            Some(v) => r matches Some(a) && a@ == v,
            None => r is None,
        },
{
    let b = hex.as_bytes();
    if b.len() != 7 || b[0] != 35u8 {
        return None;
    }
    let r = match pair_value(b[1], b[2]) {
        Some(x) => x,
        None => return None,
    };
    let g = match pair_value(b[3], b[4]) {
        Some(x) => x,
        None => return None,
    };
    let bl = match pair_value(b[5], b[6]) {
        Some(x) => x,
        None => return None,
    };
    let out = [r, g, bl];
    assert(out@ =~= seq![r, g, bl]);
    Some(out)
}

/// The window's background before the page paints. A theme with a fixed appearance uses
/// its palette's background (its own appearance's default pair when that cannot be read);
/// a system-following theme, or a user theme (`None`), uses the pair for the system's
/// appearance, and none when that is unknown.
pub open spec fn window_bg_spec(theme: Option<ThemeView>, os_dark: Option<bool>) -> Option<Seq<u8>> {
    match theme {
        Some(t) if t.appearance != Appearance::Auto => match hex_rgb_spec(t.swatch[0]) {
            Some(v) => Some(v),
            None => Some(if t.appearance == Appearance::Dark { seq![0x0du8, 0x11u8, 0x17u8] } else { seq![0xffu8, 0xffu8, 0xffu8] }),
        },
        _ => match os_dark {
            None => None,
            Some(d) => Some(if d { seq![0x0du8, 0x11u8, 0x17u8] } else { seq![0xffu8, 0xffu8, 0xffu8] }),
        },
    }
}

/// Renders [`window_bg_spec`].
pub fn window_bg(theme: Option<&Theme>, os_dark: Option<bool>) -> (r: Option<[u8; 3]>)
    ensures
        match window_bg_spec(match theme { Some(t) => Some(theme_view(*t)), None => None }, os_dark) {
            Some(v) => r matches Some(a) && a@ == v,
            None => r is None,
        },
{
    let dark: [u8; 3] = [0x0d, 0x11, 0x17];
    let light: [u8; 3] = [0xff, 0xff, 0xff];
    assert(dark@ =~= seq![0x0du8, 0x11u8, 0x17u8]);
    assert(light@ =~= seq![0xffu8, 0xffu8, 0xffu8]);
    match theme {
        Some(t) => {
            if t.appearance != Appearance::Auto {
                let s0: &str = t.swatch[0];
                assert(theme_view(*t).swatch[0] == s0@);
                return match parse_hex_rgb(s0) {
                    Some(v) => Some(v),
                    None => Some(if t.appearance == Appearance::Dark { dark } else { light }),
                };
            }
        },
        None => {},
    }
    match os_dark {
        None => None,
        Some(d) => Some(if d { dark } else { light }),
    }
}

/// The switchable style layer: the highlighting stylesheet for the appearance (both, the
/// dark one under `prefers-color-scheme: dark`, for a system-following theme), then the
/// theme's paint.
pub open spec fn style_layer_spec(appearance: Appearance, paint: Seq<char>, hljs_light: Seq<char>, hljs_dark: Seq<char>) -> Seq<char> {
    let hljs = match appearance {
        Appearance::Light => hljs_light,
        Appearance::Dark => hljs_dark,
        Appearance::Auto => hljs_light + "\n@media(prefers-color-scheme:dark){"@ + hljs_dark + "}"@,
    };
    hljs + "\n"@ + paint
}

/// Renders [`style_layer_spec`] with the light and dark highlighting stylesheets given.
pub fn style_layer(appearance: Appearance, paint: &str, hljs_light: &str, hljs_dark: &str) -> (r: String)
    ensures
        r@ == style_layer_spec(appearance, paint@, hljs_light@, hljs_dark@),
{
    let mut r = String::new();
    match appearance {
        Appearance::Light => push_str(&mut r, hljs_light),
        Appearance::Dark => push_str(&mut r, hljs_dark),
        Appearance::Auto => {
            push_str(&mut r, hljs_light);
            push_str(&mut r, "\n@media(prefers-color-scheme:dark){");
            push_str(&mut r, hljs_dark);
            push_str(&mut r, "}");
        },
    }
    push_str(&mut r, "\n");
    push_str(&mut r, paint);
    r
}


// ── the user's themes ───────────────────────────────────────────────────────

/// The theme a file in the theme directory stands for: `<name>.css` under a valid name.
pub open spec fn css_stem(f: Seq<char>) -> Option<Seq<char>> {
    if f.len() > 4 && f.skip(f.len() - 4) == ".css"@ && valid_name_spec(f.take(f.len() - 4)) {
        Some(f.take(f.len() - 4))
    } else {
        None
    }
}

fn css_stem_of(f: &str) -> (r: Option<String>)
    ensures
        match css_stem(f@) {
            Some(t) => r matches Some(s) && s@ == t,
            None => r is None,
        },
{
    let v = chars_of(f);
    let n = v.len();
    if n <= 4 {
        return None;
    }
    proof {
        reveal_strlit(".css");
    }
    if !(v[n - 4] == '.' && v[n - 3] == 'c' && v[n - 2] == 's' && v[n - 1] == 's') {
        proof {
            if v@.skip(n - 4) == ".css"@ {
                assert(v@.skip(n - 4)[0] == v@[n - 4]);
                assert(v@.skip(n - 4)[1] == v@[n - 3]);
                assert(v@.skip(n - 4)[2] == v@[n - 2]);
                assert(v@.skip(n - 4)[3] == v@[n - 1]);
            }
        }
        return None;
    }
    assert(v@.skip(n - 4) =~= ".css"@);
    let stem = string_of(crate::text::slice_to_vec(v.as_slice(), 0, n - 4).as_slice());
    assert(stem@ =~= v@.take(n - 4));
    if valid_name(stem.as_str()) {
        Some(stem)
    } else {
        None
    }
}

/// The user's theme names from the file names in the theme directory (as the application
/// listed them): each `<name>.css` with a valid name, sorted, each name once.
pub fn user_theme_names(file_names: &[String]) -> (r: Vec<String>)
    ensures
        crate::names::sorted_texts(crate::names::texts_of(r@)),
        forall|i: int| 0 <= i < r@.len() - 1 ==> (#[trigger] r@[i])@ != r@[i + 1]@,
        forall|t: Seq<char>| crate::names::texts_of(r@).contains(t) <==> exists|k: int|
            0 <= k < file_names@.len() && css_stem(#[trigger] file_names@[k]@) == Some(t),
{
    let mut stems: Vec<String> = Vec::new();
    let mut i: usize = 0;
    while i < file_names.len()
        invariant
            i <= file_names@.len(),
            forall|t: Seq<char>| crate::names::texts_of(stems@).contains(t) <==> exists|k: int|
                0 <= k < i && css_stem(#[trigger] file_names@[k]@) == Some(t),
        decreases file_names@.len() - i,
    {
        let ghost s0 = crate::names::texts_of(stems@);
        match css_stem_of(file_names[i].as_str()) {
            Some(t) => {
                stems.push(t);
                proof {
                    let s1 = crate::names::texts_of(stems@);
                    assert(s1 =~= s0.push(t@));
                    assert forall|u: Seq<char>| s1.contains(u) <==> exists|k: int|
                        0 <= k < i + 1 && css_stem(#[trigger] file_names@[k]@) == Some(u) by {
                        if s1.contains(u) {
                            let j = choose|j: int| 0 <= j < s1.len() && s1[j] == u;
                            if j == s0.len() {
                                assert(css_stem(file_names@[i as int]@) == Some(u));
                            } else {
                                assert(s0[j] == u);
                                assert(s0.contains(u));
                            }
                        }
                        if exists|k: int| 0 <= k < i + 1 && css_stem(#[trigger] file_names@[k]@) == Some(u) {
                            let k = choose|k: int| 0 <= k < i + 1 && css_stem(#[trigger] file_names@[k]@) == Some(u);
                            if k == i {
                                assert(s1[s0.len() as int] == u);
                            } else {
                                assert(s0.contains(u));
                                let j = choose|j: int| 0 <= j < s0.len() && s0[j] == u;
                                assert(s1[j] == u);
                            }
                        }
                    }
                }
            },
            None => {
                proof {
                    assert(crate::names::texts_of(stems@) == s0);
                    assert forall|u: Seq<char>| s0.contains(u) <==> exists|k: int|
                        0 <= k < i + 1 && css_stem(#[trigger] file_names@[k]@) == Some(u) by {
                        if exists|k: int| 0 <= k < i + 1 && css_stem(#[trigger] file_names@[k]@) == Some(u) {
                            let k = choose|k: int| 0 <= k < i + 1 && css_stem(#[trigger] file_names@[k]@) == Some(u);
                            assert(k != i);
                        }
                    }
                }
            },
        }
        i = i + 1;
    }
    let sorted = crate::names::sort_strings(stems);
    let ghost st = crate::names::texts_of(sorted@);
    proof {
        assert forall|u: Seq<char>| st.contains(u) <==> crate::names::texts_of(stems@).contains(u) by {
            vstd::seq_lib::to_multiset_contains(st, u);
            vstd::seq_lib::to_multiset_contains(crate::names::texts_of(stems@), u);
        }
    }
    let out = dedup_sorted(&sorted);
    proof {
        assert forall|u: Seq<char>| crate::names::texts_of(out@).contains(u) <==> exists|k: int|
            0 <= k < file_names@.len() && css_stem(#[trigger] file_names@[k]@) == Some(u) by {
            assert(st.contains(u) <==> crate::names::texts_of(stems@).contains(u));
        }
    }
    out
}

/// `v` (sorted) with each run of equal strings kept once (`Vec::dedup`).
fn dedup_sorted(v: &Vec<String>) -> (r: Vec<String>)
    requires
        crate::names::sorted_texts(crate::names::texts_of(v@)),
    ensures
        crate::names::sorted_texts(crate::names::texts_of(r@)),
        forall|i: int| 0 <= i < r@.len() - 1 ==> (#[trigger] r@[i])@ != r@[i + 1]@,
        forall|u: Seq<char>| crate::names::texts_of(r@).contains(u) <==> crate::names::texts_of(v@).contains(u),
{
    let ghost st = crate::names::texts_of(v@);
    let mut out: Vec<String> = Vec::new();
    let mut j: usize = 0;
    while j < v.len()
        invariant
            j <= v@.len(),
            st == crate::names::texts_of(v@),
            crate::names::sorted_texts(st),
            crate::names::sorted_texts(crate::names::texts_of(out@)),
            forall|q: int| 0 <= q < out@.len() - 1 ==> (#[trigger] out@[q])@ != out@[q + 1]@,
            j > 0 ==> out@.len() > 0 && out@[out@.len() - 1]@ == st[j - 1],
            j == 0 ==> out@.len() == 0,
            forall|u: Seq<char>| crate::names::texts_of(out@).contains(u) <==> st.take(j as int).contains(u),
        decreases v@.len() - j,
    {
        let ghost o0 = crate::names::texts_of(out@);
        let x = &v[j];
        assert(st[j as int] == x@);
        let same = if out.len() > 0 {
            let last = &out[out.len() - 1];
            crate::text::chars_eq_str(chars_of(last.as_str()).as_slice(), x.as_str())
        } else {
            false
        };
        proof {
            assert(st.take(j + 1) =~= st.take(j as int).push(st[j as int]));
        }
        if !same {
            out.push(x.clone());
            proof {
                let o1 = crate::names::texts_of(out@);
                assert(o1 =~= o0.push(x@));
                lemma_push_sorted(o0, x@);
                assert forall|q: int| 0 <= q < out@.len() - 1 implies (#[trigger] out@[q])@ != out@[q + 1]@ by {
                    if q == out@.len() - 2 {
                        assert(out@[q]@ == o1[q]);
                    } else {
                        assert(out@[q]@ == o0[q]);
                        assert(out@[q + 1]@ == o0[q + 1]);
                    }
                }
                lemma_contains_push(o0, st.take(j as int), x@);
            }
        } else {
            proof {
                assert(crate::names::texts_of(out@) == o0);
                assert(o0[o0.len() - 1] == x@);
                lemma_contains_dup(o0, st.take(j as int), x@);
            }
        }
        j = j + 1;
    }
    assert(st.take(j as int) =~= st);
    out
}

proof fn lemma_push_sorted(o: Seq<Seq<char>>, x: Seq<char>)
    requires
        crate::names::sorted_texts(o),
        o.len() > 0 ==> crate::names::text_le(o[o.len() - 1], x),
    ensures
        crate::names::sorted_texts(o.push(x)),
{
    let o1 = o.push(x);
    assert forall|q: int| 0 <= q < o1.len() - 1 implies crate::names::text_le(#[trigger] o1[q], o1[q + 1]) by {
        if q < o1.len() - 2 {
            assert(o1[q] == o[q] && o1[q + 1] == o[q + 1]);
        }
    }
}

proof fn lemma_contains_push(o: Seq<Seq<char>>, s: Seq<Seq<char>>, x: Seq<char>)
    requires
        forall|u: Seq<char>| o.contains(u) <==> s.contains(u),
    ensures
        forall|u: Seq<char>| o.push(x).contains(u) <==> s.push(x).contains(u),
{
    assert forall|u: Seq<char>| o.push(x).contains(u) <==> s.push(x).contains(u) by {
        if o.push(x).contains(u) {
            let q = choose|q: int| 0 <= q < o.push(x).len() && o.push(x)[q] == u;
            if q == o.len() {
                assert(s.push(x)[s.len() as int] == u);
            } else {
                assert(o[q] == u);
                assert(s.contains(u));
                let w = choose|w: int| 0 <= w < s.len() && s[w] == u;
                assert(s.push(x)[w] == u);
            }
        }
        if s.push(x).contains(u) {
            let w = choose|w: int| 0 <= w < s.push(x).len() && s.push(x)[w] == u;
            if w == s.len() {
                assert(o.push(x)[o.len() as int] == u);
            } else {
                assert(s[w] == u);
                assert(o.contains(u));
                let q = choose|q: int| 0 <= q < o.len() && o[q] == u;
                assert(o.push(x)[q] == u);
            }
        }
    }
}

proof fn lemma_contains_dup(o: Seq<Seq<char>>, s: Seq<Seq<char>>, x: Seq<char>)
    requires
        forall|u: Seq<char>| o.contains(u) <==> s.contains(u),
        o.len() > 0,
        o[o.len() - 1] == x,
    ensures
        forall|u: Seq<char>| o.contains(u) <==> s.push(x).contains(u),
{
    assert forall|u: Seq<char>| o.contains(u) <==> s.push(x).contains(u) by {
        if o.contains(u) {
            assert(s.contains(u));
            let w = choose|w: int| 0 <= w < s.len() && s[w] == u;
            assert(s.push(x)[w] == u);
        }
        if s.push(x).contains(u) {
            let w = choose|w: int| 0 <= w < s.push(x).len() && s.push(x)[w] == u;
            if w == s.len() {
                assert(o[o.len() - 1] == u);
            } else {
                assert(s[w] == u);
            }
        }
    }
}

/// The active theme's name from the contents of its settings file (none when there is no
/// such file): the contents trimmed, `default` when that leaves nothing.
pub fn active_name(contents: Option<&str>) -> (r: String)
    ensures
        r@ == (match contents {
            Some(c) => if crate::markdown::trim(c@).len() > 0 {
                crate::markdown::trim(c@)
            } else {
                "default"@
            },
            None => "default"@,
        }),
{
    match contents {
        Some(c) => {
            let t = crate::markdown::trimmed(chars_of(c).as_slice());
            if t.len() > 0 {
                return string_of(t.as_slice());
            }
        },
        None => {},
    }
    let mut s = String::new();
    push_str(&mut s, "default");
    s
}

} // verus!
