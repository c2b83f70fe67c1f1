//! The terminal side of `md`: the usage text, the theme listing, and the flags of the path
//! that opens a window. None of it touches the window, so all of it is plain text in, plain
//! text out.

use vstd::prelude::*;
use crate::text::{chars_of, chars_eq_str, dec, push_char, push_str, push_usize};
use crate::theme::{
    builtin_themes, builtin_views, hex_rgb_spec, parse_hex_rgb, theme_view, Appearance, Theme, ThemeView,
};

verus! {

broadcast use vstd::string::group_string_axioms;

/// The usage text, shown for `--help` and on a usage error.
pub const USAGE: &'static str = "md - 高速Markdownプレビュー

使い方:
  md <file.md|dir>    ファイルかディレクトリをプレビュー表示します
                      （ウィンドウが開いていれば、そこにタブとして届きます）
  md <a.md> <b.md>…   複数のファイルをタブで開きます（先頭が最初に見えるタブ）
  cat file.md | md    標準入力（パイプ）からMarkdownを読みます
  md theme [<name>]   テーマ一覧を表示、または <name> に切り替えます
  md uninstall        md が置いた設定・データを消し、本体の消し方も案内します

オプション:
  --new-window, -n    既存のウィンドウへ送らず、新しいウィンドウで開きます
  --                  これ以降をフラグとして解釈しません（md -- -n.md）
  --sample            サンプルのMarkdownを標準出力に出します
  --help, -h          このヘルプを表示します
  --version, -V       バージョンを表示します";

/// The flags of the path that opens a window.
pub struct OpenFlags {
    /// `--new-window` / `-n`: open a second window instead of handing the paths to the
    /// running one.
    pub new_window: bool,
}

/// The texts of a list of strings.
pub open spec fn texts(v: Seq<String>) -> Seq<Seq<char>> {
    v.map_values(|s: String| s@)
}

/// An argument that looks like an option: a `-` followed by at least one more character.
/// A bare `-` is a path.
pub open spec fn is_option(a: Seq<char>) -> bool {
    a.len() > 1 && a[0] == '-'
}

/// The error for an option that `md` does not know.
pub open spec fn unknown_option(a: Seq<char>) -> Seq<char> {
    "md: 不明なオプション '"@ + a + "'"@
}

/// The rest of the arguments from `i` on, read with the state so far: whether `--` was seen,
/// whether a new window was asked for, and the paths collected.
pub open spec fn split_from(
    args: Seq<Seq<char>>,
    i: nat,
    only_paths: bool,
    new_window: bool,
    paths: Seq<Seq<char>>,
) -> Result<(bool, Seq<Seq<char>>), Seq<char>>
    decreases args.len() - i,
{
    if i >= args.len() {
        Ok((new_window, paths))
    } else {
        let a = args[i as int];
        if only_paths {
            split_from(args, i + 1, true, new_window, paths.push(a))
        } else if a == "--"@ {
            split_from(args, i + 1, true, new_window, paths)
        } else if a == "-n"@ || a == "--new-window"@ {
            split_from(args, i + 1, false, true, paths)
        } else if is_option(a) {
            Err(unknown_option(a))
        } else {
            split_from(args, i + 1, false, new_window, paths.push(a))
        }
    }
}

/// The arguments of the window path split into the new-window flag and the paths, in
/// order: `-n` and `--new-window` may stand anywhere, everything after `--` is a path, and
/// any other argument that looks like an option is refused.
pub open spec fn split_spec(args: Seq<Seq<char>>) -> Result<(bool, Seq<Seq<char>>), Seq<char>> {
    split_from(args, 0, false, false, seq![])
}

proof fn lemma_all_paths_after(args: Seq<Seq<char>>, i: nat, nw: bool, paths: Seq<Seq<char>>)
    requires
        i <= args.len(),
    ensures
        split_from(args, i, true, nw, paths) == Ok::<(bool, Seq<Seq<char>>), Seq<char>>((nw, paths + args.skip(i as int))),
    decreases args.len() - i,
{
    if i < args.len() {
        lemma_all_paths_after(args, i + 1, nw, paths.push(args[i as int]));
        assert(paths.push(args[i as int]) + args.skip(i + 1 as int) =~= paths + args.skip(i as int));
    } else {
        assert(paths + args.skip(i as int) =~= paths);
    }
}

/// Everything after `--` is a path, whatever it looks like: `md -- -n x` opens the files
/// `-n` and `x` in the running window.
pub proof fn everything_after_the_terminator_is_a_path(rest: Seq<Seq<char>>)
    ensures
        split_spec(seq!["--"@] + rest) == Ok::<(bool, Seq<Seq<char>>), Seq<char>>((false, rest)),
{
    let args = seq!["--"@] + rest;
    assert(args[0] == "--"@);
    lemma_all_paths_after(args, 1, false, seq![]);
    assert(Seq::<Seq<char>>::empty() + args.skip(1) =~= rest);
}

/// Strips the flags from the arguments of the window path and returns the rest as paths
/// (see [`split_spec`]).
pub fn split_open_flags(args: &[String]) -> (r: Result<(OpenFlags, Vec<String>), String>)
    ensures
        match split_spec(texts(args@)) {
            Ok((nw, paths)) => r matches Ok((f, v)) && f.new_window == nw && texts(v@) == paths,
            Err(m) => r matches Err(e) && e@ == m,
        },
{
    let ghost all = texts(args@);
    let mut new_window = false;
    let mut paths: Vec<String> = Vec::new();
    let mut only_paths = false;
    let mut i: usize = 0;
    assert(texts(paths@) =~= Seq::<Seq<char>>::empty());
    while i < args.len()
        invariant
            i <= args.len(),
            all == texts(args@),
            all.len() == args@.len(),
            split_from(all, i as nat, only_paths, new_window, texts(paths@)) == split_spec(all),
        decreases args.len() - i,
    {
        let arg = &args[i];
        let ghost a = all[i as int];
        let ghost p0 = texts(paths@);
        assert(a == arg@);
        let cs = chars_of(arg.as_str());
        if only_paths {
            paths.push(arg.clone());
            assert(texts(paths@) =~= p0.push(a));
        } else if chars_eq_str(cs.as_slice(), "--") {
            only_paths = true;
        } else if chars_eq_str(cs.as_slice(), "-n") || chars_eq_str(cs.as_slice(), "--new-window") {
            new_window = true;
        } else if cs.len() > 1 && cs[0] == '-' {
            let mut m = String::new();
            push_str(&mut m, "md: 不明なオプション '");
            push_str(&mut m, arg.as_str());
            push_str(&mut m, "'");
            return Err(m);
        } else {
            paths.push(arg.clone());
            assert(texts(paths@) =~= p0.push(a));
        }
        i = i + 1;
    }
    Ok((OpenFlags { new_window }, paths))
}

/// Three bytes in decimal, separated by `;` as in an ANSI truecolor sequence.
pub open spec fn rgb_text(v: Seq<u8>) -> Seq<char> {
    dec(v[0] as nat) + ";"@ + dec(v[1] as nat) + ";"@ + dec(v[2] as nat)
}

/// One block of the palette strip: two spaces on the colour's background, nothing for a
/// colour that is not `#rrggbb`.
pub open spec fn swatch_block(hex: Seq<char>) -> Seq<char> {
    match hex_rgb_spec(hex) {
        Some(v) => "\x1b[48;2;"@ + rgb_text(v) + "m  \x1b[0m"@,
        None => seq![],
    }
}

/// The palette strip: the blocks of the colours side by side.
pub open spec fn swatch_strip_spec(hexes: Seq<Seq<char>>) -> Seq<char>
    decreases hexes.len(),
{
    if hexes.len() == 0 {
        seq![]
    } else {
        swatch_strip_spec(hexes.drop_last()) + swatch_block(hexes.last())
    }
}

/// The texts of a list of string slices.
pub open spec fn strs(v: Seq<&str>) -> Seq<Seq<char>> {
    v.map_values(|s: &str| s@)
}

fn push_rgb(s: &mut String, v: [u8; 3])
    ensures
        final(s)@ == old(s)@ + rgb_text(v@),
{
    let ghost s0 = s@;
    let (a, b, c) = (v[0], v[1], v[2]);
    assert(a == v@[0] && b == v@[1] && c == v@[2]);
    push_usize(s, a as usize);
    push_str(s, ";");
    push_usize(s, b as usize);
    push_str(s, ";");
    push_usize(s, c as usize);
    assert(s@ =~= s0 + rgb_text(v@));
}

/// Renders [`swatch_strip_spec`].
fn swatch_strip(hexes: &[&str]) -> (r: String)
    ensures
        r@ == swatch_strip_spec(strs(hexes@)),
{
    let mut s = String::new();
    let mut i: usize = 0;
    while i < hexes.len()
        invariant
            i <= hexes@.len(),
            s@ == swatch_strip_spec(strs(hexes@.take(i as int))),
        decreases hexes@.len() - i,
    {
        let ghost s0 = s@;
        let h: &str = hexes[i];
        match parse_hex_rgb(h) {
            Some(v) => {
                push_str(&mut s, "\x1b[48;2;");
                push_rgb(&mut s, v);
                push_str(&mut s, "m  \x1b[0m");
            },
            None => {},
        }
        proof {
            let next = strs(hexes@.take(i + 1));
            assert(next.drop_last() =~= strs(hexes@.take(i as int)));
            assert(next.last() == h@);
            assert(s@ =~= s0 + swatch_block(h@));
        }
        i = i + 1;
    }
    assert(hexes@.take(i as int) =~= hexes@);
    s
}

/// `n` spaces.
pub open spec fn spaces(n: nat) -> Seq<char> {
    Seq::new(n, |_k: int| ' ')
}

pub(crate) fn push_spaces(s: &mut String, n: usize)
    ensures
        final(s)@ == old(s)@ + spaces(n as nat),
{
    let ghost s0 = s@;
    let mut k: usize = 0;
    while k < n
        invariant
            k <= n,
            s@ == s0 + spaces(k as nat),
        decreases n - k,
    {
        push_char(s, ' ');
        k = k + 1;
        assert(spaces(k as nat) =~= spaces((k - 1) as nat).push(' '));
    }
}

/// How many spaces line a name up in the rich listing: names are padded to 16 characters.
pub open spec fn pad_len(name: Seq<char>) -> nat {
    if name.len() < 16 {
        (16 - name.len()) as nat
    } else {
        0
    }
}

/// The colour of the dot by the active theme: the palette's accent, white when that cannot
/// be read.
pub open spec fn marker_rgb(t: ThemeView) -> Seq<u8> {
    match hex_rgb_spec(t.swatch[2]) {
        Some(v) => v,
        None => seq![255u8, 255u8, 255u8],
    }
}

/// One built-in theme's line of the rich listing: the marker (a dot in the palette's accent
/// colour for the active theme), the name (bold when active) padded to 16 characters, the
/// palette strip, and a note when a user theme of the same name overrides it.
pub open spec fn rich_row(t: ThemeView, is_active: bool, overridden: bool) -> Seq<char> {
    let marker = if is_active {
        "\x1b[38;2;"@ + rgb_text(marker_rgb(t)) + "m●\x1b[0m"@
    } else {
        " "@
    };
    let name = if is_active {
        "\x1b[1m"@ + t.name + "\x1b[0m"@
    } else {
        t.name
    };
    let over = if overridden {
        "  \x1b[2m（ユーザー定義で上書き）\x1b[0m"@
    } else {
        seq![]
    };
    "  "@ + marker + " "@ + name + spaces(pad_len(t.name)) + "  "@ + swatch_strip_spec(t.swatch) + over + "\n"@
}

/// One built-in theme's line of the plain listing: `*` by the active theme, and a note
/// when a user theme of the same name overrides it.
pub open spec fn plain_row(t: ThemeView, is_active: bool, overridden: bool) -> Seq<char> {
    let marker = if is_active {
        "*"@
    } else {
        " "@
    };
    let over = if overridden {
        "  （ユーザー定義で上書き）"@
    } else {
        seq![]
    };
    "  "@ + marker + " "@ + t.name + over + "\n"@
}

/// One built-in theme's line of the listing.
pub open spec fn theme_row(t: ThemeView, active: Seq<char>, rich: bool, user: Seq<Seq<char>>) -> Seq<char> {
    if rich {
        rich_row(t, t.name == active, user.contains(t.name))
    } else {
        plain_row(t, t.name == active, user.contains(t.name))
    }
}

/// The lines of several built-in themes, in order.
pub open spec fn theme_rows(ts: Seq<ThemeView>, active: Seq<char>, rich: bool, user: Seq<Seq<char>>) -> Seq<char>
    decreases ts.len(),
{
    if ts.len() == 0 {
        seq![]
    } else {
        theme_rows(ts.drop_last(), active, rich, user) + theme_row(ts.last(), active, rich, user)
    }
}

/// A group of the listing: its heading and its lines, or nothing for an empty group.
pub open spec fn group_text(
    label: Seq<char>,
    ts: Seq<ThemeView>,
    active: Seq<char>,
    rich: bool,
    user: Seq<Seq<char>>,
) -> Seq<char> {
    if ts.len() == 0 {
        seq![]
    } else {
        (if rich {
            "\n  \x1b[1;2m"@ + label + "\x1b[0m\n"@
        } else {
            "\n"@ + label + "\n"@
        }) + theme_rows(ts, active, rich, user)
    }
}

/// The themes of one appearance, in order.
pub open spec fn with_appearance(ts: Seq<ThemeView>, a: Appearance) -> Seq<ThemeView> {
    ts.filter(|t: ThemeView| t.appearance == a)
}

/// The names of some themes.
pub open spec fn theme_names(ts: Seq<ThemeView>) -> Seq<Seq<char>> {
    ts.map_values(|t: ThemeView| t.name)
}

/// The user themes that are not also built-in names, in order.
pub open spec fn user_only(themes: Seq<ThemeView>, user: Seq<Seq<char>>) -> Seq<Seq<char>> {
    user.filter(|u: Seq<char>| !theme_names(themes).contains(u))
}

/// One user theme's line of the listing.
pub open spec fn user_row(u: Seq<char>, active: Seq<char>, rich: bool) -> Seq<char> {
    let marker = if u == active {
        if rich {
            "\x1b[1m●\x1b[0m"@
        } else {
            "*"@
        }
    } else {
        " "@
    };
    "  "@ + marker + " "@ + u + "\n"@
}

/// The lines of several user themes, in order.
pub open spec fn user_rows(us: Seq<Seq<char>>, active: Seq<char>, rich: bool) -> Seq<char>
    decreases us.len(),
{
    if us.len() == 0 {
        seq![]
    } else {
        user_rows(us.drop_last(), active, rich) + user_row(us.last(), active, rich)
    }
}

/// The user group: its heading and lines, or nothing when every user theme overrides a
/// built-in one.
pub open spec fn user_section(us: Seq<Seq<char>>, active: Seq<char>, rich: bool) -> Seq<char> {
    if us.len() == 0 {
        seq![]
    } else {
        (if rich {
            "\n  \x1b[1;2mユーザー\x1b[0m\n"@
        } else {
            "\nユーザー\n"@
        }) + user_rows(us, active, rich)
    }
}

/// The first line of the listing, naming the active theme.
pub open spec fn list_header(active: Seq<char>, rich: bool) -> Seq<char> {
    if rich {
        "\n  \x1b[1mテーマ\x1b[0m  \x1b[2m· 使用中: "@ + active + "\x1b[0m\n"@
    } else {
        "テーマ（使用中: "@ + active + "）\n"@
    }
}

/// The theme listing: the heading, the light, dark and system-following built-in themes
/// as three groups, then the user themes that override no built-in one.
pub open spec fn theme_list_spec(
    themes: Seq<ThemeView>,
    active: Seq<char>,
    rich: bool,
    user: Seq<Seq<char>>,
) -> Seq<char> {
    list_header(active, rich) + group_text("ライト"@, with_appearance(themes, Appearance::Light), active, rich, user)
        + group_text("ダーク"@, with_appearance(themes, Appearance::Dark), active, rich, user) + group_text(
        "auto · OS設定に追従"@,
        with_appearance(themes, Appearance::Auto),
        active,
        rich,
        user,
    ) + user_section(user_only(themes, user), active, rich)
}

/// The contents of some themes.
pub open spec fn views(v: Seq<Theme>) -> Seq<ThemeView> {
    v.map_values(|t: Theme| theme_view(t))
}

/// Whether `part` stands somewhere in `whole`, as a contiguous run.
pub open spec fn infix_of(part: Seq<char>, whole: Seq<char>) -> bool {
    exists|k: int| 0 <= k && k + part.len() <= whole.len() && #[trigger] whole.subrange(k, k + part.len()) == part
}

proof fn lemma_infix_cat(p: Seq<char>, part: Seq<char>, q: Seq<char>)
    ensures
        infix_of(part, p + part + q),
{
    let w = p + part + q;
    assert(w.subrange(p.len() as int, p.len() + part.len() as int) =~= part);
}

proof fn lemma_infix_trans(a: Seq<char>, b: Seq<char>, c: Seq<char>)
    requires
        infix_of(a, b),
        infix_of(b, c),
    ensures
        infix_of(a, c),
{
    let k1 = choose|k: int| 0 <= k && k + a.len() <= b.len() && #[trigger] b.subrange(k, k + a.len()) == a;
    let k2 = choose|k: int| 0 <= k && k + b.len() <= c.len() && #[trigger] c.subrange(k, k + b.len()) == b;
    assert(c.subrange(k2 + k1, k2 + k1 + a.len()) =~= b.subrange(k1, k1 + a.len()));
}

proof fn lemma_rows_hold_each_row(ts: Seq<ThemeView>, active: Seq<char>, rich: bool, user: Seq<Seq<char>>, i: int)
    requires
        0 <= i < ts.len(),
    ensures
        infix_of(theme_row(ts[i], active, rich, user), theme_rows(ts, active, rich, user)),
    decreases ts.len(),
{
    let init = theme_rows(ts.drop_last(), active, rich, user);
    let last = theme_row(ts.last(), active, rich, user);
    if i == ts.len() - 1 {
        lemma_infix_cat(init, last, seq![]);
        assert(init + last + seq![] =~= theme_rows(ts, active, rich, user));
    } else {
        lemma_rows_hold_each_row(ts.drop_last(), active, rich, user, i);
        lemma_infix_cat(seq![], init, last);
        assert(seq![] + init + last =~= theme_rows(ts, active, rich, user));
        lemma_infix_trans(theme_row(ts[i], active, rich, user), init, theme_rows(ts, active, rich, user));
    }
}

proof fn lemma_group_holds_its_themes(
    label: Seq<char>,
    themes: Seq<ThemeView>,
    a: Appearance,
    active: Seq<char>,
    rich: bool,
    user: Seq<Seq<char>>,
    i: int,
)
    requires
        0 <= i < themes.len(),
        themes[i].appearance == a,
    ensures
        infix_of(theme_row(themes[i], active, rich, user), group_text(label, with_appearance(themes, a), active, rich, user)),
{
    let pred = |t: ThemeView| t.appearance == a;
    themes.lemma_filter_contains(pred, i);
    let ts = with_appearance(themes, a);
    assert(ts == themes.filter(pred));
    let j = choose|j: int| 0 <= j < ts.len() && ts[j] == themes[i];
    lemma_rows_hold_each_row(ts, active, rich, user, j);
    let head = if rich {
        "\n  \x1b[1;2m"@ + label + "\x1b[0m\n"@
    } else {
        "\n"@ + label + "\n"@
    };
    let rows = theme_rows(ts, active, rich, user);
    lemma_infix_cat(head, rows, seq![]);
    assert(head + rows + seq![] =~= group_text(label, ts, active, rich, user));
    lemma_infix_trans(theme_row(themes[i], active, rich, user), rows, group_text(label, ts, active, rich, user));
}

/// The listing shows every built-in theme: each one's line (with its marker for the
/// active theme and its note when a user theme overrides it) stands in it, whatever the
/// active theme and the user themes.
pub proof fn the_theme_list_shows_every_builtin(active: Seq<char>, rich: bool, user: Seq<Seq<char>>, k: int)
    requires
        0 <= k < builtin_views().len(),
    ensures
        infix_of(theme_row(builtin_views()[k], active, rich, user), theme_list_spec(builtin_views(), active, rich, user)),
{
    let themes = builtin_views();
    let t = themes[k];
    let h = list_header(active, rich);
    let gl = group_text("ライト"@, with_appearance(themes, Appearance::Light), active, rich, user);
    let gd = group_text("ダーク"@, with_appearance(themes, Appearance::Dark), active, rich, user);
    let ga = group_text("auto · OS設定に追従"@, with_appearance(themes, Appearance::Auto), active, rich, user);
    let us = user_section(user_only(themes, user), active, rich);
    let whole = theme_list_spec(themes, active, rich, user);
    assert(whole == h + gl + gd + ga + us);
    let row = theme_row(t, active, rich, user);
    match t.appearance {
        Appearance::Light => {
            lemma_group_holds_its_themes("ライト"@, themes, Appearance::Light, active, rich, user, k);
            lemma_infix_cat(h, gl, gd + ga + us);
            assert(h + gl + (gd + ga + us) =~= whole);
            lemma_infix_trans(row, gl, whole);
        },
        Appearance::Dark => {
            lemma_group_holds_its_themes("ダーク"@, themes, Appearance::Dark, active, rich, user, k);
            lemma_infix_cat(h + gl, gd, ga + us);
            assert(h + gl + gd + (ga + us) =~= whole);
            lemma_infix_trans(row, gd, whole);
        },
        Appearance::Auto => {
            lemma_group_holds_its_themes("auto · OS設定に追従"@, themes, Appearance::Auto, active, rich, user, k);
            lemma_infix_cat(h + gl + gd, ga, us);
            assert(h + gl + gd + ga + us =~= whole);
            lemma_infix_trans(row, ga, whole);
        },
    }
}

fn same_text(a: &str, b: &str) -> (r: bool)
    ensures
        r == (a@ == b@),
{
    let v = chars_of(a);
    chars_eq_str(v.as_slice(), b)
}

fn contains_text(names: &[String], name: &str) -> (r: bool)
    ensures
        r == texts(names@).contains(name@),
{
    let mut i: usize = 0;
    while i < names.len()
        invariant
            i <= names@.len(),
            forall|k: int| 0 <= k < i ==> texts(names@)[k] != name@,
        decreases names@.len() - i,
    {
        if same_text(names[i].as_str(), name) {
            assert(texts(names@)[i as int] == name@);
            return true;
        }
        i = i + 1;
    }
    false
}

fn is_builtin_name(themes: &Vec<Theme>, name: &str) -> (r: bool)
    ensures
        r == theme_names(views(themes@)).contains(name@),
{
    let mut i: usize = 0;
    while i < themes.len()
        invariant
            i <= themes@.len(),
            forall|k: int| 0 <= k < i ==> theme_names(views(themes@))[k] != name@,
        decreases themes@.len() - i,
    {
        if same_text(themes[i].name, name) {
            assert(theme_names(views(themes@))[i as int] == name@);
            return true;
        }
        i = i + 1;
    }
    false
}

fn rich_marker(t: &Theme, is_active: bool) -> (r: String)
    ensures
        r@ == (if is_active {
            "\x1b[38;2;"@ + rgb_text(marker_rgb(theme_view(*t))) + "m●\x1b[0m"@
        } else {
            " "@
        }),
{
    let mut s = String::new();
    if is_active {
        let s2: &str = t.swatch[2];
        assert(theme_view(*t).swatch[2] == s2@);
        let rgb = match parse_hex_rgb(s2) {
            Some(v) => v,
            None => {
                let w: [u8; 3] = [255u8, 255u8, 255u8];
                assert(w@ =~= seq![255u8, 255u8, 255u8]);
                w
            },
        };
        assert(rgb@ == marker_rgb(theme_view(*t)));
        push_str(&mut s, "\x1b[38;2;");
        push_rgb(&mut s, rgb);
        push_str(&mut s, "m●\x1b[0m");
    } else {
        push_str(&mut s, " ");
    }
    s
}

#[verifier::spinoff_prover]
#[verifier::rlimit(30)]
fn push_rich_row(s: &mut String, t: &Theme, is_active: bool, overridden: bool)
    ensures
        final(s)@ == old(s)@ + rich_row(theme_view(*t), is_active, overridden),
{
    let marker = rich_marker(t, is_active);
    let mut name = String::new();
    if is_active {
        push_str(&mut name, "\x1b[1m");
        push_str(&mut name, t.name);
        push_str(&mut name, "\x1b[0m");
    } else {
        push_str(&mut name, t.name);
    }
    let mut pad = String::new();
    let n = chars_of(t.name).len();
    if n < 16 {
        push_spaces(&mut pad, 16 - n);
    } else {
        assert(spaces(0) =~= Seq::<char>::empty());
    }
    let strip = swatch_strip(&t.swatch);
    assert(strs(t.swatch@) =~= theme_view(*t).swatch);
    let mut over = String::new();
    if overridden {
        push_str(&mut over, "  \x1b[2m（ユーザー定義で上書き）\x1b[0m");
    }
    push_str(s, "  ");
    push_str(s, marker.as_str());
    push_str(s, " ");
    push_str(s, name.as_str());
    push_str(s, pad.as_str());
    push_str(s, "  ");
    push_str(s, strip.as_str());
    push_str(s, over.as_str());
    push_str(s, "\n");
    assert(s@ =~= old(s)@ + rich_row(theme_view(*t), is_active, overridden));
}

fn push_theme_row(s: &mut String, t: &Theme, active: &str, rich: bool, user: &[String])
    ensures
        final(s)@ == old(s)@ + theme_row(theme_view(*t), active@, rich, texts(user@)),
{
    let ghost tv = theme_view(*t);
    let is_active = same_text(t.name, active);
    let overridden = contains_text(user, t.name);
    if rich {
        push_rich_row(s, t, is_active, overridden);
    } else {
        let ghost s0 = s@;
        push_str(s, "  ");
        if is_active {
            push_str(s, "*");
        } else {
            push_str(s, " ");
        }
        push_str(s, " ");
        push_str(s, t.name);
        if overridden {
            push_str(s, "  （ユーザー定義で上書き）");
        }
        push_str(s, "\n");
        assert(s@ =~= s0 + plain_row(tv, is_active, overridden));
    }
}

fn push_group(
    s: &mut String,
    label: &str,
    themes: &Vec<Theme>,
    which: Appearance,
    active: &str,
    rich: bool,
    user: &[String],
)
    ensures
        final(s)@ == old(s)@ + group_text(label@, with_appearance(views(themes@), which), active@, rich, texts(user@)),
{
    let mut picked: Vec<Theme> = Vec::new();
    let mut i: usize = 0;
    assert(views(themes@.take(0)) =~= Seq::<ThemeView>::empty());
    assert(views(picked@) =~= Seq::<ThemeView>::empty());
    while i < themes.len()
        invariant
            i <= themes@.len(),
            views(picked@) == with_appearance(views(themes@.take(i as int)), which),
        decreases themes@.len() - i,
    {
        let t = themes[i];
        let ghost p0 = views(picked@);
        let ghost next = views(themes@.take(i + 1));
        proof {
            assert(next.drop_last() =~= views(themes@.take(i as int)));
            assert(next.last() == theme_view(t));
            assert(next.len() > 0);
            reveal(Seq::filter);
            assert(with_appearance(next, which) == (if theme_view(t).appearance == which {
                with_appearance(next.drop_last(), which).push(theme_view(t))
            } else {
                with_appearance(next.drop_last(), which)
            }));
        }
        if t.appearance == which {
            picked.push(t);
            assert(views(picked@) =~= p0.push(theme_view(t)));
        }
        assert(views(picked@) == with_appearance(next, which));
        i = i + 1;
    }
    assert(themes@.take(i as int) =~= themes@);
    if picked.len() == 0 {
        assert(s@ =~= old(s)@ + group_text(label@, views(picked@), active@, rich, texts(user@)));
        return;
    }
    if rich {
        push_str(s, "\n  \x1b[1;2m");
        push_str(s, label);
        push_str(s, "\x1b[0m\n");
    } else {
        push_str(s, "\n");
        push_str(s, label);
        push_str(s, "\n");
    }
    let ghost s1 = s@;
    let mut j: usize = 0;
    assert(views(picked@).take(0) =~= Seq::<ThemeView>::empty());
    while j < picked.len()
        invariant
            j <= picked@.len(),
            s@ == s1 + theme_rows(views(picked@).take(j as int), active@, rich, texts(user@)),
        decreases picked@.len() - j,
    {
        push_theme_row(s, &picked[j], active, rich, user);
        proof {
            let next = views(picked@).take(j + 1);
            assert(next.drop_last() =~= views(picked@).take(j as int));
        }
        j = j + 1;
    }
    assert(views(picked@).take(j as int) =~= views(picked@));
    assert(s@ =~= old(s)@ + group_text(label@, views(picked@), active@, rich, texts(user@)));
}

fn push_user_section(s: &mut String, themes: &Vec<Theme>, active: &str, rich: bool, user: &[String])
    ensures
        final(s)@ == old(s)@ + user_section(user_only(views(themes@), texts(user@)), active@, rich),
{
    let ghost names = texts(user@);
    let ghost keep = |u: Seq<char>| !theme_names(views(themes@)).contains(u);
    let mut only: Vec<String> = Vec::new();
    let mut i: usize = 0;
    assert(names.take(0) =~= Seq::<Seq<char>>::empty());
    assert(texts(only@) =~= Seq::<Seq<char>>::empty());
    while i < user.len()
        invariant
            i <= user@.len(),
            names == texts(user@),
            keep == (|u: Seq<char>| !theme_names(views(themes@)).contains(u)),
            texts(only@) == names.take(i as int).filter(keep),
        decreases user@.len() - i,
    {
        let ghost p0 = texts(only@);
        let u = &user[i];
        let ghost next = names.take(i + 1);
        proof {
            assert(next.drop_last() =~= names.take(i as int));
            assert(next.last() == u@);
            assert(next.len() > 0);
            reveal(Seq::filter);
            assert(next.filter(keep) == (if keep(u@) {
                next.drop_last().filter(keep).push(u@)
            } else {
                next.drop_last().filter(keep)
            }));
        }
        if !is_builtin_name(themes, u.as_str()) {
            only.push(u.clone());
            assert(texts(only@) =~= p0.push(u@));
        }
        assert(texts(only@) == next.filter(keep));
        i = i + 1;
    }
    assert(names.take(i as int) =~= names);
    assert(texts(only@) == user_only(views(themes@), names));
    if only.len() == 0 {
        return;
    }
    if rich {
        push_str(s, "\n  \x1b[1;2mユーザー\x1b[0m\n");
    } else {
        push_str(s, "\nユーザー\n");
    }
    let ghost s1 = s@;
    let mut j: usize = 0;
    assert(texts(only@).take(0) =~= Seq::<Seq<char>>::empty());
    while j < only.len()
        invariant
            j <= only@.len(),
            s@ == s1 + user_rows(texts(only@).take(j as int), active@, rich),
        decreases only@.len() - j,
    {
        let ghost s2 = s@;
        let u = only[j].as_str();
        let is_active = same_text(u, active);
        push_str(s, "  ");
        if is_active {
            if rich {
                push_str(s, "\x1b[1m●\x1b[0m");
            } else {
                push_str(s, "*");
            }
        } else {
            push_str(s, " ");
        }
        push_str(s, " ");
        push_str(s, u);
        push_str(s, "\n");
        proof {
            let next = texts(only@).take(j + 1);
            assert(next.drop_last() =~= texts(only@).take(j as int));
            assert(next.last() == u@);
            assert(s@ =~= s2 + user_row(u@, active@, rich));
        }
        j = j + 1;
    }
    assert(texts(only@).take(j as int) =~= texts(only@));
    assert(s@ =~= old(s)@ + user_section(texts(only@), active@, rich));
}

/// The theme listing (see [`theme_list_spec`]) for the active theme `active` and the user
/// themes `user` (the names of the user's theme files, as the application found them):
/// with colours and palette strips for a terminal (`rich`), as plain lines for a pipe.
pub fn theme_list_text(active: &str, rich: bool, user: &[String]) -> (r: String)
    ensures
        r@ == theme_list_spec(builtin_views(), active@, rich, texts(user@)),
{
    let themes = builtin_themes();
    assert(views(themes@) =~= builtin_views());
    let mut s = String::new();
    if rich {
        push_str(&mut s, "\n  \x1b[1mテーマ\x1b[0m  \x1b[2m· 使用中: ");
        push_str(&mut s, active);
        push_str(&mut s, "\x1b[0m\n");
    } else {
        push_str(&mut s, "テーマ（使用中: ");
        push_str(&mut s, active);
        push_str(&mut s, "）\n");
    }
    push_group(&mut s, "ライト", &themes, Appearance::Light, active, rich, user);
    push_group(&mut s, "ダーク", &themes, Appearance::Dark, active, rich, user);
    push_group(&mut s, "auto · OS設定に追従", &themes, Appearance::Auto, active, rich, user);
    push_user_section(&mut s, &themes, active, rich, user);
    assert(s@ =~= theme_list_spec(builtin_views(), active@, rich, texts(user@)));
    s
}

/// What `md theme` is asked to do: list the themes, switch to one, or (with more than one
/// argument) print its usage.
#[derive(Debug, PartialEq, Eq)]
pub enum ThemeCommand {
    List,
    Switch(String),
    Usage,
}

/// The `md theme` command for the arguments after `theme`.
pub fn theme_command(rest: &[String]) -> (r: ThemeCommand)
    ensures
        rest@.len() == 0 ==> r == ThemeCommand::List,
        rest@.len() == 1 ==> (r matches ThemeCommand::Switch(n) && n@ == rest@[0]@),
        rest@.len() > 1 ==> r == ThemeCommand::Usage,
{
    if rest.len() == 0 {
        ThemeCommand::List
    } else if rest.len() == 1 {
        ThemeCommand::Switch(rest[0].clone())
    } else {
        ThemeCommand::Usage
    }
}

/// The page `md --html <file>` prints: the file rendered as the preview shows it, in a
/// whole page titled with its file name (`Markdown Preview` without one), its links
/// resolved against its own directory. None when the file could not be read.
pub open spec fn html_dump_spec(
    path: Seq<char>,
    contents: Option<Seq<u8>>,
    files: Option<Seq<crate::embed::EmbedFileView>>,
    theme_css: Seq<char>,
    custom_css: Seq<char>,
    nonce: Seq<char>,
    base_css: Seq<char>,
    scripts: Seq<(Seq<char>, Seq<char>)>,
) -> Option<Seq<char>> {
    let root = match crate::app_config::parent_text(path) {
        Some(p) => p,
        None => "."@,
    };
    match crate::request::render_file_spec(path, root, crate::request::ViewMode::Normal, contents, files) {
        None => None,
        Some((_k, h, c)) => Some(crate::page::page_spec(h, crate::request::page_title(path), theme_css, custom_css, c, nonce, base_css, scripts)),
    }
}

/// The page `md --html <file>` prints (see [`html_dump_spec`]).
pub fn html_dump_page(
    path: &str,
    contents: Option<&[u8]>,
    files: Option<&Vec<crate::embed::EmbedFile>>,
    theme_css: &str,
    custom_css: &str,
    nonce: &str,
    assets: &crate::page::PageAssets,
) -> (r: Option<String>)
    ensures
        match html_dump_spec(path@, match contents { Some(b) => Some(b@), None => None }, crate::markdown::opt_files_view(files),
            theme_css@, custom_css@, nonce@, assets.base_css_view(), assets.scripts_view()) {
            Some(p) => r matches Some(x) && x@ == p,
            None => r is None,
        },
{
    let root = match crate::paths::parent_path(path) {
        Some(p) => p,
        None => {
            let mut d = String::new();
            push_str(&mut d, ".");
            d
        },
    };
    let rendered = crate::request::render_file(path, root.as_str(), crate::request::ViewMode::Normal, contents, files);
    match rendered {
        None => None,
        Some(rf) => {
            let title = match crate::paths::file_name_of(path) {
                Some(n) => crate::text::string_of(n.as_slice()),
                None => {
                    let mut t = String::new();
                    push_str(&mut t, "Markdown Preview");
                    t
                },
            };
            Some(crate::page::build_html(rf.html.as_str(), title.as_str(), theme_css, custom_css, rf.body_class, nonce, assets))
        },
    }
}

} // verus!
