//! `md uninstall`: what `md` left on disk, and the listing shown before it goes. The binary
//! itself is left to `cargo uninstall`, which keeps its own record of what it installed.
//!
//! The application looks at the disk (which of the places exist, how large they are, the
//! origins recorded under the WebKit directory) and removes what the user agrees to; what
//! is listed, and how, is decided here.

use vstd::prelude::*;
use crate::cli::{push_spaces, spaces};
use crate::paths::{join, join_spec};
use crate::text::{chars_of, dec, push_str, push_u64};

verus! {

broadcast use vstd::string::group_string_axioms;

/// One place to remove: where it is, what it is (what removing it costs), and its size.
pub struct Target {
    pub path: String,
    pub label: &'static str,
    pub bytes: u64,
}

/// The content of a [`Target`].
pub struct TargetView {
    pub path: Seq<char>,
    pub label: Seq<char>,
    pub bytes: nat,
}

/// The content of a target.
pub open spec fn target_view(t: Target) -> TargetView {
    TargetView { path: t.path@, label: t.label@, bytes: t.bytes as nat }
}

/// The places `md` may have left something, with their labels: the settings directory,
/// then WebKit's data and cache directories, which are named after the executable.
pub open spec fn candidates_spec(home: Seq<char>, exe_name: Seq<char>) -> Seq<(Seq<char>, Seq<char>)> {
    seq![
        (join_spec(home, ".config/md-preview"@), "テーマ設定・ユーザー CSS・IME 用のバンドル"@),
        (join_spec(join_spec(home, "Library/WebKit"@), exe_name), "UI の状態（オンボーディング済みフラグなど）"@),
        (join_spec(join_spec(home, "Library/Caches"@), exe_name), "WebKit のキャッシュ"@),
    ]
}

/// The places `md` may have left something (see [`candidates_spec`]).
pub fn candidates(home: &str, exe_name: &str) -> (r: Vec<(String, &'static str)>)
    ensures
        r@.len() == 3,
        forall|k: int| 0 <= k < 3 ==> (#[trigger] r@[k]).0@ == candidates_spec(home@, exe_name@)[k].0 && r@[k].1@
            == candidates_spec(home@, exe_name@)[k].1,
{
    let mut v: Vec<(String, &'static str)> = Vec::new();
    v.push((join(home, ".config/md-preview"), "テーマ設定・ユーザー CSS・IME 用のバンドル"));
    let webkit = join(home, "Library/WebKit");
    v.push((join(webkit.as_str(), exe_name), "UI の状態（オンボーディング済みフラグなど）"));
    let caches = join(home, "Library/Caches");
    v.push((join(caches.as_str(), exe_name), "WebKit のキャッシュ"));
    v
}

/// The place `k` as a target when it is listed: it exists (`sizes[k]` is its size), and for
/// WebKit's two places, the data directory is `md`'s own.
pub open spec fn plan_piece(home: Seq<char>, exe_name: Seq<char>, sizes: Seq<Option<u64>>, ours: bool, k: int) -> Seq<TargetView> {
    if sizes[k] is Some && (k == 0 || ours) {
        seq![
            TargetView {
                path: candidates_spec(home, exe_name)[k].0,
                label: candidates_spec(home, exe_name)[k].1,
                bytes: sizes[k]->Some_0 as nat,
            },
        ]
    } else {
        seq![]
    }
}

/// The targets to list, in the order of [`candidates_spec`]: those that exist, leaving out
/// WebKit's places unless they are `md`'s own. The cache directory goes by the data
/// directory's owner, since one name decides both.
pub open spec fn plan_spec(home: Seq<char>, exe_name: Seq<char>, sizes: Seq<Option<u64>>, ours: bool) -> Seq<TargetView> {
    plan_piece(home, exe_name, sizes, ours, 0) + plan_piece(home, exe_name, sizes, ours, 1) + plan_piece(
        home,
        exe_name,
        sizes,
        ours,
        2,
    )
}

/// The targets to list (see [`plan_spec`]): `sizes` holds, for each place of
/// [`candidates`], its size when it exists; `ours` is [`webkit_dir_is_ours`] of the WebKit
/// data directory.
pub fn plan(home: &str, exe_name: &str, sizes: &[Option<u64>], ours: bool) -> (r: Vec<Target>)
    requires
        sizes@.len() == 3,
    ensures
        r@.map_values(|t: Target| target_view(t)) == plan_spec(home@, exe_name@, sizes@, ours),
{
    let places = candidates(home, exe_name);
    let mut out: Vec<Target> = Vec::new();
    let mut k: usize = 0;
    assert(out@.map_values(|t: Target| target_view(t)) =~= Seq::<TargetView>::empty());
    while k < 3
        invariant
            k <= 3,
            sizes@.len() == 3,
            places@.len() == 3,
            forall|q: int| 0 <= q < 3 ==> (#[trigger] places@[q]).0@ == candidates_spec(home@, exe_name@)[q].0
                && places@[q].1@ == candidates_spec(home@, exe_name@)[q].1,
            out@.map_values(|t: Target| target_view(t)) == (if k == 0 {
                Seq::<TargetView>::empty()
            } else if k == 1 {
                plan_piece(home@, exe_name@, sizes@, ours, 0)
            } else if k == 2 {
                plan_piece(home@, exe_name@, sizes@, ours, 0) + plan_piece(home@, exe_name@, sizes@, ours, 1)
            } else {
                plan_spec(home@, exe_name@, sizes@, ours)
            }),
        decreases 3 - k,
    {
        let ghost before = out@.map_values(|t: Target| target_view(t));
        if k == 0 || ours {
            match sizes[k] {
                Some(bytes) => {
                    let path = crate::text::string_of(chars_of(places[k].0.as_str()).as_slice());
                    out.push(Target { path, label: places[k].1, bytes });
                    assert(out@.map_values(|t: Target| target_view(t)) =~= before + plan_piece(home@, exe_name@, sizes@,
                        ours, k as int));
                },
                None => {
                    assert(before =~= before + plan_piece(home@, exe_name@, sizes@, ours, k as int));
                },
            }
        } else {
            assert(before =~= before + plan_piece(home@, exe_name@, sizes@, ours, k as int));
        }
        k = k + 1;
    }
    out
}

/// The bytes of `mdpreview`, the scheme `md` serves its pages from.
pub open spec fn scheme_bytes() -> Seq<u8> {
    seq![109u8, 100u8, 112u8, 114u8, 101u8, 118u8, 105u8, 101u8, 119u8]
}

/// Whether a recorded origin names `md`'s scheme: `mdpreview` occurs in its bytes.
pub open spec fn names_our_scheme(b: Seq<u8>) -> bool {
    exists|i: int| 0 <= i && i + 9 <= b.len() && #[trigger] b.subrange(i, i + 9) == scheme_bytes()
}

fn has_scheme_at(b: &[u8], i: usize) -> (r: bool)
    requires
        i + 9 <= b@.len(),
    ensures
        r == (b@.subrange(i as int, i + 9) == scheme_bytes()),
{
    let len = b.len();
    let want: [u8; 9] = [109u8, 100u8, 112u8, 114u8, 101u8, 118u8, 105u8, 101u8, 119u8];
    assert(want@ =~= scheme_bytes());
    let mut k: usize = 0;
    while k < 9
        invariant
            k <= 9,
            i + 9 <= b@.len(),
            len == b@.len(),
            want@ == scheme_bytes(),
            forall|q: int| 0 <= q < k ==> b@[i + q] == want@[q],
        decreases 9 - k,
    {
        let at: usize = i + k;
        if b[at] != want[k] {
            assert(b@.subrange(i as int, i + 9)[k as int] != scheme_bytes()[k as int]);
            return false;
        }
        k = k + 1;
    }
    assert(b@.subrange(i as int, i + 9) =~= scheme_bytes());
    true
}

fn names_scheme(b: &[u8]) -> (r: bool)
    ensures
        r == names_our_scheme(b@),
{
    if b.len() < 9 {
        return false;
    }
    let mut i: usize = 0;
    while i <= b.len() - 9
        invariant
            b@.len() >= 9,
            i <= b@.len() - 8,
            forall|q: int| 0 <= q < i ==> #[trigger] b@.subrange(q, q + 9) != scheme_bytes(),
        decreases b@.len() - i,
    {
        if has_scheme_at(b, i) {
            return true;
        }
        i = i + 1;
    }
    false
}

/// Whether WebKit's data directory is `md`'s own, judged by the origins recorded under it:
/// it is when none are recorded (there is nothing to lose either way) or one of them names
/// `md`'s scheme. A directory of another program called `md`, holding only other origins,
/// is left alone.
pub fn webkit_dir_is_ours(origins: &[Vec<u8>]) -> (r: bool)
    ensures
        r == (origins@.len() == 0 || exists|k: int| 0 <= k < origins@.len() && names_our_scheme(#[trigger] origins@[k]@)),
{
    if origins.len() == 0 {
        return true;
    }
    let mut k: usize = 0;
    while k < origins.len()
        invariant
            k <= origins@.len(),
            forall|q: int| 0 <= q < k ==> !names_our_scheme(#[trigger] origins@[q]@),
        decreases origins@.len() - k,
    {
        if names_scheme(origins[k].as_slice()) {
            assert(names_our_scheme(origins@[k as int]@));
            return true;
        }
        k = k + 1;
    }
    false
}

// ── sizes ───────────────────────────────────────────────────────────────────

/// `n / d` rounded to the nearest integer, a tie going to the even one.
pub open spec fn round_half_even(n: nat, d: nat) -> nat
    recommends
        d > 0,
{
    let q = n / d;
    let r = n % d;
    if 2 * r > d || (2 * r == d && q % 2 == 1) {
        q + 1
    } else {
        q
    }
}

/// The spacing of doubles around `b`: 1 below 2^53, doubling with each binade above.
pub open spec fn f64_unit(b: nat) -> nat
    decreases b,
{
    if b < 0x20_0000_0000_0000 {
        1
    } else {
        2 * f64_unit(b / 2)
    }
}

/// `b as f64`: `b` rounded to the nearest double, a tie going to the even one.
pub open spec fn as_f64(b: nat) -> nat {
    round_half_even(b, f64_unit(b)) * f64_unit(b)
}

/// A count of tenths written with one decimal.
pub open spec fn tenths(t: nat) -> Seq<char> {
    dec(t / 10) + "."@ + dec(t % 10)
}

/// A size made readable: bytes below 1 KiB, whole KiB below 1 MiB, MiB and GiB with one
/// decimal; fractions rounded to nearest as the formatting of a double does (ties to even).
pub open spec fn human_size_spec(b: nat) -> Seq<char> {
    if b < 1024 {
        dec(b) + "B"@
    } else if b < 1024 * 1024 {
        dec(round_half_even(b, 1024)) + "K"@
    } else if b < 1024 * 1024 * 1024 {
        tenths(round_half_even(10 * b, 1024 * 1024)) + "M"@
    } else {
        tenths(round_half_even(10 * as_f64(b), 1024 * 1024 * 1024)) + "G"@
    }
}

fn rounded(n: u128, d: u128) -> (r: u128)
    requires
        d > 0,
        n < 0x1_0000_0000_0000_0000_0000_0000_0000_0000 - 1,
    ensures
        r == round_half_even(n as nat, d as nat),
        r <= n / d + 1,
        r <= n,
{
    let q = n / d;
    let r = n % d;
    proof {
        vstd::arithmetic::div_mod::lemma_fundamental_div_mod(n as int, d as int);
        assert(q <= n) by (nonlinear_arith)
            requires
                q == n / d,
                d > 0,
        ;
    }
    if r > d - r || (r == d - r && q % 2 == 1) {
        proof {
            assert(q + 1 <= n) by (nonlinear_arith)
                requires
                    n == d * q + r,
                    r > 0,
                    d > 0,
                    q >= 0,
            ;
        }
        q + 1
    } else {
        q
    }
}

fn f64_round(b: u64) -> (r: u128)
    ensures
        r == as_f64(b as nat),
        r <= 0x1_0000_0000_0000_1000,
{
    let mut m: u64 = b;
    let mut unit: u64 = 1;
    while m >= 0x20_0000_0000_0000
        invariant
            unit >= 1,
            m as int == b as int / unit as int,
            f64_unit(b as nat) == unit * f64_unit(m as nat),
            unit * m <= b,
            unit <= 0x1000,
        decreases m,
    {
        proof {
            assert(unit < 0x800) by (nonlinear_arith)
                requires
                    unit * m <= b,
                    m >= 0x20_0000_0000_0000,
                    b < 0x1_0000_0000_0000_0000,
            ;
            vstd::arithmetic::div_mod::lemma_div_denominator(b as int, unit as int, 2);
            assert(unit * 0x20_0000_0000_0000 <= unit * m) by (nonlinear_arith)
                requires
                    m >= 0x20_0000_0000_0000,
                    unit >= 1,
            ;
            assert(f64_unit(b as nat) == unit * (2 * f64_unit((m / 2) as nat)));
            assert(unit * (2 * f64_unit((m / 2) as nat)) == (unit * 2) * f64_unit((m / 2) as nat)) by (nonlinear_arith);
            assert((unit * 2) * (m / 2) <= unit * m) by (nonlinear_arith)
                requires
                    unit >= 1,
            ;
        }
        m = m / 2;
        unit = unit * 2;
    }
    assert(f64_unit(m as nat) == 1);
    assert(f64_unit(b as nat) == unit as nat) by (nonlinear_arith)
        requires
            f64_unit(b as nat) == unit * f64_unit(m as nat),
            f64_unit(m as nat) == 1,
    ;
    let u: u128 = unit as u128;
    let q = rounded(b as u128, u);
    proof {
        let bi = b as int;
        let ui = u as int;
        vstd::arithmetic::div_mod::lemma_fundamental_div_mod(bi, ui);
        assert(q * u <= b + u) by (nonlinear_arith)
            requires
                q == round_half_even(bi as nat, ui as nat),
                ui >= 1,
                bi == ui * (bi / ui) + bi % ui,
                0 <= bi % ui < ui,
                ui == u,
                bi == b,
        ;
    }
    q * u
}

/// A size made readable (see [`human_size_spec`]): `4.0K`, `15.0M` and the like.
pub fn human_size(bytes: u64) -> (r: String)
    ensures
        r@ == human_size_spec(bytes as nat),
{
    let mut s = String::new();
    if bytes < 1024 {
        push_u64(&mut s, bytes);
        push_str(&mut s, "B");
    } else if bytes < 1024 * 1024 {
        let q = rounded(bytes as u128, 1024);
        push_u64(&mut s, q as u64);
        push_str(&mut s, "K");
    } else if bytes < 1024 * 1024 * 1024 {
        let t = rounded(10 * (bytes as u128), 1024 * 1024);
        push_tenths(&mut s, t as u64);
        push_str(&mut s, "M");
    } else {
        let b = f64_round(bytes);
        let t = rounded(10 * b, 1024 * 1024 * 1024);
        let ghost n: int = 10 * b;
        assert(t < 0x1_0000_0000_0000_0000) by (nonlinear_arith)
            requires
                t <= n / 0x4000_0000int + 1,
                n <= 10 * 0x1_0000_0000_0000_1000int,
                n >= 0,
        ;
        push_tenths(&mut s, t as u64);
        push_str(&mut s, "G");
    }
    s
}

fn push_tenths(s: &mut String, t: u64)
    ensures
        final(s)@ == old(s)@ + tenths(t as nat),
{
    push_u64(s, t / 10);
    push_str(s, ".");
    push_u64(s, t % 10);
}

// ── the listing ─────────────────────────────────────────────────────────────

/// One line of the listing: the path padded to `width` characters, the size right-aligned
/// in six, then the label.
pub open spec fn plan_line(path: Seq<char>, size: Seq<char>, label: Seq<char>, width: nat) -> Seq<char> {
    "  "@ + path + spaces((width - path.len()) as nat) + "  "@ + spaces(
        if size.len() < 6 {
            (6 - size.len()) as nat
        } else {
            0
        },
    ) + size + "   "@ + label + "\n"@
}

/// The longest path among the targets and the binary, in characters.
pub open spec fn path_width(ts: Seq<TargetView>, bin: Seq<char>) -> nat
    decreases ts.len(),
{
    if ts.len() == 0 {
        bin.len()
    } else {
        let w = path_width(ts.drop_last(), bin);
        if ts.last().path.len() > w {
            ts.last().path.len()
        } else {
            w
        }
    }
}

/// The lines of the targets, in order.
pub open spec fn target_lines(ts: Seq<TargetView>, width: nat) -> Seq<char>
    decreases ts.len(),
{
    if ts.len() == 0 {
        seq![]
    } else {
        target_lines(ts.drop_last(), width) + plan_line(ts.last().path, human_size_spec(ts.last().bytes), ts.last().label, width)
    }
}

/// The listing shown before anything is removed (and for `--dry-run`): a heading, then one
/// line per target and a last one for the binary, which `cargo uninstall <crate>` removes;
/// the size column lines up after the longest path.
pub open spec fn plan_text_spec(ts: Seq<TargetView>, crate_name: Seq<char>, bin: Seq<char>, bin_bytes: nat) -> Seq<char> {
    let width = path_width(ts, bin);
    "md が置いたものを消します:\n\n"@ + target_lines(ts, width) + plan_line(
        bin,
        human_size_spec(bin_bytes),
        "本体（cargo uninstall "@ + crate_name + " で消します）"@,
        width,
    )
}

fn push_line(s: &mut String, path: &str, size: &str, label: &str, width: usize)
    requires
        path@.len() <= width,
    ensures
        final(s)@ == old(s)@ + plan_line(path@, size@, label@, width as nat),
{
    let ghost s0 = s@;
    let pl = chars_of(path).len();
    let sl = chars_of(size).len();
    push_str(s, "  ");
    push_str(s, path);
    push_spaces(s, width - pl);
    push_str(s, "  ");
    if sl < 6 {
        push_spaces(s, 6 - sl);
    } else {
        push_spaces(s, 0);
    }
    push_str(s, size);
    push_str(s, "   ");
    push_str(s, label);
    push_str(s, "\n");
    assert(s@ =~= s0 + plan_line(path@, size@, label@, width as nat));
}

/// The listing (see [`plan_text_spec`]); `bin_bytes` is the binary's size.
pub fn plan_text(targets: &[Target], crate_name: &str, bin: &str, bin_bytes: u64) -> (r: String)
    ensures
        r@ == plan_text_spec(targets@.map_values(|t: Target| target_view(t)), crate_name@, bin@, bin_bytes as nat),
{
    let ghost tv = targets@.map_values(|t: Target| target_view(t));
    let mut width: usize = chars_of(bin).len();
    let mut k: usize = 0;
    assert(tv.take(0) =~= Seq::<TargetView>::empty());
    while k < targets.len()
        invariant
            k <= targets@.len(),
            tv == targets@.map_values(|t: Target| target_view(t)),
            width == path_width(tv.take(k as int), bin@),
            forall|q: int| 0 <= q < k ==> tv[q].path.len() <= width,
            bin@.len() <= width,
        decreases targets@.len() - k,
    {
        assert(tv.take(k + 1).drop_last() =~= tv.take(k as int));
        let n = chars_of(targets[k].path.as_str()).len();
        if n > width {
            width = n;
        }
        k = k + 1;
    }
    assert(tv.take(k as int) =~= tv);
    let mut s = String::new();
    push_str(&mut s, "md が置いたものを消します:\n\n");
    let ghost s1 = s@;
    let mut j: usize = 0;
    while j < targets.len()
        invariant
            j <= targets@.len(),
            tv == targets@.map_values(|t: Target| target_view(t)),
            forall|q: int| 0 <= q < tv.len() ==> tv[q].path.len() <= width,
            s@ == s1 + target_lines(tv.take(j as int), width as nat),
        decreases targets@.len() - j,
    {
        let t = &targets[j];
        assert(tv[j as int].path == t.path@);
        let size = human_size(t.bytes);
        push_line(&mut s, t.path.as_str(), size.as_str(), t.label, width);
        assert(tv.take(j + 1).drop_last() =~= tv.take(j as int));
        j = j + 1;
    }
    assert(tv.take(j as int) =~= tv);
    let mut label = String::new();
    push_str(&mut label, "本体（cargo uninstall ");
    push_str(&mut label, crate_name);
    push_str(&mut label, " で消します）");
    let size = human_size(bin_bytes);
    push_line(&mut s, bin, size.as_str(), label.as_str(), width);
    s
}

/// Where `cargo uninstall` removes the binary from: `bin/<exe_name>` under `cargo_home`
/// (the `CARGO_HOME` setting), or under `~/.cargo` without one.
pub open spec fn cargo_bin_spec(home: Seq<char>, exe_name: Seq<char>, cargo_home: Option<Seq<char>>) -> Seq<char> {
    let base = match cargo_home {
        Some(c) => c,
        None => join_spec(home, ".cargo"@),
    };
    join_spec(join_spec(base, "bin"@), exe_name)
}

/// Where `cargo uninstall` removes the binary from (see [`cargo_bin_spec`]).
pub fn cargo_bin(home: &str, exe_name: &str, cargo_home: Option<&str>) -> (r: String)
    ensures
        r@ == cargo_bin_spec(home@, exe_name@, match cargo_home {
            Some(c) => Some(c@),
            None => None,
        }),
{
    let base = match cargo_home {
        Some(c) => crate::text::string_of(chars_of(c).as_slice()),
        None => join(home, ".cargo"),
    };
    let bin = join(base.as_str(), "bin");
    join(bin.as_str(), exe_name)
}

/// The flags of `md uninstall`: nothing, `--dry-run` (list only), or `--yes` / `-y` (no
/// question asked), as `(dry_run, assume_yes)`; none for anything else.
pub open spec fn uninstall_flags_spec(rest: Seq<Seq<char>>) -> Option<(bool, bool)> {
    if rest.len() == 0 {
        Some((false, false))
    } else if rest.len() == 1 && rest[0] == "--dry-run"@ {
        Some((true, false))
    } else if rest.len() == 1 && (rest[0] == "--yes"@ || rest[0] == "-y"@) {
        Some((false, true))
    } else {
        None
    }
}

/// The flags of `md uninstall` (see [`uninstall_flags_spec`]).
pub fn uninstall_flags(rest: &[String]) -> (r: Option<(bool, bool)>)
    ensures
        r == uninstall_flags_spec(rest@.map_values(|x: String| x@)),
{
    if rest.len() == 0 {
        return Some((false, false));
    }
    if rest.len() > 1 {
        return None;
    }
    let ghost v = rest@.map_values(|x: String| x@);
    assert(v[0] == rest@[0]@);
    let a = chars_of(rest[0].as_str());
    if crate::text::chars_eq_str(a.as_slice(), "--dry-run") {
        Some((true, false))
    } else if crate::text::chars_eq_str(a.as_slice(), "--yes") || crate::text::chars_eq_str(a.as_slice(), "-y") {
        Some((false, true))
    } else {
        None
    }
}

/// Whether the answer typed at the question agrees: `y`, `Y` or `yes`, spaces around it
/// ignored. Anything else (an empty line too) declines.
pub fn is_yes(line: &str) -> (r: bool)
    ensures
        r == (crate::markdown::trim(line@) == "y"@ || crate::markdown::trim(line@) == "Y"@ || crate::markdown::trim(line@)
            == "yes"@),
{
    let t = crate::markdown::trimmed(chars_of(line).as_slice());
    crate::text::chars_eq_str(t.as_slice(), "y") || crate::text::chars_eq_str(t.as_slice(), "Y")
        || crate::text::chars_eq_str(t.as_slice(), "yes")
}

} // verus!
