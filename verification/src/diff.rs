//! Inline source diffs: a line-level longest-common-subsequence diff, with the changed
//! characters inside each replaced line marked. Reading the file and asking git for the
//! committed version is left to the application, which hands the two texts in.

use vstd::prelude::*;
use vstd::string::*;
use crate::text::{chars_of, push_str, usize_to_string, dec, text_from_bytes, bytes_text, str_from_utf8, parse_usize, parse_int_spec};
use crate::html::{push_html_escaped, html_escape_spec};
use crate::lines::{split_lines, lines_spec};
use vstd::utf8::*;

verus! {

broadcast use vstd::string::group_string_axioms;

// ── longest common subsequence ──────────────────────────────────────────────

/// Length of a longest common subsequence of `a[i..]` and `b[j..]`.
pub open spec fn lcs(a: Seq<Seq<char>>, b: Seq<Seq<char>>, i: int, j: int) -> nat
    decreases a.len() - i, b.len() - j,
{
    if i < 0 || j < 0 || i >= a.len() || j >= b.len() {
        0
    } else if a[i] == b[j] {
        1 + lcs(a, b, i + 1, j + 1)
    } else {
        let x = lcs(a, b, i + 1, j);
        let y = lcs(a, b, i, j + 1);
        if x >= y { x } else { y }
    }
}

pub proof fn lemma_lcs_bound(a: Seq<Seq<char>>, b: Seq<Seq<char>>, i: int, j: int)
    requires
        0 <= i <= a.len(),
        0 <= j <= b.len(),
    ensures
        lcs(a, b, i, j) <= a.len() - i,
        lcs(a, b, i, j) <= b.len() - j,
    decreases a.len() - i, b.len() - j,
{
    if i < a.len() && j < b.len() {
        if a[i] == b[j] {
            lemma_lcs_bound(a, b, i + 1, j + 1);
        } else {
            lemma_lcs_bound(a, b, i + 1, j);
            lemma_lcs_bound(a, b, i, j + 1);
        }
    }
}

/// One step of an edit script, by index: a line kept (old, new), deleted (old) or added (new).
#[derive(Clone, Copy, Debug, PartialEq, Eq)]
pub enum LineOp {
    Equal(usize, usize),
    Del(usize),
    Add(usize),
}

/// The edit script from `a[i..]` to `b[j..]`: walk both, keep equal items, and otherwise
/// drop from `a` when that loses no common subsequence (else take from `b`).
pub open spec fn script(a: Seq<Seq<char>>, b: Seq<Seq<char>>, i: int, j: int) -> Seq<LineOp>
    decreases a.len() - i, b.len() - j,
{
    if i < 0 || j < 0 {
        seq![]
    } else if i < a.len() && j < b.len() {
        if a[i] == b[j] {
            seq![LineOp::Equal(i as usize, j as usize)] + script(a, b, i + 1, j + 1)
        } else if lcs(a, b, i + 1, j) >= lcs(a, b, i, j + 1) {
            seq![LineOp::Del(i as usize)] + script(a, b, i + 1, j)
        } else {
            seq![LineOp::Add(j as usize)] + script(a, b, i, j + 1)
        }
    } else if i < a.len() {
        seq![LineOp::Del(i as usize)] + script(a, b, i + 1, j)
    } else if j < b.len() {
        seq![LineOp::Add(j as usize)] + script(a, b, i, j + 1)
    } else {
        seq![]
    }
}

/// The table `t[k][j] == lcs(a, b, m - k, j)`: row `k` describes the suffix `a[m - k..]`.
fn lcs_table(a: &Vec<Vec<char>>, b: &Vec<Vec<char>>) -> (t: Vec<Vec<u32>>)
    requires
        a@.len() < u32::MAX,
        b@.len() < usize::MAX,
    ensures
        t@.len() == a@.len() + 1,
        forall|k: int| 0 <= k <= a@.len() ==> (#[trigger] t@[k])@.len() == b@.len() + 1,
        forall|k: int, j: int| 0 <= k <= a@.len() && 0 <= j <= b@.len() ==> (#[trigger] t@[k]@[j]) as nat
            == lcs(view_lines(a@), view_lines(b@), a@.len() - k, j),
{
    let ghost av = view_lines(a@);
    let ghost bv = view_lines(b@);
    let m = a.len();
    let n = b.len();
    let mut t: Vec<Vec<u32>> = Vec::new();
    let mut last: Vec<u32> = Vec::new();
    let mut j: usize = 0;
    while j <= n
        invariant
            j <= n + 1,
            n == b@.len(),
            n < usize::MAX,
            last@.len() == j,
            forall|q: int| 0 <= q < j ==> last@[q] == 0,
        decreases n + 1 - j,
    {
        last.push(0);
        j = j + 1;
    }
    assert forall|q: int| 0 <= q <= n implies last@[q] as nat == lcs(av, bv, m as int, q) by {}
    t.push(last);
    let mut k: usize = 1;
    while k <= m
        invariant
            1 <= k <= m + 1,
            m == a@.len(),
            n == b@.len(),
            n < usize::MAX,
            m < u32::MAX,
            av == view_lines(a@),
            bv == view_lines(b@),
            t@.len() == k,
            forall|r: int| 0 <= r < k ==> (#[trigger] t@[r])@.len() == n + 1,
            forall|r: int, q: int| 0 <= r < k && 0 <= q <= n ==> (#[trigger] t@[r]@[q]) as nat == lcs(
                av,
                bv,
                m - r,
                q,
            ),
        decreases m + 1 - k,
    {
        let i = m - k;
        let prev = &t[k - 1];
        assert(prev@.len() == n + 1);
        let mut row: Vec<u32> = Vec::new();
        let mut q: usize = 0;
        while q <= n
            invariant
                q <= n + 1,
                n < usize::MAX,
                row@.len() == q,
                forall|p: int| 0 <= p < q ==> row@[p] == 0,
            decreases n + 1 - q,
        {
            row.push(0);
            q = q + 1;
        }
        let mut jj: usize = n + 1;
        while jj > 0
            invariant
                0 <= jj <= n + 1,
                i == m - k,
                i < m,
                row@.len() == n + 1,
                prev@.len() == n + 1,
                av == view_lines(a@),
                bv == view_lines(b@),
                m == a@.len(),
                n == b@.len(),
                n < usize::MAX,
                m < u32::MAX,
                forall|p: int| 0 <= p <= n ==> (#[trigger] prev@[p]) as nat == lcs(av, bv, i + 1, p),
                forall|p: int| jj <= p <= n ==> (#[trigger] row@[p]) as nat == lcs(av, bv, i as int, p),
            decreases jj,
        {
            let j = jj - 1;
            let v: u32 = if j == n {
                0
            } else if crate::text::chars_eq(a[i].as_slice(), b[j].as_slice()) {
                proof {
                    lemma_lcs_bound(av, bv, i + 1, j + 1);
                }
                prev[j + 1] + 1
            } else {
                let x = prev[j];
                let y = row[j + 1];
                if x >= y { x } else { y }
            };
            row.set(j, v);
            jj = j;
        }
        t.push(row);
        k = k + 1;
    }
    t
}

/// The texts of a list of lines.
pub open spec fn view_lines(v: Seq<Vec<char>>) -> Seq<Seq<char>> {
    v.map_values(|l: Vec<char>| l@)
}


proof fn lemma_script_step(a: Seq<Seq<char>>, b: Seq<Seq<char>>, i: int, j: int, done: Seq<LineOp>, op: LineOp, ni: int, nj: int)
    requires
        0 <= i,
        0 <= j,
        done + script(a, b, i, j) == script(a, b, 0, 0),
        script(a, b, i, j) == seq![op] + script(a, b, ni, nj),
    ensures
        done.push(op) + script(a, b, ni, nj) == script(a, b, 0, 0),
{
    assert(done.push(op) + script(a, b, ni, nj) =~= done + (seq![op] + script(a, b, ni, nj)));
}

/// The edit script from `a` to `b` (see [`script`]). The counts of the table are `u32`,
/// so `a` has fewer than `u32::MAX` items; callers keep the table small.
pub fn line_diff(a: &Vec<Vec<char>>, b: &Vec<Vec<char>>) -> (ops: Vec<LineOp>)
    requires
        a@.len() < u32::MAX,
        b@.len() < usize::MAX,
    ensures
        ops@ == script(view_lines(a@), view_lines(b@), 0, 0),
{
    let ghost av = view_lines(a@);
    let ghost bv = view_lines(b@);
    let t = lcs_table(a, b);
    let m = a.len();
    let n = b.len();
    let mut ops: Vec<LineOp> = Vec::new();
    let mut i: usize = 0;
    let mut j: usize = 0;
    assert(ops@ + script(av, bv, 0, 0) =~= script(av, bv, 0, 0));
    while i < m || j < n
        invariant
            i <= m,
            j <= n,
            m == a@.len(),
            n == b@.len(),
            av == view_lines(a@),
            bv == view_lines(b@),
            t@.len() == m + 1,
            forall|k: int| 0 <= k <= m ==> (#[trigger] t@[k])@.len() == n + 1,
            forall|k: int, q: int| 0 <= k <= m && 0 <= q <= n ==> (#[trigger] t@[k]@[q]) as nat == lcs(av, bv, m - k, q),
            ops@ + script(av, bv, i as int, j as int) == script(av, bv, 0, 0),
        decreases (m - i) + (n - j),
    {
        if i < m && j < n {
            if crate::text::chars_eq(a[i].as_slice(), b[j].as_slice()) {
                proof { lemma_script_step(av, bv, i as int, j as int, ops@, LineOp::Equal(i, j), i + 1, j + 1); }
                ops.push(LineOp::Equal(i, j));
                i = i + 1;
                j = j + 1;
            } else {
                let x = t[m - (i + 1)][j];
                let y = t[m - i][j + 1];
                if x >= y {
                    proof { lemma_script_step(av, bv, i as int, j as int, ops@, LineOp::Del(i), i + 1, j as int); }
                    ops.push(LineOp::Del(i));
                    i = i + 1;
                } else {
                    proof { lemma_script_step(av, bv, i as int, j as int, ops@, LineOp::Add(j), i as int, j + 1); }
                    ops.push(LineOp::Add(j));
                    j = j + 1;
                }
            }
        } else if i < m {
            proof { lemma_script_step(av, bv, i as int, j as int, ops@, LineOp::Del(i), i + 1, j as int); }
            ops.push(LineOp::Del(i));
            i = i + 1;
        } else {
            proof { lemma_script_step(av, bv, i as int, j as int, ops@, LineOp::Add(j), i as int, j + 1); }
            ops.push(LineOp::Add(j));
            j = j + 1;
        }
    }
    assert(ops@ =~= ops@ + script(av, bv, i as int, j as int));
    ops
}


/// The old indices an edit script walks through (kept and deleted lines), in order.
pub open spec fn old_side(ops: Seq<LineOp>) -> Seq<int>
    decreases ops.len(),
{
    if ops.len() == 0 {
        seq![]
    } else {
        (match ops[0] {
            LineOp::Equal(o, _) => seq![o as int],
            LineOp::Del(o) => seq![o as int],
            LineOp::Add(_) => seq![],
        }) + old_side(ops.drop_first())
    }
}

/// The new indices an edit script walks through (kept and added lines), in order.
pub open spec fn new_side(ops: Seq<LineOp>) -> Seq<int>
    decreases ops.len(),
{
    if ops.len() == 0 {
        seq![]
    } else {
        (match ops[0] {
            LineOp::Equal(_, n) => seq![n as int],
            LineOp::Del(_) => seq![],
            LineOp::Add(n) => seq![n as int],
        }) + new_side(ops.drop_first())
    }
}

/// How many lines an edit script keeps.
pub open spec fn kept_count(ops: Seq<LineOp>) -> nat
    decreases ops.len(),
{
    if ops.len() == 0 {
        0
    } else {
        (if ops[0] is Equal { 1nat } else { 0nat }) + kept_count(ops.drop_first())
    }
}

/// A kept pair holds equal lines (other ops hold nothing to compare).
pub open spec fn pairs_equal(a: Seq<Seq<char>>, b: Seq<Seq<char>>, op: LineOp) -> bool {
    match op {
        LineOp::Equal(o, n) => a[o as int] == b[n as int],
        _ => true,
    }
}

/// The indices `lo, lo + 1, .., hi - 1`.
pub open spec fn index_range(lo: int, hi: int) -> Seq<int> {
    Seq::new((if hi > lo { hi - lo } else { 0 }) as nat, |k: int| lo + k)
}

proof fn lemma_script_valid(a: Seq<Seq<char>>, b: Seq<Seq<char>>, i: int, j: int)
    requires
        0 <= i <= a.len() <= usize::MAX,
        0 <= j <= b.len() <= usize::MAX,
    ensures
        old_side(script(a, b, i, j)) == index_range(i, a.len() as int),
        new_side(script(a, b, i, j)) == index_range(j, b.len() as int),
        kept_count(script(a, b, i, j)) == lcs(a, b, i, j),
        forall|k: int| 0 <= k < script(a, b, i, j).len() ==> pairs_equal(a, b, #[trigger] script(a, b, i, j)[k]),
    decreases a.len() - i, b.len() - j,
{
    let s = script(a, b, i, j);
    if i < a.len() || j < b.len() {
        let (ni, nj) = if i < a.len() && j < b.len() {
            if a[i] == b[j] {
                (i + 1, j + 1)
            } else if lcs(a, b, i + 1, j) >= lcs(a, b, i, j + 1) {
                (i + 1, j)
            } else {
                (i, j + 1)
            }
        } else if i < a.len() {
            (i + 1, j)
        } else {
            (i, j + 1)
        };
        lemma_script_valid(a, b, ni, nj);
        let rest = script(a, b, ni, nj);
        assert(s.drop_first() =~= rest);
        assert(old_side(s) =~= index_range(i, a.len() as int));
        assert(new_side(s) =~= index_range(j, b.len() as int));
        assert forall|k: int| 0 <= k < s.len() implies pairs_equal(a, b, #[trigger] s[k]) by {
            if k > 0 {
                assert(s[k] == rest[k - 1]);
            }
        }
    } else {
        assert(old_side(s) =~= index_range(i, a.len() as int));
        assert(new_side(s) =~= index_range(j, b.len() as int));
    }
}

/// The line diff is an edit script from `a` to `b`: the old lines it walks through are
/// all of `a` in order, the new lines all of `b` in order, every kept pair holds equal
/// lines, and it keeps as many lines as a longest common subsequence has.
pub proof fn line_diff_is_edit_script(a: Seq<Seq<char>>, b: Seq<Seq<char>>)
    requires
        a.len() <= usize::MAX,
        b.len() <= usize::MAX,
    ensures
        old_side(script(a, b, 0, 0)) == index_range(0, a.len() as int),
        new_side(script(a, b, 0, 0)) == index_range(0, b.len() as int),
        kept_count(script(a, b, 0, 0)) == lcs(a, b, 0, 0),
        forall|k: int| 0 <= k < script(a, b, 0, 0).len() ==> pairs_equal(a, b, #[trigger] script(a, b, 0, 0)[k]),
{
    lemma_script_valid(a, b, 0, 0);
}

// ── rows ────────────────────────────────────────────────────────────────────

/// One row of the diff view.
pub open spec fn row_spec(cls: Seq<char>, old_ln: Seq<char>, new_ln: Seq<char>, sign: char, code: Seq<char>) -> Seq<char> {
    "<div class=\"diff-row diff-"@ + cls + "\"><span class=\"diff-gutter\">"@ + old_ln
        + "</span><span class=\"diff-gutter\">"@ + new_ln + "</span><span class=\"diff-sign\">"@
        + seq![sign] + "</span><span class=\"diff-text\">"@ + code + "</span></div>"@
}

/// An unchanged line, numbered on both sides (1-based).
pub open spec fn ctx_row_spec(old_ln: nat, new_ln: nat, text: Seq<char>) -> Seq<char> {
    row_spec("ctx"@, dec(old_ln), dec(new_ln), ' ', html_escape_spec(text))
}

/// A deleted line; `code` is already escaped HTML.
pub open spec fn del_row_spec(old_ln: nat, code: Seq<char>) -> Seq<char> {
    row_spec("del"@, dec(old_ln), ""@, '-', code)
}

/// An added line; `code` is already escaped HTML.
pub open spec fn add_row_spec(new_ln: nat, code: Seq<char>) -> Seq<char> {
    row_spec("add"@, ""@, dec(new_ln), '+', code)
}

fn push_row(out: &mut String, cls: &str, old_ln: &str, new_ln: &str, sign: char, code: &str)
    ensures
        final(out)@ == old(out)@ + row_spec(cls@, old_ln@, new_ln@, sign, code@),
{
    push_str(out, "<div class=\"diff-row diff-");
    push_str(out, cls);
    push_str(out, "\"><span class=\"diff-gutter\">");
    push_str(out, old_ln);
    push_str(out, "</span><span class=\"diff-gutter\">");
    push_str(out, new_ln);
    push_str(out, "</span><span class=\"diff-sign\">");
    crate::text::push_char(out, sign);
    push_str(out, "</span><span class=\"diff-text\">");
    push_str(out, code);
    push_str(out, "</span></div>");
    assert(out@ =~= old(out)@ + row_spec(cls@, old_ln@, new_ln@, sign, code@));
}

fn escaped(v: &[char]) -> (r: String)
    ensures
        r@ == html_escape_spec(v@),
{
    let mut r = String::new();
    push_html_escaped(&mut r, v);
    r
}

// ── changed characters inside a line ───────────────────────────────────────

/// Each character as a one-character line, so that the line diff can compare characters.
pub open spec fn singletons(s: Seq<char>) -> Seq<Seq<char>> {
    Seq::new(s.len(), |i: int| seq![s[i]])
}

/// Whether the script keeps old item `x` (pairs it with a new item).
pub open spec fn kept_old(ops: Seq<LineOp>, x: int) -> bool {
    exists|k: int| 0 <= k < ops.len() && keeps_old(#[trigger] ops[k], x)
}

/// Whether `op` pairs old item `x` with a new one.
pub open spec fn keeps_old(op: LineOp, x: int) -> bool {
    match op {
        LineOp::Equal(o, _) => o == x,
        _ => false,
    }
}

/// Whether `op` pairs new item `y` with an old one.
pub open spec fn keeps_new(op: LineOp, y: int) -> bool {
    match op {
        LineOp::Equal(_, n) => n == y,
        _ => false,
    }
}

/// Whether the script keeps new item `y`.
pub open spec fn kept_new(ops: Seq<LineOp>, y: int) -> bool {
    exists|k: int| 0 <= k < ops.len() && keeps_new(#[trigger] ops[k], y)
}

/// End of the run of equal flags that starts at `i`.
pub open spec fn run_end(fl: Seq<bool>, i: int) -> int
    decreases fl.len() - i,
{
    if i + 1 < fl.len() && fl[i + 1] == fl[i] {
        run_end(fl, i + 1)
    } else {
        i + 1
    }
}

/// `cs[i..]` escaped, with every run of changed characters wrapped in `<span class="cls">`.
pub open spec fn flagged_from(cs: Seq<char>, fl: Seq<bool>, cls: Seq<char>, i: int) -> Seq<char>
    decreases cs.len() - i,
{
    if i < 0 || i >= cs.len() || fl.len() != cs.len() {
        seq![]
    } else {
        let e = run_end(fl, i);
        let seg = html_escape_spec(cs.subrange(i, e));
        (if fl[i] {
            "<span class=\""@ + cls + "\">"@ + seg + "</span>"@
        } else {
            seg
        }) + if i < e <= cs.len() { flagged_from(cs, fl, cls, e) } else { seq![] }
    }
}

proof fn lemma_run_end(fl: Seq<bool>, i: int)
    requires
        0 <= i < fl.len(),
    ensures
        i < run_end(fl, i) <= fl.len(),
        forall|k: int| i <= k < run_end(fl, i) ==> fl[k] == fl[i],
        run_end(fl, i) < fl.len() ==> fl[run_end(fl, i)] != fl[i],
    decreases fl.len() - i,
{
    if i + 1 < fl.len() && fl[i + 1] == fl[i] {
        lemma_run_end(fl, i + 1);
    }
}

proof fn lemma_run_end_at(fl: Seq<bool>, i: int, e: int)
    requires
        0 <= i < e <= fl.len(),
        forall|k: int| i <= k < e ==> fl[k] == fl[i],
        e < fl.len() ==> fl[e] != fl[i],
    ensures
        run_end(fl, i) == e,
    decreases e - i,
{
    if i + 1 < e {
        lemma_run_end_at(fl, i + 1, e);
    }
}

/// Appends `flagged_from(cs, fl, cls, 0)`.
fn push_flagged(out: &mut String, cs: &[char], fl: &[bool], cls: &str)
    requires
        cs@.len() == fl@.len(),
    ensures
        final(out)@ == old(out)@ + flagged_from(cs@, fl@, cls@, 0),
{
    let ghost o0 = out@;
    let mut i: usize = 0;
    while i < cs.len()
        invariant
            i <= cs@.len(),
            cs@.len() == fl@.len(),
            out@ + flagged_from(cs@, fl@, cls@, i as int) == o0 + flagged_from(cs@, fl@, cls@, 0),
        decreases cs@.len() - i,
    {
        let flag = fl[i];
        let start = i;
        while i < cs.len() && fl[i] == flag
            invariant
                start <= i <= cs@.len(),
                cs@.len() == fl@.len(),
                flag == fl@[start as int],
                forall|k: int| start <= k < i ==> fl@[k] == flag,
            decreases cs@.len() - i,
        {
            i = i + 1;
        }
        proof {
            lemma_run_end_at(fl@, start as int, i as int);
        }
        let seg = crate::text::slice_to_vec(cs, start, i);
        let ghost before = out@;
        if flag {
            push_str(out, "<span class=\"");
            push_str(out, cls);
            push_str(out, "\">");
            push_html_escaped(out, seg.as_slice());
            push_str(out, "</span>");
        } else {
            push_html_escaped(out, seg.as_slice());
        }
        proof {
            let piece = out@.subrange(before.len() as int, out@.len() as int);
            assert(out@ =~= before + piece);
            assert(flagged_from(cs@, fl@, cls@, start as int) == piece + flagged_from(cs@, fl@, cls@, i as int));
        }
    }
    assert(out@ =~= out@ + flagged_from(cs@, fl@, cls@, i as int));
}

/// Flags for each old item: true unless the script keeps it.
pub open spec fn old_flags(ops: Seq<LineOp>, len: nat) -> Seq<bool> {
    Seq::new(len, |x: int| !kept_old(ops, x))
}

/// Flags for each new item: true unless the script keeps it.
pub open spec fn new_flags(ops: Seq<LineOp>, len: nat) -> Seq<bool> {
    Seq::new(len, |y: int| !kept_new(ops, y))
}

/// Changed-character flags for both lines, from the character-level script.
fn change_flags(o: &Vec<char>, n: &Vec<char>) -> (r: (Vec<bool>, Vec<bool>))
    requires
        o@.len() < u32::MAX,
        n@.len() < usize::MAX,
    ensures
        r.0@ == old_flags(script(singletons(o@), singletons(n@), 0, 0), o@.len()),
        r.1@ == new_flags(script(singletons(o@), singletons(n@), 0, 0), n@.len()),
{
    let mut ol: Vec<Vec<char>> = Vec::new();
    let mut i: usize = 0;
    while i < o.len()
        invariant
            i <= o@.len(),
            view_lines(ol@) =~= singletons(o@).take(i as int),
        decreases o@.len() - i,
    {
        let mut one: Vec<char> = Vec::new();
        one.push(o[i]);
        assert(one@ =~= seq![o@[i as int]]);
        let ghost prev = ol@;
        let ghost ov = one@;
        ol.push(one);
        assert(view_lines(ol@) =~= view_lines(prev).push(ov));
        i = i + 1;
        assert(view_lines(ol@) =~= singletons(o@).take(i as int));
    }
    let mut nl: Vec<Vec<char>> = Vec::new();
    let mut j: usize = 0;
    while j < n.len()
        invariant
            j <= n@.len(),
            view_lines(nl@) =~= singletons(n@).take(j as int),
        decreases n@.len() - j,
    {
        let mut one: Vec<char> = Vec::new();
        one.push(n[j]);
        assert(one@ =~= seq![n@[j as int]]);
        let ghost prev = nl@;
        let ghost nv = one@;
        nl.push(one);
        assert(view_lines(nl@) =~= view_lines(prev).push(nv));
        j = j + 1;
        assert(view_lines(nl@) =~= singletons(n@).take(j as int));
    }
    assert(singletons(o@).take(i as int) =~= singletons(o@));
    assert(singletons(n@).take(j as int) =~= singletons(n@));
    let ops = line_diff(&ol, &nl);
    let ghost sc = ops@;
    let mut of: Vec<bool> = Vec::new();
    let mut x: usize = 0;
    while x < o.len()
        invariant
            x <= o@.len(),
            of@.len() == x,
            forall|q: int| 0 <= q < x ==> of@[q],
        decreases o@.len() - x,
    {
        of.push(true);
        x = x + 1;
    }
    let mut nf: Vec<bool> = Vec::new();
    let mut y: usize = 0;
    while y < n.len()
        invariant
            y <= n@.len(),
            nf@.len() == y,
            forall|q: int| 0 <= q < y ==> nf@[q],
        decreases n@.len() - y,
    {
        nf.push(true);
        y = y + 1;
    }
    proof {
        lemma_script_indices(singletons(o@), singletons(n@), 0, 0);
    }
    let mut k: usize = 0;
    while k < ops.len()
        invariant
            k <= sc.len(),
            sc == ops@,
            sc == script(singletons(o@), singletons(n@), 0, 0),
            of@.len() == o@.len(),
            nf@.len() == n@.len(),
            forall|q: int| 0 <= q < sc.len() ==> script_op_in_range(#[trigger] sc[q], o@.len() as int, n@.len() as int),
            forall|x: int| 0 <= x < of@.len() ==> of@[x] == !(exists|p: int| 0 <= p < k && keeps_old(#[trigger] sc[p], x)),
            forall|y: int| 0 <= y < nf@.len() ==> nf@[y] == !(exists|p: int| 0 <= p < k && keeps_new(#[trigger] sc[p], y)),
        decreases sc.len() - k,
    {
        match ops[k] {
            LineOp::Equal(u, w) => {
                assert(script_op_in_range(sc[k as int], o@.len() as int, n@.len() as int));
                of.set(u, false);
                nf.set(w, false);
            },
            _ => {},
        }
        k = k + 1;
    }
    assert(of@ =~= old_flags(sc, o@.len()));
    assert(nf@ =~= new_flags(sc, n@.len()));
    (of, nf)
}

/// Whether an op's indices lie inside `0..m` and `0..n`.
pub open spec fn script_op_in_range(op: LineOp, m: int, n: int) -> bool {
    match op {
        LineOp::Equal(o, w) => o < m && w < n,
        LineOp::Del(o) => o < m,
        LineOp::Add(w) => w < n,
    }
}

proof fn lemma_script_indices(a: Seq<Seq<char>>, b: Seq<Seq<char>>, i: int, j: int)
    requires
        0 <= i <= a.len(),
        0 <= j <= b.len(),
    ensures
        forall|q: int| 0 <= q < script(a, b, i, j).len() ==> script_op_in_range(#[trigger] script(a, b, i, j)[q], a.len() as int, b.len() as int),
    decreases a.len() - i, b.len() - j,
{
    let s = script(a, b, i, j);
    if i < a.len() && j < b.len() {
        if a[i] == b[j] {
            lemma_script_indices(a, b, i + 1, j + 1);
            let rest = script(a, b, i + 1, j + 1);
            assert forall|q: int| 0 <= q < s.len() implies script_op_in_range(#[trigger] s[q], a.len() as int, b.len() as int) by {
                if q > 0 { assert(s[q] == rest[q - 1]); }
            }
        } else if lcs(a, b, i + 1, j) >= lcs(a, b, i, j + 1) {
            lemma_script_indices(a, b, i + 1, j);
            let rest = script(a, b, i + 1, j);
            assert forall|q: int| 0 <= q < s.len() implies script_op_in_range(#[trigger] s[q], a.len() as int, b.len() as int) by {
                if q > 0 { assert(s[q] == rest[q - 1]); }
            }
        } else {
            lemma_script_indices(a, b, i, j + 1);
            let rest = script(a, b, i, j + 1);
            assert forall|q: int| 0 <= q < s.len() implies script_op_in_range(#[trigger] s[q], a.len() as int, b.len() as int) by {
                if q > 0 { assert(s[q] == rest[q - 1]); }
            }
        }
    } else if i < a.len() {
        lemma_script_indices(a, b, i + 1, j);
        let rest = script(a, b, i + 1, j);
        assert forall|q: int| 0 <= q < s.len() implies script_op_in_range(#[trigger] s[q], a.len() as int, b.len() as int) by {
            if q > 0 { assert(s[q] == rest[q - 1]); }
        }
    } else if j < b.len() {
        lemma_script_indices(a, b, i, j + 1);
        let rest = script(a, b, i, j + 1);
        assert forall|q: int| 0 <= q < s.len() implies script_op_in_range(#[trigger] s[q], a.len() as int, b.len() as int) by {
            if q > 0 { assert(s[q] == rest[q - 1]); }
        }
    }
}


/// `code` wrapped in a span of class `cls`.
pub open spec fn span_spec(cls: Seq<char>, code: Seq<char>) -> Seq<char> {
    "<span class=\""@ + cls + "\">"@ + code + "</span>"@
}

/// The old and new line as HTML, with the characters that changed between them marked.
/// Lines longer than 2 000 characters, or pairs whose lengths multiply past 40 000, are
/// marked as a whole instead.
pub open spec fn char_marked_spec(o: Seq<char>, n: Seq<char>) -> (Seq<char>, Seq<char>) {
    if o.len() > 2000 || n.len() > 2000 || o.len() * n.len() > 40000 {
        (span_spec("diff-char-del"@, html_escape_spec(o)), span_spec("diff-char-add"@, html_escape_spec(n)))
    } else {
        let ops = script(singletons(o), singletons(n), 0, 0);
        (
            flagged_from(o, old_flags(ops, o.len()), "diff-char-del"@, 0),
            flagged_from(n, new_flags(ops, n.len()), "diff-char-add"@, 0),
        )
    }
}

fn char_marked(o: &Vec<char>, n: &Vec<char>) -> (r: (String, String))
    ensures
        r.0@ == char_marked_spec(o@, n@).0,
        r.1@ == char_marked_spec(o@, n@).1,
{
    let too_big = if o.len() > 2000 || n.len() > 2000 {
        true
    } else {
        let ol = o.len() as u64;
        let nl = n.len() as u64;
        assert(ol * nl <= 4000000) by (nonlinear_arith)
            requires
                ol <= 2000,
                nl <= 2000,
        ;
        ol * nl > 40000
    };
    if too_big {
        let mut d = String::new();
        push_str(&mut d, "<span class=\"");
        push_str(&mut d, "diff-char-del");
        push_str(&mut d, "\">");
        push_html_escaped(&mut d, o.as_slice());
        push_str(&mut d, "</span>");
        let mut a = String::new();
        push_str(&mut a, "<span class=\"");
        push_str(&mut a, "diff-char-add");
        push_str(&mut a, "\">");
        push_html_escaped(&mut a, n.as_slice());
        push_str(&mut a, "</span>");
        assert(d@ =~= char_marked_spec(o@, n@).0);
        assert(a@ =~= char_marked_spec(o@, n@).1);
        return (d, a);
    }
    let (of, nf) = change_flags(o, n);
    let mut d = String::new();
    push_flagged(&mut d, o.as_slice(), of.as_slice(), "diff-char-del");
    let mut a = String::new();
    push_flagged(&mut a, n.as_slice(), nf.as_slice(), "diff-char-add");
    assert(d@ =~= char_marked_spec(o@, n@).0);
    assert(a@ =~= char_marked_spec(o@, n@).1);
    (d, a)
}

/// Old index of an op (0 for an addition).
pub open spec fn op_old(op: LineOp) -> int {
    match op {
        LineOp::Equal(o, _) => o as int,
        LineOp::Del(o) => o as int,
        LineOp::Add(_) => 0,
    }
}

/// New index of an op (0 for a deletion).
pub open spec fn op_new(op: LineOp) -> int {
    match op {
        LineOp::Equal(_, n) => n as int,
        LineOp::Del(_) => 0,
        LineOp::Add(n) => n as int,
    }
}

/// The HTML of deleted line `k` of a replacement: paired with added line `k` when there
/// is one, then marked by character; escaped as a whole otherwise.
pub open spec fn del_code(a: Seq<Seq<char>>, b: Seq<Seq<char>>, dels: Seq<LineOp>, adds: Seq<LineOp>, k: int) -> Seq<char> {
    if k < adds.len() {
        char_marked_spec(a[op_old(dels[k])], b[op_new(adds[k])]).0
    } else {
        html_escape_spec(a[op_old(dels[k])])
    }
}

/// The HTML of added line `k` of a replacement.
pub open spec fn add_code(a: Seq<Seq<char>>, b: Seq<Seq<char>>, dels: Seq<LineOp>, adds: Seq<LineOp>, k: int) -> Seq<char> {
    if k < dels.len() {
        char_marked_spec(a[op_old(dels[k])], b[op_new(adds[k])]).1
    } else {
        html_escape_spec(b[op_new(adds[k])])
    }
}

pub open spec fn del_rows(a: Seq<Seq<char>>, b: Seq<Seq<char>>, dels: Seq<LineOp>, adds: Seq<LineOp>, k: int) -> Seq<char>
    decreases dels.len() - k,
{
    if k < 0 || k >= dels.len() {
        seq![]
    } else {
        del_row_spec((op_old(dels[k]) + 1) as nat, del_code(a, b, dels, adds, k)) + del_rows(a, b, dels, adds, k + 1)
    }
}

pub open spec fn add_rows(a: Seq<Seq<char>>, b: Seq<Seq<char>>, dels: Seq<LineOp>, adds: Seq<LineOp>, k: int) -> Seq<char>
    decreases adds.len() - k,
{
    if k < 0 || k >= adds.len() {
        seq![]
    } else {
        add_row_spec((op_new(adds[k]) + 1) as nat, add_code(a, b, dels, adds, k)) + add_rows(a, b, dels, adds, k + 1)
    }
}

/// A run of deletions followed by a run of additions: all deleted rows, then all added rows.
pub open spec fn replace_spec(a: Seq<Seq<char>>, b: Seq<Seq<char>>, dels: Seq<LineOp>, adds: Seq<LineOp>) -> Seq<char> {
    del_rows(a, b, dels, adds, 0) + add_rows(a, b, dels, adds, 0)
}

/// Whether every op is a deletion (or every op an addition) with indices inside the texts.
pub open spec fn all_dels(ops: Seq<LineOp>, m: int) -> bool {
    forall|k: int| 0 <= k < ops.len() ==> (#[trigger] ops[k]) is Del && op_old(ops[k]) < m
}

pub open spec fn all_adds(ops: Seq<LineOp>, n: int) -> bool {
    forall|k: int| 0 <= k < ops.len() ==> (#[trigger] ops[k]) is Add && op_new(ops[k]) < n
}

fn emit_replace(out: &mut String, a: &Vec<Vec<char>>, b: &Vec<Vec<char>>, ops: &Vec<LineOp>, ds: usize, de: usize, ae: usize)
    requires
        ds <= de <= ae <= ops@.len(),
        a@.len() <= 20000,
        b@.len() <= 20000,
        all_dels(ops@.subrange(ds as int, de as int), a@.len() as int),
        all_adds(ops@.subrange(de as int, ae as int), b@.len() as int),
    ensures
        final(out)@ == old(out)@ + replace_spec(
            view_lines(a@),
            view_lines(b@),
            ops@.subrange(ds as int, de as int),
            ops@.subrange(de as int, ae as int),
        ),
{
    let ghost av = view_lines(a@);
    let ghost bv = view_lines(b@);
    let ghost dels = ops@.subrange(ds as int, de as int);
    let ghost adds = ops@.subrange(de as int, ae as int);
    let nd = de - ds;
    let na = ae - de;
    let paired = if nd < na { nd } else { na };
    let mut del_codes: Vec<String> = Vec::new();
    let mut add_codes: Vec<String> = Vec::new();
    let mut k: usize = 0;
    while k < nd
        invariant
            k <= nd,
            nd == dels.len(),
            na == adds.len(),
            paired as int == if nd < na { nd as int } else { na as int },
            dels == ops@.subrange(ds as int, de as int),
            adds == ops@.subrange(de as int, ae as int),
            ds <= de <= ae <= ops@.len(),
            av == view_lines(a@),
            bv == view_lines(b@),
            all_dels(dels, a@.len() as int),
            all_adds(adds, b@.len() as int),
            del_codes@.len() == k,
            add_codes@.len() == if k < paired { k as int } else { paired as int },
            forall|q: int| 0 <= q < k ==> (#[trigger] del_codes@[q])@ == del_code(av, bv, dels, adds, q),
            forall|q: int| 0 <= q < add_codes@.len() ==> (#[trigger] add_codes@[q])@ == add_code(av, bv, dels, adds, q),
        decreases nd - k,
    {
        assert(dels[k as int] == ops@[ds + k]);
        let o = match ops[ds + k] {
            LineOp::Del(o) => o,
            _ => 0,
        };
        assert(o as int == op_old(dels[k as int]));
        if k < paired {
            assert(adds[k as int] == ops@[de + k]);
            let w = match ops[de + k] {
                LineOp::Add(w) => w,
                _ => 0,
            };
            assert(w as int == op_new(adds[k as int]));
            let (dh, ah) = char_marked(&a[o], &b[w]);
            del_codes.push(dh);
            add_codes.push(ah);
        } else {
            del_codes.push(escaped(a[o].as_slice()));
        }
        k = k + 1;
    }
    let ghost o0 = out@;
    let mut q: usize = 0;
    while q < nd
        invariant
            q <= nd,
            nd == dels.len(),
            dels == ops@.subrange(ds as int, de as int),
            ds <= de <= ae <= ops@.len(),
            all_dels(dels, a@.len() as int),
            av == view_lines(a@),
            bv == view_lines(b@),
            del_codes@.len() == nd,
            forall|p: int| 0 <= p < nd ==> (#[trigger] del_codes@[p])@ == del_code(av, bv, dels, adds, p),
            out@ + del_rows(av, bv, dels, adds, q as int) == o0 + del_rows(av, bv, dels, adds, 0),
            a@.len() <= 20000,
        decreases nd - q,
    {
        assert(dels[q as int] == ops@[ds + q]);
        let o = match ops[ds + q] {
            LineOp::Del(o) => o,
            _ => 0,
        };
        assert(o as int == op_old(dels[q as int]) && op_old(dels[q as int]) < a@.len());
        let ln = usize_to_string(o + 1);
        let ghost before = out@;
        push_row(out, "del", ln.as_str(), "", '-', del_codes[q].as_str());
        assert(out@ =~= before + del_row_spec((op_old(dels[q as int]) + 1) as nat, del_code(av, bv, dels, adds, q as int)));
        q = q + 1;
    }
    assert(out@ =~= out@ + del_rows(av, bv, dels, adds, q as int));
    let ghost o1 = out@;
    let mut r: usize = 0;
    while r < na
        invariant
            r <= na,
            na == adds.len(),
            nd == dels.len(),
            paired as int == if nd < na { nd as int } else { na as int },
            adds == ops@.subrange(de as int, ae as int),
            ds <= de <= ae <= ops@.len(),
            all_adds(adds, b@.len() as int),
            av == view_lines(a@),
            bv == view_lines(b@),
            add_codes@.len() == paired,
            forall|p: int| 0 <= p < paired ==> (#[trigger] add_codes@[p])@ == add_code(av, bv, dels, adds, p),
            out@ + add_rows(av, bv, dels, adds, r as int) == o1 + add_rows(av, bv, dels, adds, 0),
            b@.len() <= 20000,
        decreases na - r,
    {
        assert(adds[r as int] == ops@[de + r]);
        let w = match ops[de + r] {
            LineOp::Add(w) => w,
            _ => 0,
        };
        assert(w as int == op_new(adds[r as int]) && op_new(adds[r as int]) < b@.len());
        let ln = usize_to_string(w + 1);
        let ghost before = out@;
        if r < paired {
            push_row(out, "add", "", ln.as_str(), '+', add_codes[r].as_str());
        } else {
            let code = escaped(b[w].as_slice());
            push_row(out, "add", "", ln.as_str(), '+', code.as_str());
        }
        assert(out@ =~= before + add_row_spec((op_new(adds[r as int]) + 1) as nat, add_code(av, bv, dels, adds, r as int)));
        r = r + 1;
    }
    assert(out@ =~= out@ + add_rows(av, bv, dels, adds, r as int));
    assert(out@ =~= o0 + replace_spec(av, bv, dels, adds));
}


// ── the whole view ──────────────────────────────────────────────────────────

/// A notice shown in place of a diff.
pub open spec fn message_html_spec(msg: Seq<char>) -> Seq<char> {
    "<p class=\"diff-msg\">"@ + html_escape_spec(msg) + "</p>"@
}

/// `<p class="diff-msg">` around the escaped message.
pub fn message_html(msg: &str) -> (r: String)
    ensures
        r@ == message_html_spec(msg@),
{
    let mut r = String::new();
    push_str(&mut r, "<p class=\"diff-msg\">");
    let v = chars_of(msg);
    push_html_escaped(&mut r, v.as_slice());
    push_str(&mut r, "</p>");
    assert(r@ =~= message_html_spec(msg@));
    r
}

/// End of the run of deletions that starts at `i`.
pub open spec fn del_end(ops: Seq<LineOp>, i: int) -> int
    decreases ops.len() - i,
{
    if 0 <= i < ops.len() && ops[i] is Del {
        del_end(ops, i + 1)
    } else {
        i
    }
}

/// End of the run of additions that starts at `i`.
pub open spec fn add_end(ops: Seq<LineOp>, i: int) -> int
    decreases ops.len() - i,
{
    if 0 <= i < ops.len() && ops[i] is Add {
        add_end(ops, i + 1)
    } else {
        i
    }
}

proof fn lemma_del_end(ops: Seq<LineOp>, i: int)
    requires
        0 <= i <= ops.len(),
    ensures
        i <= del_end(ops, i) <= ops.len(),
        forall|k: int| i <= k < del_end(ops, i) ==> (#[trigger] ops[k]) is Del,
        del_end(ops, i) < ops.len() ==> !(ops[del_end(ops, i)] is Del),
    decreases ops.len() - i,
{
    if i < ops.len() && ops[i] is Del {
        lemma_del_end(ops, i + 1);
    }
}

proof fn lemma_add_end(ops: Seq<LineOp>, i: int)
    requires
        0 <= i <= ops.len(),
    ensures
        i <= add_end(ops, i) <= ops.len(),
        forall|k: int| i <= k < add_end(ops, i) ==> (#[trigger] ops[k]) is Add,
        add_end(ops, i) < ops.len() ==> !(ops[add_end(ops, i)] is Add),
    decreases ops.len() - i,
{
    if i < ops.len() && ops[i] is Add {
        lemma_add_end(ops, i + 1);
    }
}

/// The rows for `ops[i..]`: a context row for each kept line, and for each run of
/// deletions followed by a run of additions, the rows of [`replace_spec`].
pub open spec fn rows_from(a: Seq<Seq<char>>, b: Seq<Seq<char>>, ops: Seq<LineOp>, i: int) -> Seq<char>
    decreases ops.len() - i,
{
    if i < 0 || i >= ops.len() {
        seq![]
    } else {
        match ops[i] {
            LineOp::Equal(o, n) => ctx_row_spec((o + 1) as nat, (n + 1) as nat, b[n as int]) + rows_from(a, b, ops, i + 1),
            _ => {
                let d = del_end(ops, i);
                let e = add_end(ops, d);
                if i < e <= ops.len() {
                    replace_spec(a, b, ops.subrange(i, d), ops.subrange(d, e)) + rows_from(a, b, ops, e)
                } else {
                    seq![]
                }
            },
        }
    }
}

/// The message shown when the inputs are too large to diff.
pub open spec fn too_large_message() -> Seq<char> {
    "ファイルが大きすぎて差分表示できません"@
}

/// The diff view of `old_src` against `new_src`, both split into lines as `str::lines`
/// does: a notice when either side has more than 20 000 lines or the line counts multiply
/// past 4 000 000; nothing when there are no rows; else the rows inside
/// `<div class="diff-source"><div class="diff-body">`.
pub open spec fn source_diff_spec(old_src: Seq<char>, new_src: Seq<char>) -> Seq<char> {
    let a = lines_spec(old_src);
    let b = lines_spec(new_src);
    if a.len() > 20000 || b.len() > 20000 || a.len() * b.len() > 4000000 {
        message_html_spec(too_large_message())
    } else {
        let rows = rows_from(a, b, script(a, b, 0, 0), 0);
        if rows.len() == 0 {
            seq![]
        } else {
            "<div class=\"diff-source\"><div class=\"diff-body\">"@ + rows + "</div></div>"@
        }
    }
}

fn view_lines_eq(v: &Vec<Vec<char>>, s: Ghost<Seq<char>>) 
    requires
        v@.len() == lines_spec(s@).len(),
        forall|i: int| 0 <= i < v@.len() ==> (#[trigger] v@[i])@ == lines_spec(s@)[i],
    ensures
        view_lines(v@) == lines_spec(s@),
{
    assert(view_lines(v@) =~= lines_spec(s@));
}

/// Renders [`source_diff_spec`].
pub fn render_source_diff(old_src: &str, new_src: &str) -> (r: String)
    ensures
        r@ == source_diff_spec(old_src@, new_src@),
{
    let oc = chars_of(old_src);
    let nc = chars_of(new_src);
    let a = split_lines(oc.as_slice());
    let b = split_lines(nc.as_slice());
    view_lines_eq(&a, Ghost(old_src@));
    view_lines_eq(&b, Ghost(new_src@));
    let ghost av = view_lines(a@);
    let ghost bv = view_lines(b@);
    let m = a.len();
    let n = b.len();
    if m > 20000 || n > 20000 {
        return message_html("ファイルが大きすぎて差分表示できません");
    }
    let mm = m as u64;
    let nn = n as u64;
    assert(mm * nn <= 400000000) by (nonlinear_arith)
        requires
            mm <= 20000,
            nn <= 20000,
    ;
    let prod = mm * nn;
    if prod > 4000000 {
        return message_html("ファイルが大きすぎて差分表示できません");
    }
    let ops = line_diff(&a, &b);
    let ghost sc = ops@;
    proof {
        lemma_script_indices(av, bv, 0, 0);
    }
    let mut rows = String::new();
    let mut i: usize = 0;
    while i < ops.len()
        invariant
            i <= sc.len(),
            sc == ops@,
            sc == script(av, bv, 0, 0),
            av == view_lines(a@),
            bv == view_lines(b@),
            a@.len() <= 20000,
            b@.len() <= 20000,
            forall|q: int| 0 <= q < sc.len() ==> script_op_in_range(#[trigger] sc[q], a@.len() as int, b@.len() as int),
            rows@ + rows_from(av, bv, sc, i as int) == rows_from(av, bv, sc, 0),
        decreases sc.len() - i,
    {
        let ghost before = rows@;
        match ops[i] {
            LineOp::Equal(o, w) => {
                assert(script_op_in_range(sc[i as int], a@.len() as int, b@.len() as int));
                let ol = usize_to_string(o + 1);
                let nl = usize_to_string(w + 1);
                let code = escaped(b[w].as_slice());
                push_row(&mut rows, "ctx", ol.as_str(), nl.as_str(), ' ', code.as_str());
                assert(rows@ =~= before + ctx_row_spec((o + 1) as nat, (w + 1) as nat, bv[w as int]));
                i = i + 1;
            },
            _ => {
                let ds = i;
                proof {
                    lemma_del_end(sc, ds as int);
                }
                while i < ops.len() && matches!(ops[i], LineOp::Del(..))
                    invariant
                        ds <= i <= sc.len(),
                        sc == ops@,
                        del_end(sc, ds as int) == del_end(sc, i as int),
                    decreases sc.len() - i,
                {
                    i = i + 1;
                }
                let de = i;
                assert(del_end(sc, ds as int) == de);
                proof {
                    lemma_add_end(sc, de as int);
                }
                while i < ops.len() && matches!(ops[i], LineOp::Add(..))
                    invariant
                        de <= i <= sc.len(),
                        sc == ops@,
                        add_end(sc, de as int) == add_end(sc, i as int),
                    decreases sc.len() - i,
                {
                    i = i + 1;
                }
                let ae = i;
                assert(add_end(sc, de as int) == ae);
                assert(ds < ae) by {
                    if de == ds {
                        assert(!(sc[ds as int] is Del));
                        assert(sc[ds as int] is Add);
                    }
                }
                assert(all_dels(sc.subrange(ds as int, de as int), a@.len() as int)) by {
                    assert forall|k: int| 0 <= k < de - ds implies (#[trigger] sc.subrange(ds as int, de as int)[k]) is Del
                        && op_old(sc.subrange(ds as int, de as int)[k]) < a@.len() by {
                        assert(sc.subrange(ds as int, de as int)[k] == sc[ds + k]);
                        assert(script_op_in_range(sc[ds + k], a@.len() as int, b@.len() as int));
                    }
                }
                assert(all_adds(sc.subrange(de as int, ae as int), b@.len() as int)) by {
                    assert forall|k: int| 0 <= k < ae - de implies (#[trigger] sc.subrange(de as int, ae as int)[k]) is Add
                        && op_new(sc.subrange(de as int, ae as int)[k]) < b@.len() by {
                        assert(sc.subrange(de as int, ae as int)[k] == sc[de + k]);
                        assert(script_op_in_range(sc[de + k], a@.len() as int, b@.len() as int));
                    }
                }
                emit_replace(&mut rows, &a, &b, &ops, ds, de, ae);
                assert(rows_from(av, bv, sc, ds as int) == replace_spec(av, bv, sc.subrange(ds as int, de as int), sc.subrange(de as int, ae as int)) + rows_from(av, bv, sc, ae as int));
            },
        }
    }
    assert(rows@ =~= rows@ + rows_from(av, bv, sc, i as int));
    if rows.as_str().is_empty() {
        return String::new();
    }
    let mut r = String::new();
    push_str(&mut r, "<div class=\"diff-source\"><div class=\"diff-body\">");
    push_str(&mut r, rows.as_str());
    push_str(&mut r, "</div></div>");
    assert(r@ =~= "<div class=\"diff-source\"><div class=\"diff-body\">"@ + rows@ + "</div></div>"@);
    r
}


// ── one file against its committed version ─────────────────────────────────

/// What git holds for a file: the bytes of its committed version, nothing yet (untracked
/// or never committed, so every line counts as added), or no repository at all (the file
/// is shown as it is, without changes).
pub enum HeadVersion {
    Committed(Vec<u8>),
    NotCommitted,
    OutsideRepo,
}

/// The text a file is compared against.
pub open spec fn base_text(head: HeadVersion, new_text: Seq<char>) -> Seq<char> {
    match head {
        HeadVersion::Committed(b) => bytes_text(b@),
        HeadVersion::NotCommitted => seq![],
        HeadVersion::OutsideRepo => new_text,
    }
}

/// The notice for a file that could not be read.
pub open spec fn unreadable_message() -> Seq<char> {
    "ファイルを読み込めませんでした"@
}

/// The notice for a file that is not UTF-8.
pub open spec fn binary_message() -> Seq<char> {
    "バイナリファイルは差分表示できません"@
}

/// The diff pane for the file `name` with the bytes `contents` (`None` when it could not be
/// read): a notice for an unreadable or non-UTF-8 file; nothing when the diff has no rows;
/// else the rows under a title bar holding the name and `Diff`.
pub open spec fn diff_inner_spec(name: Seq<char>, contents: Option<Seq<u8>>, head: HeadVersion) -> Seq<char> {
    match contents {
        None => message_html_spec(unreadable_message()),
        Some(b) => if !valid_utf8(b) {
            message_html_spec(binary_message())
        } else {
            let new_text = decode_utf8(b);
            let inner = source_diff_spec(base_text(head, new_text), new_text);
            if inner.len() == 0 {
                seq![]
            } else {
                "<div class=\"source-view\"><div class=\"source-titlebar\"><span class=\"source-fname\">"@
                    + html_escape_spec(name) + "</span><span class=\"source-lang\">Diff</span></div>"@ + inner
                    + "</div>"@
            }
        },
    }
}

/// Renders [`diff_inner_spec`]. Reading the file and asking git are the caller's part.
pub fn render_diff_inner(name: &str, contents: Option<&[u8]>, head: &HeadVersion) -> (r: String)
    ensures
        r@ == diff_inner_spec(name@, match contents { Some(b) => Some(b@), None => None }, *head),
{
    let bytes = match contents {
        None => return message_html("ファイルを読み込めませんでした"),
        Some(b) => b,
    };
    let new_src = match str_from_utf8(bytes) {
        None => return message_html("バイナリファイルは差分表示できません"),
        Some(s) => s,
    };
    proof {
        encode_utf8_decode_utf8(new_src@);
    }
    let old_src: String = match head {
        HeadVersion::Committed(b) => text_from_bytes(b.as_slice()),
        HeadVersion::NotCommitted => String::new(),
        HeadVersion::OutsideRepo => new_src.to_owned(),
    };
    let inner = render_source_diff(old_src.as_str(), new_src);
    if inner.as_str().is_empty() {
        return String::new();
    }
    let mut r = String::new();
    push_str(&mut r, "<div class=\"source-view\"><div class=\"source-titlebar\"><span class=\"source-fname\">");
    let nv = chars_of(name);
    push_html_escaped(&mut r, nv.as_slice());
    push_str(&mut r, "</span><span class=\"source-lang\">Diff</span></div>");
    push_str(&mut r, inner.as_str());
    push_str(&mut r, "</div>");
    r
}

/// The first line of `s` split at tabs: the text before the first tab and between the
/// first and second tab (`None` for a field that is not there).
pub open spec fn numstat_fields(line: Seq<char>) -> (Option<Seq<char>>, Option<Seq<char>>) {
    match crate::text::first_index_of(line, '\t') {
        None => (Some(line), None),
        Some(t) => {
            let rest = line.subrange(t + 1, line.len() as int);
            match crate::text::first_index_of(rest, '\t') {
                None => (Some(line.subrange(0, t)), Some(rest)),
                Some(u) => (Some(line.subrange(0, t)), Some(rest.subrange(0, u))),
            }
        },
    }
}

/// A count field of `git diff --numstat`: the number it holds, 0 when it is missing or
/// is no number (binary files show `-`).
pub open spec fn count_field(f: Option<Seq<char>>) -> nat {
    match f {
        None => 0,
        Some(t) => match parse_int_spec(t, false) {
            Some(x) => if x <= usize::MAX { (x as usize) as nat } else { 0 },
            None => 0,
        },
    }
}

/// The added and deleted line counts that `git diff --numstat` printed on its first line
/// (`<added>\t<deleted>\t<path>`); `None` when it printed no line at all.
pub open spec fn numstat_spec(out: Seq<char>) -> Option<(nat, nat)> {
    let ls = lines_spec(out);
    if ls.len() == 0 {
        None
    } else {
        let (a, d) = numstat_fields(ls[0]);
        Some((count_field(a), count_field(d)))
    }
}

fn field_count(v: &[char]) -> (r: usize)
    ensures
        r == count_field(Some(v@)),
{
    match parse_usize(v) {
        Some(x) => x,
        None => 0,
    }
}

/// Reads the counts of [`numstat_spec`] from the output of `git diff --numstat`.
pub fn numstat_counts(stdout: &[u8]) -> (r: Option<(usize, usize)>)
    ensures
        match numstat_spec(bytes_text(stdout@)) {
            None => r is None,
            Some((a, d)) => r == Some((a as usize, d as usize)),
        },
{
    let text = text_from_bytes(stdout);
    let cs = chars_of(text.as_str());
    let ls = split_lines(cs.as_slice());
    if ls.len() == 0 {
        return None;
    }
    let line = &ls[0];
    let ll = line.len();
    let ghost lv = line@;
    match crate::text::find_char(line.as_slice(), '\t') {
        None => {
            proof { crate::text::lemma_first_index_of(lv, '\t'); }
            Some((field_count(line.as_slice()), 0))
        },
        Some(t) => {
            let first = crate::text::slice_to_vec(line.as_slice(), 0, t);
            let rest = crate::text::slice_to_vec(line.as_slice(), t + 1, ll);
            let a = field_count(first.as_slice());
            match crate::text::find_char(rest.as_slice(), '\t') {
                None => {
                    proof { crate::text::lemma_first_index_of(rest@, '\t'); }
                    Some((a, field_count(rest.as_slice())))
                },
                Some(u) => {
                    let second = crate::text::slice_to_vec(rest.as_slice(), 0, u);
                    Some((a, field_count(second.as_slice())))
                },
            }
        },
    }
}

/// The path of a `git diff --numstat` line: the text after its second tab, when there is
/// one.
pub open spec fn numstat_path(line: Seq<char>) -> Option<Seq<char>> {
    match crate::text::first_index_of(line, '\t') {
        None => None,
        Some(t) => {
            let rest = line.subrange(t + 1, line.len() as int);
            match crate::text::first_index_of(rest, '\t') {
                None => None,
                Some(u) => Some(rest.subrange(u + 1, rest.len() as int)),
            }
        },
    }
}

/// The changed files of `git diff --numstat` lines: for each line with a path, the path
/// and its added and deleted counts, in order.
pub open spec fn changes_spec(ls: Seq<Seq<char>>) -> Seq<(Seq<char>, nat, nat)>
    decreases ls.len(),
{
    if ls.len() == 0 {
        seq![]
    } else {
        let l = ls.last();
        let (a, d) = numstat_fields(l);
        changes_spec(ls.drop_last()) + match numstat_path(l) {
            Some(p) => seq![(p, count_field(a), count_field(d))],
            None => seq![],
        }
    }
}

/// The view of a list of changed files.
pub open spec fn changes_view(v: Seq<(String, usize, usize)>) -> Seq<(Seq<char>, nat, nat)> {
    v.map_values(|c: (String, usize, usize)| (c.0@, c.1 as nat, c.2 as nat))
}

/// Reads every line of `git diff --numstat` output (see [`changes_spec`]).
pub fn numstat_changes(stdout: &[u8]) -> (r: Vec<(String, usize, usize)>)
    ensures
        changes_view(r@) == changes_spec(lines_spec(bytes_text(stdout@))),
{
    let text = text_from_bytes(stdout);
    let cs = chars_of(text.as_str());
    let ls = split_lines(cs.as_slice());
    let ghost lv = lines_spec(cs@);
    let mut out: Vec<(String, usize, usize)> = Vec::new();
    let mut i: usize = 0;
    while i < ls.len()
        invariant
            i <= ls@.len(),
            ls@.len() == lv.len(),
            forall|q: int| 0 <= q < ls@.len() ==> (#[trigger] ls@[q])@ == lv[q],
            changes_view(out@) == changes_spec(lv.take(i as int)),
        decreases ls@.len() - i,
    {
        let line = &ls[i];
        let ghost l = line@;
        assert(l == lv[i as int]);
        assert(lv.take(i + 1).drop_last() =~= lv.take(i as int));
        assert(lv.take(i + 1).last() == l);
        let ghost before = out@;
        let ll = line.len();
        match crate::text::find_char(line.as_slice(), '\t') {
            None => {},
            Some(t) => {
                let first = crate::text::slice_to_vec(line.as_slice(), 0, t);
                let rest = crate::text::slice_to_vec(line.as_slice(), t + 1, ll);
                match crate::text::find_char(rest.as_slice(), '\t') {
                    None => {},
                    Some(u) => {
                        let second = crate::text::slice_to_vec(rest.as_slice(), 0, u);
                        let path = crate::text::slice_to_vec(rest.as_slice(), u + 1, rest.len());
                        let a = field_count(first.as_slice());
                        let d = field_count(second.as_slice());
                        out.push((crate::text::string_of(path.as_slice()), a, d));
                        assert(changes_view(out@) =~= changes_view(before) + seq![(path@, a as nat, d as nat)]);
                    },
                }
            },
        }
        i = i + 1;
    }
    assert(lv.take(ls@.len() as int) =~= lv);
    out
}

/// How many lines `str::lines` finds in `text`.
pub fn line_count(text: &str) -> (r: usize)
    ensures
        r == lines_spec(text@).len(),
{
    let cs = chars_of(text);
    let ls = split_lines(cs.as_slice());
    ls.len()
}

} // verus!
