//! Unix paths as text: the file name and extension of a path, the way `std::path::Path`
//! reads them, and ASCII case folding.

use vstd::prelude::*;
use crate::text::{chars_of, push_str, slice_to_vec, string_of};

verus! {

/// Whether `s` ends with `/.`.
pub open spec fn ends_with_cur(s: Seq<char>) -> bool {
    s.len() >= 2 && s[s.len() - 1] == '.' && s[s.len() - 2] == '/'
}

/// `p` without trailing separators and trailing `.` components.
pub open spec fn strip_tail(p: Seq<char>) -> Seq<char>
    decreases p.len(),
{
    if p.len() > 0 && p.last() == '/' {
        strip_tail(p.drop_last())
    } else if ends_with_cur(p) {
        strip_tail(p.subrange(0, p.len() - 2))
    } else {
        p
    }
}

/// Index of the last `c` in `s`, if any.
pub open spec fn last_index_of(s: Seq<char>, c: char) -> Option<int>
    decreases s.len(),
{
    if s.len() == 0 {
        None
    } else if s.last() == c {
        Some(s.len() - 1)
    } else {
        last_index_of(s.drop_last(), c)
    }
}

/// The last component of `p` (`Path::file_name`): none for a path that ends in `..`, is
/// `.`, or is only separators.
pub open spec fn file_name(p: Seq<char>) -> Option<Seq<char>> {
    let t = strip_tail(p);
    let last = match last_index_of(t, '/') {
        Some(k) => t.subrange(k + 1, t.len() as int),
        None => t,
    };
    if last.len() == 0 || last == "."@ || last == ".."@ {
        None
    } else {
        Some(last)
    }
}

/// The extension of a file name: the text after its last `.`, unless that dot starts the
/// name or there is none.
pub open spec fn name_extension(n: Seq<char>) -> Option<Seq<char>> {
    match last_index_of(n, '.') {
        Some(k) => if k == 0 { None } else { Some(n.subrange(k + 1, n.len() as int)) },
        None => None,
    }
}

/// `Path::extension`.
pub open spec fn extension(p: Seq<char>) -> Option<Seq<char>> {
    match file_name(p) {
        Some(n) => name_extension(n),
        None => None,
    }
}

/// ASCII lower case of one character.
pub open spec fn lower_char(c: char) -> char {
    if 'A' <= c && c <= 'Z' {
        ((c as u32) + 32) as char
    } else {
        c
    }
}

/// `str::to_ascii_lowercase`.
pub open spec fn ascii_lower(s: Seq<char>) -> Seq<char> {
    Seq::new(s.len(), |i: int| lower_char(s[i]))
}

/// The lower-cased extension of `p`.
pub open spec fn ext_lower(p: Seq<char>) -> Option<Seq<char>> {
    match extension(p) {
        Some(e) => Some(ascii_lower(e)),
        None => None,
    }
}

pub fn lower(c: char) -> (r: char)
    ensures
        r == lower_char(c),
{
    if 'A' <= c && c <= 'Z' {
        let v = (c as u32) + 32;
        proof {
            assert(v <= 0x7F);
        }
        char_from_ascii(v)
    } else {
        c
    }
}

/// The ASCII character with code `v`.
fn char_from_ascii(v: u32) -> (r: char)
    requires
        v < 128,
    ensures
        r == v as char,
{
    let b = v as u8;
    let c = b as char;
    assert(c as u32 == v);
    c
}

/// `to_ascii_lowercase` of `v`.
pub fn lower_chars(v: &[char]) -> (r: Vec<char>)
    ensures
        r@ == ascii_lower(v@),
{
    let mut out: Vec<char> = Vec::new();
    let mut i: usize = 0;
    while i < v.len()
        invariant
            i <= v@.len(),
            out@ =~= ascii_lower(v@.take(i as int)),
        decreases v@.len() - i,
    {
        out.push(lower(v[i]));
        i = i + 1;
    }
    assert(v@.take(i as int) =~= v@);
    out
}

/// Index of the last `c` in `v`.
pub fn rfind_char(v: &[char], c: char) -> (r: Option<usize>)
    ensures
        r matches Some(k) ==> last_index_of(v@, c) == Some(k as int) && k < v@.len(),
        r is None ==> last_index_of(v@, c) is None,
{
    let mut k = v.len();
    assert(v@.take(k as int) =~= v@);
    while k > 0
        invariant
            k <= v@.len(),
            last_index_of(v@.take(k as int), c) == last_index_of(v@, c),
        decreases k,
    {
        assert(v@.take(k as int).drop_last() =~= v@.take(k - 1));
        if v[k - 1] == c {
            return Some(k - 1);
        }
        k = k - 1;
    }
    None
}

proof fn lemma_last_index_bound(s: Seq<char>, c: char)
    ensures
        last_index_of(s, c) matches Some(k) ==> 0 <= k < s.len() && s[k] == c,
    decreases s.len(),
{
    if s.len() > 0 && s.last() != c {
        lemma_last_index_bound(s.drop_last(), c);
    }
}

/// [`strip_tail`] of `v`, as a length.
fn strip_tail_len(v: &[char]) -> (r: usize)
    ensures
        r <= v@.len(),
        v@.take(r as int) == strip_tail(v@),
{
    let mut n = v.len();
    assert(v@.take(n as int) =~= v@);
    loop
        invariant
            n <= v@.len(),
            strip_tail(v@.take(n as int)) == strip_tail(v@),
        decreases n,
    {
        if n > 0 && v[n - 1] == '/' {
            assert(v@.take(n as int).drop_last() =~= v@.take(n - 1));
            n = n - 1;
        } else if n >= 2 && v[n - 1] == '.' && v[n - 2] == '/' {
            assert(v@.take(n as int).subrange(0, n - 2) =~= v@.take(n - 2));
            n = n - 2;
        } else {
            return n;
        }
    }
}

/// [`file_name`] of `p`.
pub fn file_name_of(p: &str) -> (r: Option<Vec<char>>)
    ensures
        match file_name(p@) {
            Some(n) => r matches Some(v) && v@ == n,
            None => r is None,
        },
{
    let v = chars_of(p);
    let n = strip_tail_len(v.as_slice());
    let t = slice_to_vec(v.as_slice(), 0, n);
    let ghost tv = t@;
    assert(tv == strip_tail(p@));
    let ghost spec_last = match last_index_of(tv, '/') {
        Some(k) => tv.subrange(k + 1, tv.len() as int),
        None => tv,
    };
    let last = match rfind_char(t.as_slice(), '/') {
        Some(k) => slice_to_vec(t.as_slice(), k + 1, t.len()),
        None => t,
    };
    assert(last@ == spec_last);
    proof {
        reveal_strlit(".");
        reveal_strlit("..");
    }
    if last.len() == 0 || (last.len() == 1 && last[0] == '.') || (last.len() == 2 && last[0] == '.' && last[1] == '.') {
        proof {
            if last@.len() == 1 {
                assert(last@ =~= "."@);
            }
            if last@.len() == 2 {
                assert(last@ =~= ".."@);
            }
        }
        None
    } else {
        proof {
            if last@ == "."@ {
                assert(last@[0] == '.');
            }
            if last@ == ".."@ {
                assert(last@[0] == '.' && last@[1] == '.');
            }
        }
        Some(last)
    }
}

/// [`ext_lower`] of `p`.
pub fn ext_lower_of(p: &str) -> (r: Option<Vec<char>>)
    ensures
        match ext_lower(p@) {
            Some(e) => r matches Some(v) && v@ == e,
            None => r is None,
        },
{
    match file_name_of(p) {
        None => None,
        Some(n) => match rfind_char(n.as_slice(), '.') {
            None => None,
            Some(k) => {
                if k == 0 {
                    None
                } else {
                    let nl = n.len();
                    let e = slice_to_vec(n.as_slice(), k + 1, nl);
                    Some(lower_chars(e.as_slice()))
                }
            },
        },
    }
}

/// Whether `v` is one of `names`.
pub open spec fn one_of(v: Seq<char>, names: Seq<Seq<char>>) -> bool {
    exists|k: int| 0 <= k < names.len() && names[k] == v
}


// ── components ──────────────────────────────────────────────────────────────

/// One component of a Unix path.
pub enum Comp {
    Root,
    Cur,
    Parent,
    Normal(Seq<char>),
}

/// The pieces of `p` between `/` separators (one piece for a path without separators).
pub open spec fn pieces(p: Seq<char>) -> Seq<Seq<char>>
    decreases p.len(),
{
    match last_index_of(p, '/') {
        None => seq![p],
        Some(k) => {
            if 0 <= k < p.len() {
                pieces(p.subrange(0, k)).push(p.subrange(k + 1, p.len() as int))
            } else {
                seq![p]
            }
        },
    }
}

/// The component a piece after the first stands for: none for an empty piece or `.`.
pub open spec fn later_comp(piece: Seq<char>) -> Seq<Comp> {
    if piece.len() == 0 || piece == "."@ {
        seq![]
    } else if piece == ".."@ {
        seq![Comp::Parent]
    } else {
        seq![Comp::Normal(piece)]
    }
}

/// The component the first piece stands for: the root for an absolute path, `.` kept.
pub open spec fn first_comp(piece: Seq<char>, whole: Seq<char>) -> Seq<Comp> {
    if piece.len() == 0 {
        if whole.len() > 0 { seq![Comp::Root] } else { seq![] }
    } else if piece == "."@ {
        seq![Comp::Cur]
    } else if piece == ".."@ {
        seq![Comp::Parent]
    } else {
        seq![Comp::Normal(piece)]
    }
}

/// The components of the pieces `ps` (all after the first piece).
pub open spec fn later_comps(ps: Seq<Seq<char>>) -> Seq<Comp>
    decreases ps.len(),
{
    if ps.len() == 0 {
        seq![]
    } else {
        later_comps(ps.drop_last()) + later_comp(ps.last())
    }
}

/// `Path::components` of `p`: repeated separators and `.` (but a leading one) dropped.
pub open spec fn comps(p: Seq<char>) -> Seq<Comp> {
    let ps = pieces(p);
    first_comp(ps[0], p) + later_comps(ps.drop_first())
}

/// Lexical normalization state: whether the path is absolute, and its names.
pub open spec fn norm(cs: Seq<Comp>) -> (bool, Seq<Seq<char>>)
    decreases cs.len(),
{
    if cs.len() == 0 {
        (false, seq![])
    } else {
        let (rooted, names) = norm(cs.drop_last());
        match cs.last() {
            Comp::Root => (true, names),
            Comp::Cur => (rooted, names),
            Comp::Parent => (rooted, if names.len() > 0 { names.drop_last() } else { names }),
            Comp::Normal(n) => (rooted, names.push(n)),
        }
    }
}

/// Names joined with `/`.
pub open spec fn join_slash(names: Seq<Seq<char>>) -> Seq<char>
    decreases names.len(),
{
    if names.len() == 0 {
        seq![]
    } else if names.len() == 1 {
        names[0]
    } else {
        join_slash(names.drop_last()) + "/"@ + names.last()
    }
}

/// `p` with `.` dropped and each `..` taking away the name before it (never above the
/// root or the start), as text.
pub open spec fn normalize_spec(p: Seq<char>) -> Seq<char> {
    let (rooted, names) = norm(comps(p));
    (if rooted { "/"@ } else { seq![] }) + join_slash(names)
}

/// `Path::join`: `rel` itself when it is absolute, else `rel` under `dir`.
pub open spec fn join_spec(dir: Seq<char>, rel: Seq<char>) -> Seq<char> {
    if rel.len() > 0 && rel[0] == '/' {
        rel
    } else if dir.len() == 0 {
        rel
    } else if dir.last() == '/' {
        dir + rel
    } else {
        dir + "/"@ + rel
    }
}

/// Renders [`join_spec`].
pub fn join(dir: &str, rel: &str) -> (r: String)
    ensures
        r@ == join_spec(dir@, rel@),
{
    let dv = chars_of(dir);
    let rv = chars_of(rel);
    if rv.len() > 0 && rv[0] == '/' {
        return string_of(rv.as_slice());
    }
    if dv.len() == 0 {
        return string_of(rv.as_slice());
    }
    let mut r = string_of(dv.as_slice());
    if dv[dv.len() - 1] != '/' {
        crate::text::push_char(&mut r, '/');
    }
    crate::text::push_str(&mut r, rel);
    proof {
        reveal_strlit("/");
    }
    assert(r@ =~= join_spec(dir@, rel@));
    r
}

/// The pieces of `v`, as vectors.
fn split_pieces(v: &[char]) -> (r: Vec<Vec<char>>)
    ensures
        r@.map_values(|x: Vec<char>| x@) == pieces(v@),
        r@.len() >= 1,
    decreases v@.len(),
{
    match rfind_char(v, '/') {
        None => {
            let mut r: Vec<Vec<char>> = Vec::new();
            r.push(slice_to_vec(v, 0, v.len()));
            assert(v@.subrange(0, v@.len() as int) =~= v@);
            assert(r@.map_values(|x: Vec<char>| x@) =~= seq![v@]);
            r
        },
        Some(k) => {
            let vl = v.len();
            let head = slice_to_vec(v, 0, k);
            let mut r = split_pieces(head.as_slice());
            let ghost r0 = r@;
            r.push(slice_to_vec(v, k + 1, vl));
            assert(r@.map_values(|x: Vec<char>| x@) =~= r0.map_values(|x: Vec<char>| x@).push(v@.subrange(k + 1, v@.len() as int)));
            r
        },
    }
}

fn is_dot(v: &Vec<char>) -> (r: bool)
    ensures
        r == (v@ == "."@),
{
    proof {
        reveal_strlit(".");
    }
    if v.len() == 1 && v[0] == '.' {
        assert(v@ =~= "."@);
        true
    } else {
        false
    }
}

fn is_dotdot(v: &Vec<char>) -> (r: bool)
    ensures
        r == (v@ == ".."@),
{
    proof {
        reveal_strlit("..");
    }
    if v.len() == 2 && v[0] == '.' && v[1] == '.' {
        assert(v@ =~= ".."@);
        true
    } else {
        false
    }
}

/// The names of [`norm`] as vectors, with the root flag.
fn norm_of(p: &str) -> (r: (bool, Vec<Vec<char>>))
    ensures
        r.0 == norm(comps(p@)).0,
        r.1@.map_values(|x: Vec<char>| x@) == norm(comps(p@)).1,
{
    let v = chars_of(p);
    let ps = split_pieces(v.as_slice());
    let ghost pv = pieces(p@);
    let ghost cs = comps(p@);
    let mut rooted = false;
    let mut names: Vec<Vec<char>> = Vec::new();
    // the first piece
    let first = &ps[0];
    assert(ps@[0]@ == pv[0]);
    let ghost fc = first_comp(pv[0], p@);
    if first.len() == 0 {
        if v.len() > 0 {
            rooted = true;
        }
    } else if is_dot(first) {
    } else if is_dotdot(first) {
    } else {
        names.push(slice_to_vec(first.as_slice(), 0, first.len()));
        assert(first@.subrange(0, first@.len() as int) =~= first@);
    }
    proof {
        assert(fc =~= cs.take(fc.len() as int));
        reveal_with_fuel(norm, 2);
        if fc.len() == 1 {
            assert(fc.drop_last() =~= Seq::<Comp>::empty());
        }
    }
    assert(names@.map_values(|x: Vec<char>| x@) =~= norm(fc).1);
    let mut k: usize = 1;
    while k < ps.len()
        invariant
            1 <= k <= ps@.len(),
            ps@.map_values(|x: Vec<char>| x@) == pv,
            pv == pieces(p@),
            cs == comps(p@),
            cs == first_comp(pv[0], p@) + later_comps(pv.drop_first()),
            rooted == norm(first_comp(pv[0], p@) + later_comps(pv.subrange(1, k as int))).0,
            names@.map_values(|x: Vec<char>| x@) == norm(first_comp(pv[0], p@) + later_comps(pv.subrange(1, k as int))).1,
        decreases ps@.len() - k,
    {
        let piece = &ps[k];
        assert(ps@[k as int]@ == pv[k as int]);
        let ghost before = first_comp(pv[0], p@) + later_comps(pv.subrange(1, k as int));
        let ghost after = first_comp(pv[0], p@) + later_comps(pv.subrange(1, k + 1));
        assert(pv.subrange(1, k + 1).drop_last() =~= pv.subrange(1, k as int));
        assert(after =~= before + later_comp(pv[k as int]));
        let ghost n0 = names@;
        if piece.len() == 0 || is_dot(piece) {
            assert(after =~= before);
        } else if is_dotdot(piece) {
            assert(after.drop_last() =~= before);
            if names.len() > 0 {
                names.pop();
                assert(names@.map_values(|x: Vec<char>| x@) =~= n0.map_values(|x: Vec<char>| x@).drop_last());
            }
        } else {
            assert(after.drop_last() =~= before);
            names.push(slice_to_vec(piece.as_slice(), 0, piece.len()));
            assert(piece@.subrange(0, piece@.len() as int) =~= piece@);
            assert(names@.map_values(|x: Vec<char>| x@) =~= n0.map_values(|x: Vec<char>| x@).push(pv[k as int]));
        }
        k = k + 1;
    }
    assert(pv.subrange(1, k as int) =~= pv.drop_first());
    (rooted, names)
}

/// Appends [`join_slash`] of `names`.
fn push_joined(out: &mut String, names: &Vec<Vec<char>>)
    ensures
        final(out)@ == old(out)@ + join_slash(names@.map_values(|x: Vec<char>| x@)),
{
    let ghost nv = names@.map_values(|x: Vec<char>| x@);
    let ghost o0 = out@;
    let mut k: usize = 0;
    assert(nv.take(0) =~= Seq::<Seq<char>>::empty());
    while k < names.len()
        invariant
            k <= names@.len(),
            nv == names@.map_values(|x: Vec<char>| x@),
            out@ == o0 + join_slash(nv.take(k as int)),
        decreases names@.len() - k,
    {
        assert(nv.take(k + 1).drop_last() =~= nv.take(k as int));
        if k > 0 {
            crate::text::push_char(out, '/');
        }
        crate::text::push_chars(out, names[k].as_slice());
        proof {
            reveal_strlit("/");
            if k == 0 {
                assert(nv.take(1) =~= seq![nv[0]]);
            }
        }
        assert(out@ =~= o0 + join_slash(nv.take(k + 1)));
        k = k + 1;
    }
    assert(nv.take(k as int) =~= nv);
}

/// Renders [`normalize_spec`].
pub fn normalize(p: &str) -> (r: String)
    ensures
        r@ == normalize_spec(p@),
{
    let (rooted, names) = norm_of(p);
    let mut r = String::new();
    if rooted {
        crate::text::push_str(&mut r, "/");
    }
    push_joined(&mut r, &names);
    proof {
        reveal_strlit("/");
    }
    assert(r@ =~= normalize_spec(p@));
    r
}


/// A path component, for running code.
pub enum PathComp {
    Root,
    Cur,
    Parent,
    Normal(Vec<char>),
}

/// The component a [`PathComp`] stands for.
pub open spec fn comp_view(c: PathComp) -> Comp {
    match c {
        PathComp::Root => Comp::Root,
        PathComp::Cur => Comp::Cur,
        PathComp::Parent => Comp::Parent,
        PathComp::Normal(n) => Comp::Normal(n@),
    }
}

/// The components a list of [`PathComp`] stands for.
pub open spec fn comps_view(v: Seq<PathComp>) -> Seq<Comp> {
    v.map_values(|c: PathComp| comp_view(c))
}

fn later_comp_of(piece: &Vec<char>) -> (r: Option<PathComp>)
    ensures
        match r {
            Some(c) => later_comp(piece@) == seq![comp_view(c)],
            None => later_comp(piece@) == Seq::<Comp>::empty(),
        },
{
    if piece.len() == 0 || is_dot(piece) {
        None
    } else if is_dotdot(piece) {
        Some(PathComp::Parent)
    } else {
        let n = slice_to_vec(piece.as_slice(), 0, piece.len());
        assert(piece@.subrange(0, piece@.len() as int) =~= piece@);
        Some(PathComp::Normal(n))
    }
}

/// [`comps`] of `p`.
pub fn comps_of(p: &str) -> (r: Vec<PathComp>)
    ensures
        comps_view(r@) == comps(p@),
{
    let v = chars_of(p);
    let ps = split_pieces(v.as_slice());
    let ghost pv = pieces(p@);
    let mut out: Vec<PathComp> = Vec::new();
    let first = &ps[0];
    assert(ps@[0]@ == pv[0]);
    if first.len() == 0 {
        if v.len() > 0 {
            out.push(PathComp::Root);
        }
    } else if is_dot(first) {
        out.push(PathComp::Cur);
    } else if is_dotdot(first) {
        out.push(PathComp::Parent);
    } else {
        out.push(PathComp::Normal(slice_to_vec(first.as_slice(), 0, first.len())));
        assert(first@.subrange(0, first@.len() as int) =~= first@);
    }
    assert(comps_view(out@) =~= first_comp(pv[0], p@));
    let mut k: usize = 1;
    while k < ps.len()
        invariant
            1 <= k <= ps@.len(),
            ps@.map_values(|x: Vec<char>| x@) == pv,
            pv == pieces(p@),
            comps_view(out@) == first_comp(pv[0], p@) + later_comps(pv.subrange(1, k as int)),
        decreases ps@.len() - k,
    {
        assert(ps@[k as int]@ == pv[k as int]);
        assert(pv.subrange(1, k + 1).drop_last() =~= pv.subrange(1, k as int));
        let ghost o0 = out@;
        match later_comp_of(&ps[k]) {
            Some(c) => {
                out.push(c);
                assert(comps_view(out@) =~= comps_view(o0) + later_comp(pv[k as int]));
            },
            None => {
                assert(comps_view(out@) =~= comps_view(o0) + later_comp(pv[k as int]));
            },
        }
        assert(first_comp(pv[0], p@) + later_comps(pv.subrange(1, k + 1))
            =~= first_comp(pv[0], p@) + later_comps(pv.subrange(1, k as int)) + later_comp(pv[k as int]));
        k = k + 1;
    }
    assert(pv.subrange(1, k as int) =~= pv.drop_first());
    out
}

/// The text a component stands for in a relative remainder.
pub open spec fn comp_text(c: Comp) -> Seq<char> {
    match c {
        Comp::Root => seq![],
        Comp::Cur => "."@,
        Comp::Parent => ".."@,
        Comp::Normal(n) => n,
    }
}

/// `path` relative to `base` (`Path::strip_prefix`): when the components of `base` start
/// those of `path`, the remaining components joined with `/`.
pub open spec fn strip_prefix_spec(path: Seq<char>, base: Seq<char>) -> Option<Seq<char>> {
    let pc = comps(path);
    let bc = comps(base);
    if bc.len() <= pc.len() && pc.take(bc.len() as int) == bc {
        Some(join_slash(pc.skip(bc.len() as int).map_values(|c: Comp| comp_text(c))))
    } else {
        None
    }
}

pub(crate) fn comp_eq(a: &PathComp, b: &PathComp) -> (r: bool)
    ensures
        r == (comp_view(*a) == comp_view(*b)),
{
    match (a, b) {
        (PathComp::Root, PathComp::Root) => true,
        (PathComp::Cur, PathComp::Cur) => true,
        (PathComp::Parent, PathComp::Parent) => true,
        (PathComp::Normal(x), PathComp::Normal(y)) => crate::text::chars_eq(x.as_slice(), y.as_slice()),
        _ => false,
    }
}

pub(crate) fn comp_chars(c: &PathComp) -> (r: Vec<char>)
    ensures
        r@ == comp_text(comp_view(*c)),
{
    proof {
        reveal_strlit(".");
        reveal_strlit("..");
    }
    match c {
        PathComp::Root => Vec::new(),
        PathComp::Cur => {
            let mut v: Vec<char> = Vec::new();
            v.push('.');
            assert(v@ =~= "."@);
            v
        },
        PathComp::Parent => {
            let mut v: Vec<char> = Vec::new();
            v.push('.');
            v.push('.');
            assert(v@ =~= ".."@);
            v
        },
        PathComp::Normal(n) => slice_to_vec(n.as_slice(), 0, n.len()),
    }
}

/// Renders [`strip_prefix_spec`].
pub fn strip_prefix(path: &str, base: &str) -> (r: Option<String>)
    ensures
        match strip_prefix_spec(path@, base@) {
            Some(t) => r matches Some(x) && x@ == t,
            None => r is None,
        },
{
    let pc = comps_of(path);
    let bc = comps_of(base);
    let ghost pv = comps_view(pc@);
    let ghost bv = comps_view(bc@);
    if bc.len() > pc.len() {
        return None;
    }
    let mut k: usize = 0;
    while k < bc.len()
        invariant
            k <= bc@.len(),
            bc@.len() <= pc@.len(),
            pv == comps_view(pc@),
            bv == comps_view(bc@),
            pv == comps(path@),
            bv == comps(base@),
            forall|q: int| 0 <= q < k ==> pv[q] == bv[q],
        decreases bc@.len() - k,
    {
        assert(pv[k as int] == comp_view(pc@[k as int]));
        assert(bv[k as int] == comp_view(bc@[k as int]));
        if !comp_eq(&pc[k], &bc[k]) {
            assert(pv.take(bv.len() as int)[k as int] != bv[k as int]);
            return None;
        }
        k = k + 1;
    }
    assert(pv.take(bv.len() as int) =~= bv);
    let mut names: Vec<Vec<char>> = Vec::new();
    let mut q = bc.len();
    let ghost rest = pv.skip(bv.len() as int).map_values(|c: Comp| comp_text(c));
    while q < pc.len()
        invariant
            bc@.len() <= q <= pc@.len(),
            pv == comps_view(pc@),
            bv == comps_view(bc@),
            rest == pv.skip(bv.len() as int).map_values(|c: Comp| comp_text(c)),
            names@.map_values(|x: Vec<char>| x@) == rest.take(q - bc@.len()),
        decreases pc@.len() - q,
    {
        let ghost n0 = names@;
        names.push(comp_chars(&pc[q]));
        assert(rest.take(q + 1 - bc@.len()) =~= rest.take(q - bc@.len()).push(rest[q - bc@.len()]));
        assert(names@.map_values(|x: Vec<char>| x@) =~= n0.map_values(|x: Vec<char>| x@).push(rest[q - bc@.len()]));
        q = q + 1;
    }
    assert(rest.take(q - bc@.len()) =~= rest);
    let mut r = String::new();
    push_joined(&mut r, &names);
    Some(r)
}


// ── paths as components ─────────────────────────────────────────────────────

/// `Path::parent` on components: all but the last component; none when there are no
/// components or the last one is the root.
pub open spec fn parent_comps(c: Seq<Comp>) -> Option<Seq<Comp>> {
    if c.len() == 0 || c.last() == Comp::Root {
        None
    } else {
        Some(c.drop_last())
    }
}

/// `Path::starts_with` on components: `a` is a leading run of `b`.
pub open spec fn comp_prefix(a: Seq<Comp>, b: Seq<Comp>) -> bool {
    a.len() <= b.len() && b.take(a.len() as int) == a
}

/// A path written from its components: `/` for a leading root, the others joined with `/`.
pub open spec fn comps_path(c: Seq<Comp>) -> Seq<char> {
    if c.len() > 0 && c[0] == Comp::Root {
        "/"@ + join_slash(c.drop_first().map_values(|x: Comp| comp_text(x)))
    } else {
        join_slash(c.map_values(|x: Comp| comp_text(x)))
    }
}

/// Whether a component is the root.
pub(crate) fn is_root(c: &PathComp) -> (r: bool)
    ensures
        r == (comp_view(*c) == Comp::Root),
{
    match c {
        PathComp::Root => true,
        _ => false,
    }
}

/// Whether the first `n` components of `a` are a leading run of the first `m` of `b`.
pub(crate) fn comps_prefix(a: &[PathComp], n: usize, b: &[PathComp], m: usize) -> (r: bool)
    requires
        n <= a@.len(),
        m <= b@.len(),
    ensures
        r == comp_prefix(comps_view(a@).take(n as int), comps_view(b@).take(m as int)),
{
    let ghost av = comps_view(a@).take(n as int);
    let ghost bv = comps_view(b@).take(m as int);
    if n > m {
        return false;
    }
    let mut k: usize = 0;
    while k < n
        invariant
            k <= n <= m,
            n <= a@.len(),
            m <= b@.len(),
            av == comps_view(a@).take(n as int),
            bv == comps_view(b@).take(m as int),
            forall|q: int| 0 <= q < k ==> av[q] == bv[q],
        decreases n - k,
    {
        if !comp_eq(&a[k], &b[k]) {
            assert(bv.take(n as int)[k as int] != av[k as int]);
            return false;
        }
        k = k + 1;
    }
    assert(bv.take(n as int) =~= av);
    true
}

/// The path written from the first `n` components of `v` (see [`comps_path`]).
pub(crate) fn path_of_comps(v: &[PathComp], n: usize) -> (r: String)
    requires
        n <= v@.len(),
    ensures
        r@ == comps_path(comps_view(v@).take(n as int)),
{
    let ghost c = comps_view(v@).take(n as int);
    let mut s = String::new();
    let mut start: usize = 0;
    if n > 0 && is_root(&v[0]) {
        push_str(&mut s, "/");
        start = 1;
    }
    let ghost rest = if start == 1 { c.drop_first() } else { c };
    let ghost ts = rest.map_values(|x: Comp| comp_text(x));
    let ghost pre = s@;
    assert(ts.take(0) =~= Seq::<Seq<char>>::empty());
    let mut k: usize = start;
    while k < n
        invariant
            start <= k <= n,
            n <= v@.len(),
            start <= 1,
            c == comps_view(v@).take(n as int),
            rest == (if start == 1 { c.drop_first() } else { c }),
            ts == rest.map_values(|x: Comp| comp_text(x)),
            ts.len() == n - start,
            s@ == pre + join_slash(ts.take(k - start)),
        decreases n - k,
    {
        let ghost j = k - start;
        let ghost s0 = s@;
        if k > start {
            push_str(&mut s, "/");
        }
        let t = comp_chars(&v[k]);
        crate::text::push_chars(&mut s, t.as_slice());
        proof {
            assert(ts[j] == comp_text(comp_view(v@[k as int])));
            assert(ts.take(j + 1).drop_last() =~= ts.take(j));
            if j == 0 {
                assert(join_slash(ts.take(1)) == ts[0]);
                assert(s@ =~= pre + join_slash(ts.take(j + 1)));
            } else {
                assert(s@ =~= pre + join_slash(ts.take(j + 1)));
            }
        }
        k = k + 1;
    }
    assert(ts.take(n - start) =~= ts);
    s
}

/// [`parent_comps`] of `p`, written as a path.
pub fn parent_path(p: &str) -> (r: Option<String>)
    ensures
        match parent_comps(comps(p@)) {
            Some(c) => r matches Some(s) && s@ == comps_path(c),
            None => r is None,
        },
{
    let c = comps_of(p);
    let n = c.len();
    if n == 0 || is_root(&c[n - 1]) {
        return None;
    }
    assert(comps_view(c@).take(n - 1) =~= comps_view(c@).drop_last());
    Some(path_of_comps(c.as_slice(), n - 1))
}

/// `Path::starts_with`: whether the components of `base` lead those of `p`.
pub fn path_starts_with(p: &str, base: &str) -> (r: bool)
    ensures
        r == comp_prefix(comps(base@), comps(p@)),
{
    let pc = comps_of(p);
    let bc = comps_of(base);
    assert(comps_view(pc@).take(pc@.len() as int) =~= comps_view(pc@));
    assert(comps_view(bc@).take(bc@.len() as int) =~= comps_view(bc@));
    comps_prefix(bc.as_slice(), bc.len(), pc.as_slice(), pc.len())
}

/// Path equality (`PathBuf == PathBuf`): the same components.
pub fn same_path(a: &str, b: &str) -> (r: bool)
    ensures
        r == (comps(a@) == comps(b@)),
{
    let x = path_starts_with(a, b);
    let y = path_starts_with(b, a);
    proof {
        if x && y {
            assert(comps(a@) =~= comps(b@));
        }
        assert(comps(a@).take(comps(a@).len() as int) =~= comps(a@));
        assert(comps(b@).take(comps(b@).len() as int) =~= comps(b@));
    }
    x && y
}


// ── components written back as a path ─────────────────────────────────────

/// A name that reads back as itself: not empty, not `.` or `..`, without a separator.
pub open spec fn plain_name(n: Seq<char>) -> bool {
    n.len() > 0 && n != "."@ && n != ".."@ && !n.contains('/')
}

/// A component that may follow the first: `..` or a plain name.
pub open spec fn later_ok(c: Comp) -> bool {
    match c {
        Comp::Parent => true,
        Comp::Normal(n) => plain_name(n),
        _ => false,
    }
}

/// Components of the shape [`comps`] gives: a root or `.` only in front, names plain.
pub open spec fn comps_ok(c: Seq<Comp>) -> bool {
    &&& c.len() > 0 ==> (c[0] is Root || c[0] is Cur || later_ok(c[0]))
    &&& forall|i: int| 1 <= i < c.len() ==> later_ok(#[trigger] c[i])
}

proof fn lemma_last_index_none(s: Seq<char>, c: char)
    ensures
        last_index_of(s, c) is None <==> !s.contains(c),
    decreases s.len(),
{
    if s.len() > 0 {
        lemma_last_index_none(s.drop_last(), c);
        if s.last() == c {
            assert(s[s.len() - 1] == c);
        } else {
            if s.contains(c) {
                let i = choose|i: int| 0 <= i < s.len() && s[i] == c;
                assert(s.drop_last()[i] == c);
            }
            if s.drop_last().contains(c) {
                let i = choose|i: int| 0 <= i < s.drop_last().len() && s.drop_last()[i] == c;
                assert(s[i] == c);
            }
        }
    }
}

proof fn lemma_last_index_after(s: Seq<char>, c: char)
    ensures
        last_index_of(s, c) matches Some(k) ==> forall|j: int| k < j < s.len() ==> s[j] != c,
    decreases s.len(),
{
    if s.len() > 0 && s.last() != c {
        lemma_last_index_after(s.drop_last(), c);
        lemma_last_index_bound(s, c);
        if let Some(k) = last_index_of(s, c) {
            assert forall|j: int| k < j < s.len() implies s[j] != c by {
                if j < s.len() - 1 {
                    assert(s[j] == s.drop_last()[j]);
                }
            }
        }
    }
}

/// Where the last `c` stands is decided before a tail that holds none.
proof fn lemma_last_index_prefix(s: Seq<char>, n: int, c: char)
    requires
        0 <= n <= s.len(),
        forall|j: int| n <= j < s.len() ==> s[j] != c,
    ensures
        last_index_of(s, c) == last_index_of(s.take(n), c),
    decreases s.len(),
{
    if s.len() == n {
        assert(s.take(n) =~= s);
    } else {
        assert(s.last() != c);
        lemma_last_index_prefix(s.drop_last(), n, c);
        assert(s.drop_last().take(n) =~= s.take(n));
    }
}

/// Pieces hold no separator, and there is at least one.
proof fn lemma_pieces_plain(p: Seq<char>)
    ensures
        pieces(p).len() >= 1,
        forall|i: int| 0 <= i < pieces(p).len() ==> !(#[trigger] pieces(p)[i]).contains('/'),
    decreases p.len(),
{
    lemma_last_index_bound(p, '/');
    match last_index_of(p, '/') {
        None => {
            lemma_last_index_none(p, '/');
        },
        Some(k) => {
            lemma_pieces_plain(p.subrange(0, k));
            lemma_last_index_after(p, '/');
            let tail = p.subrange(k + 1, p.len() as int);
            if tail.contains('/') {
                let j = choose|j: int| 0 <= j < tail.len() && tail[j] == '/';
                assert(p[k + 1 + j] == '/');
            }
            let ps = pieces(p);
            assert(ps == pieces(p.subrange(0, k)).push(tail));
            assert forall|i: int| 0 <= i < ps.len() implies !(#[trigger] ps[i]).contains('/') by {
                if i < ps.len() - 1 {
                    assert(ps[i] == pieces(p.subrange(0, k))[i]);
                }
            }
        },
    }
}

proof fn lemma_later_comps_ok(ps: Seq<Seq<char>>)
    requires
        forall|i: int| 0 <= i < ps.len() ==> !(#[trigger] ps[i]).contains('/'),
    ensures
        forall|i: int| 0 <= i < later_comps(ps).len() ==> later_ok(#[trigger] later_comps(ps)[i]),
    decreases ps.len(),
{
    if ps.len() > 0 {
        let init = ps.drop_last();
        assert forall|i: int| 0 <= i < init.len() implies !(#[trigger] init[i]).contains('/') by {
            assert(init[i] == ps[i]);
        }
        lemma_later_comps_ok(init);
        let l = later_comps(ps);
        assert(!ps.last().contains('/')) by {
            assert(ps.last() == ps[ps.len() - 1]);
        }
        assert(l == later_comps(init) + later_comp(ps.last()));
        assert forall|i: int| 0 <= i < l.len() implies later_ok(#[trigger] l[i]) by {
            if i < later_comps(init).len() {
                assert(l[i] == later_comps(init)[i]);
            }
        }
    }
}

/// What [`comps`] gives is of the shape [`comps_ok`].
pub proof fn lemma_comps_ok(p: Seq<char>)
    ensures
        comps_ok(comps(p)),
{
    let ps = pieces(p);
    lemma_pieces_plain(p);
    let rest = ps.drop_first();
    assert forall|i: int| 0 <= i < rest.len() implies !(#[trigger] rest[i]).contains('/') by {
        assert(rest[i] == ps[i + 1]);
    }
    lemma_later_comps_ok(rest);
    assert(!ps[0].contains('/'));
    let f = first_comp(ps[0], p);
    let l = later_comps(rest);
    let c = comps(p);
    assert(c == f + l);
    assert forall|i: int| 1 <= i < c.len() implies later_ok(#[trigger] c[i]) by {
        if f.len() == 1 {
            assert(c[i] == l[i - 1]);
        } else {
            assert(c[i] == l[i]);
        }
    }
    if c.len() > 0 && f.len() == 0 {
        assert(c[0] == l[0]);
    }
}

/// Dropping the last component keeps the shape.
pub proof fn lemma_comps_ok_drop_last(c: Seq<Comp>)
    requires
        comps_ok(c),
        c.len() > 0,
    ensures
        comps_ok(c.drop_last()),
{
    let d = c.drop_last();
    assert forall|i: int| 1 <= i < d.len() implies later_ok(#[trigger] d[i]) by {
        assert(d[i] == c[i]);
    }
    if d.len() > 0 {
        assert(d[0] == c[0]);
    }
}

/// Names without a separator, joined with `/`, split back into the same names.
proof fn lemma_pieces_of_join(names: Seq<Seq<char>>)
    requires
        names.len() >= 1,
        forall|i: int| 0 <= i < names.len() ==> !(#[trigger] names[i]).contains('/'),
    ensures
        pieces(join_slash(names)) == names,
    decreases names.len(),
{
    if names.len() == 1 {
        lemma_last_index_none(names[0], '/');
        assert(pieces(names[0]) =~= names);
    } else {
        let init = names.drop_last();
        assert forall|i: int| 0 <= i < init.len() implies !(#[trigger] init[i]).contains('/') by {
            assert(init[i] == names[i]);
        }
        lemma_pieces_of_join(init);
        reveal_strlit("/");
        let j = join_slash(init);
        let l = names.last();
        assert(!l.contains('/')) by {
            assert(l == names[names.len() - 1]);
        }
        let s = j + "/"@ + l;
        assert(join_slash(names) == s);
        let n: int = j.len() as int + 1;
        assert forall|q: int| n <= q < s.len() implies s[q] != '/' by {
            assert(s[q] == l[q - n]);
        }
        lemma_last_index_prefix(s, n, '/');
        assert(s.take(n).last() == '/');
        assert(last_index_of(s.take(n), '/') == Some(j.len() as int));
        assert(s.subrange(0, j.len() as int) =~= j);
        assert(s.subrange(n, s.len() as int) =~= l);
        assert(pieces(s) =~= names);
    }
}

/// A leading `/` is a leading empty name.
proof fn lemma_join_rooted(t: Seq<Seq<char>>)
    requires
        t.len() >= 1,
    ensures
        "/"@ + join_slash(t) == join_slash(seq![Seq::<char>::empty()] + t),
    decreases t.len(),
{
    let u = seq![Seq::<char>::empty()] + t;
    if t.len() == 1 {
        assert(u.drop_last() =~= seq![Seq::<char>::empty()]);
        assert("/"@ + join_slash(t) =~= join_slash(u.drop_last()) + "/"@ + u.last());
    } else {
        lemma_join_rooted(t.drop_last());
        assert(u.drop_last() =~= seq![Seq::<char>::empty()] + t.drop_last());
        assert("/"@ + join_slash(t) =~= ("/"@ + join_slash(t.drop_last())) + "/"@ + t.last());
    }
}

/// Later components written as text read back as themselves.
proof fn lemma_later_comps_of_texts(l: Seq<Comp>)
    requires
        forall|i: int| 0 <= i < l.len() ==> later_ok(#[trigger] l[i]),
    ensures
        later_comps(l.map_values(|x: Comp| comp_text(x))) == l,
    decreases l.len(),
{
    let t = l.map_values(|x: Comp| comp_text(x));
    if l.len() > 0 {
        let init = l.drop_last();
        assert forall|i: int| 0 <= i < init.len() implies later_ok(#[trigger] init[i]) by {
            assert(init[i] == l[i]);
        }
        lemma_later_comps_of_texts(init);
        assert(t.drop_last() =~= init.map_values(|x: Comp| comp_text(x)));
        assert(later_ok(l[l.len() - 1]));
        assert(t.last() == comp_text(l.last()));
        reveal_strlit(".");
        reveal_strlit("..");
        assert(later_comp(t.last()) =~= seq![l.last()]);
        assert(later_comps(t) =~= l);
    }
}

proof fn lemma_comp_text_plain(x: Comp)
    requires
        later_ok(x) || x is Cur || x is Root,
    ensures
        !comp_text(x).contains('/'),
{
    reveal_strlit(".");
    reveal_strlit("..");
    let t = comp_text(x);
    if t.contains('/') {
        let j = choose|j: int| 0 <= j < t.len() && t[j] == '/';
        match x {
            Comp::Cur => assert(t[j] == '.'),
            Comp::Parent => assert(t[j] == '.'),
            _ => {},
        }
    }
}

/// Components of the shape [`comps`] gives, written as a path, read back unchanged.
pub proof fn lemma_comps_of_comps_path(c: Seq<Comp>)
    requires
        comps_ok(c),
    ensures
        comps(comps_path(c)) == c,
{
    let e = Seq::<char>::empty();
    reveal_strlit("/");
    if c.len() == 0 {
        lemma_last_index_none(e, '/');
        assert(pieces(e) =~= seq![e]);
        assert(comps(comps_path(c)) =~= c);
    } else if c[0] == Comp::Root {
        let tail = c.drop_first();
        assert forall|i: int| 0 <= i < tail.len() implies later_ok(#[trigger] tail[i]) by {
            assert(tail[i] == c[i + 1]);
        }
        let t = tail.map_values(|x: Comp| comp_text(x));
        let p = comps_path(c);
        if tail.len() == 0 {
            assert(p =~= "/"@);
            assert(last_index_of(p, '/') == Some(0int));
            lemma_last_index_none(e, '/');
            assert(p.subrange(0, 0) =~= e);
            assert(p.subrange(1, 1) =~= e);
            assert(pieces(e) =~= seq![e]);
            assert(pieces(p) =~= seq![e, e]);
            assert(pieces(p).drop_first() =~= seq![e]);
            assert(later_comps(seq![e]) =~= Seq::<Comp>::empty()) by {
                assert(seq![e].drop_last() =~= Seq::<Seq<char>>::empty());
                assert(later_comps(Seq::<Seq<char>>::empty()) =~= Seq::<Comp>::empty());
                assert(later_comp(e) =~= Seq::<Comp>::empty());
            }
            assert(comps(p) =~= c);
        } else {
            lemma_join_rooted(t);
            let u = seq![e] + t;
            assert forall|i: int| 0 <= i < u.len() implies !(#[trigger] u[i]).contains('/') by {
                if i > 0 {
                    assert(u[i] == comp_text(tail[i - 1]));
                    lemma_comp_text_plain(tail[i - 1]);
                }
            }
            lemma_pieces_of_join(u);
            lemma_later_comps_of_texts(tail);
            assert(pieces(p) == u);
            assert(u.drop_first() =~= t);
            assert(comps(p) =~= c);
        }
    } else {
        let t = c.map_values(|x: Comp| comp_text(x));
        let p = comps_path(c);
        assert forall|i: int| 0 <= i < t.len() implies !(#[trigger] t[i]).contains('/') by {
            lemma_comp_text_plain(c[i]);
        }
        let rest = c.drop_first();
        assert forall|i: int| 0 <= i < rest.len() implies later_ok(#[trigger] rest[i]) by {
            assert(rest[i] == c[i + 1]);
        }
        lemma_pieces_of_join(t);
        lemma_later_comps_of_texts(rest);
        assert(t.drop_first() =~= rest.map_values(|x: Comp| comp_text(x)));
        assert(first_comp(t[0], p) =~= seq![c[0]]) by {
            reveal_strlit(".");
            reveal_strlit("..");
        }
        assert(comps(p) =~= c);
    }
}


// ── normalized paths ────────────────────────────────────────────────────────

/// The components of a normalized path: the root when it is absolute, then its names.
pub open spec fn clean_comps(rooted: bool, names: Seq<Seq<char>>) -> Seq<Comp> {
    (if rooted { seq![Comp::Root] } else { Seq::<Comp>::empty() }) + names.map_values(|n: Seq<char>| Comp::Normal(n))
}

proof fn lemma_norm_names_plain(cs: Seq<Comp>)
    requires
        forall|i: int| 0 <= i < cs.len() ==> (#[trigger] cs[i] matches Comp::Normal(n) ==> plain_name(n)),
    ensures
        forall|k: int| 0 <= k < norm(cs).1.len() ==> plain_name(#[trigger] norm(cs).1[k]),
    decreases cs.len(),
{
    if cs.len() > 0 {
        let init = cs.drop_last();
        assert forall|i: int| 0 <= i < init.len() implies (#[trigger] init[i] matches Comp::Normal(n) ==> plain_name(n)) by {
            assert(init[i] == cs[i]);
        }
        lemma_norm_names_plain(init);
        let names = norm(init).1;
        let out = norm(cs).1;
        assert(cs.last() == cs[cs.len() - 1]);
        assert forall|k: int| 0 <= k < out.len() implies plain_name(#[trigger] out[k]) by {
            if k < names.len() {
                match cs.last() {
                    Comp::Parent => assert(out[k] == names.drop_last()[k]),
                    _ => assert(out[k] == names[k]),
                }
            }
        }
    }
}

proof fn lemma_norm_of_clean(rooted: bool, names: Seq<Seq<char>>)
    ensures
        norm(clean_comps(rooted, names)) == (rooted, names),
    decreases names.len(),
{
    let c = clean_comps(rooted, names);
    if names.len() == 0 {
        assert(names =~= Seq::<Seq<char>>::empty());
        if rooted {
            assert(c =~= seq![Comp::Root]);
            assert(c.drop_last() =~= Seq::<Comp>::empty());
            assert(norm(c.drop_last()) == (false, Seq::<Seq<char>>::empty()));
            assert(c.last() == Comp::Root);
            assert(norm(c) == (true, Seq::<Seq<char>>::empty()));
        } else {
            assert(c =~= Seq::<Comp>::empty());
            assert(norm(c) == (false, Seq::<Seq<char>>::empty()));
        }
    } else {
        lemma_norm_of_clean(rooted, names.drop_last());
        assert(c.drop_last() =~= clean_comps(rooted, names.drop_last()));
        assert(c.len() == c.drop_last().len() + 1);
        assert(c.last() == Comp::Normal(names.last()));
        assert(names.drop_last().push(names.last()) =~= names);
        assert(norm(c) == (rooted, names.drop_last().push(names.last())));
    }
}

proof fn lemma_norm_rooted(cs: Seq<Comp>)
    requires
        cs.len() > 0,
        cs[0] == Comp::Root,
    ensures
        norm(cs).0,
    decreases cs.len(),
{
    if cs.len() > 1 {
        assert(cs.drop_last()[0] == cs[0]);
        lemma_norm_rooted(cs.drop_last());
    } else {
        assert(cs.last() == cs[0]);
    }
}

/// The components of `normalize_spec(p)` are the root (when `p` is absolute) and the
/// names that normalization kept.
pub proof fn lemma_comps_of_normalized(p: Seq<char>)
    ensures
        comps(normalize_spec(p)) == clean_comps(norm(comps(p)).0, norm(comps(p)).1),
{
    let (rooted, names) = norm(comps(p));
    lemma_comps_ok(p);
    let cs = comps(p);
    assert forall|i: int| 0 <= i < cs.len() implies (#[trigger] cs[i] matches Comp::Normal(n) ==> plain_name(n)) by {
        if i > 0 {
            assert(later_ok(cs[i]));
        }
    }
    lemma_norm_names_plain(cs);
    let c = clean_comps(rooted, names);
    let nc = names.map_values(|n: Seq<char>| Comp::Normal(n));
    assert forall|i: int| 1 <= i < c.len() implies later_ok(#[trigger] c[i]) by {
        if rooted {
            assert(c[i] == Comp::Normal(names[i - 1]));
            assert(plain_name(names[i - 1]));
        } else {
            assert(c[i] == Comp::Normal(names[i]));
            assert(plain_name(names[i]));
        }
    }
    if c.len() > 0 && !rooted {
        assert(c[0] == Comp::Normal(names[0]));
        assert(plain_name(names[0]));
    }
    assert(comps_ok(c));
    lemma_comps_of_comps_path(c);
    if rooted {
        assert(c.drop_first() =~= nc);
        assert(nc.map_values(|x: Comp| comp_text(x)) =~= names);
        assert(comps_path(c) =~= normalize_spec(p));
    } else {
        assert(c =~= nc);
        assert(nc.map_values(|x: Comp| comp_text(x)) =~= names);
        if c.len() > 0 {
            assert(c[0] != Comp::Root);
        }
        assert(comps_path(c) =~= normalize_spec(p));
    }
}

/// Normalizing is idempotent, leaves no `.` or `..` component, and keeps an absolute path
/// absolute.
pub proof fn normalizing_twice_changes_nothing(p: Seq<char>)
    ensures
        normalize_spec(normalize_spec(p)) == normalize_spec(p),
        forall|i: int| 0 <= i < comps(normalize_spec(p)).len() ==> !(#[trigger] comps(normalize_spec(p))[i] is Cur)
            && !(comps(normalize_spec(p))[i] is Parent),
        (comps(p).len() > 0 && comps(p)[0] == Comp::Root) ==> (comps(normalize_spec(p)).len() > 0 && comps(
            normalize_spec(p),
        )[0] == Comp::Root),
{
    let (rooted, names) = norm(comps(p));
    lemma_comps_of_normalized(p);
    lemma_norm_of_clean(rooted, names);
    let c = clean_comps(rooted, names);
    assert forall|i: int| 0 <= i < c.len() implies !(#[trigger] c[i] is Cur) && !(c[i] is Parent) by {
        if rooted {
            if i > 0 {
                assert(c[i] == Comp::Normal(names[i - 1]));
            }
        } else {
            assert(c[i] == Comp::Normal(names[i]));
        }
    }
    if comps(p).len() > 0 && comps(p)[0] == Comp::Root {
        lemma_norm_rooted(comps(p));
    }
}


/// Appending `/..` to a path adds one `..` component.
/// Appending `/` and a piece without `/` appends that piece's component.
proof fn lemma_comps_append(p: Seq<char>, piece: Seq<char>)
    requires
        p.len() > 0,
        !piece.contains('/'),
    ensures
        comps(p + "/"@ + piece) == comps(p) + later_comp(piece),
{
    reveal_strlit("/");
    let q = p + "/"@ + piece;
    let n: int = p.len() as int;
    assert forall|j: int| n + 1 <= j < q.len() implies q[j] != '/' by {
        assert(q[j] == piece[j - n - 1]);
    }
    lemma_last_index_prefix(q, n + 1, '/');
    assert(q.take(n + 1).last() == '/');
    assert(last_index_of(q.take(n + 1), '/') == Some(n));
    assert(q.subrange(0, n) =~= p);
    assert(q.subrange(n + 1, q.len() as int) =~= piece);
    lemma_pieces_plain(p);
    let pp = pieces(p);
    assert(pieces(q) == pp.push(piece));
    assert(pieces(q)[0] == pp[0]);
    assert(pieces(q).drop_first() =~= pp.drop_first().push(piece));
    assert(pp.drop_first().push(piece).drop_last() =~= pp.drop_first());
    assert(comps(q) =~= comps(p) + later_comp(piece));
}

proof fn lemma_comps_dotdot(p: Seq<char>)
    requires
        p.len() > 0,
    ensures
        comps(p + "/.."@) == comps(p).push(Comp::Parent),
{
    reveal_strlit("/..");
    reveal_strlit("..");
    reveal_strlit("/");
    assert("/"@ + ".."@ =~= "/.."@);
    assert(p + "/.."@ =~= p + "/"@ + ".."@);
    lemma_comps_append(p, ".."@);
    reveal_strlit(".");
    assert(".."@ != "."@) by {
        assert(".."@.len() != "."@.len());
    }
    assert(later_comp(".."@) =~= seq![Comp::Parent]);
    assert(comps(p) + later_comp(".."@) =~= comps(p).push(Comp::Parent));
}

/// One more normalization step: what appending the component `c` does to the state.
pub open spec fn norm_step(state: (bool, Seq<Seq<char>>), c: Comp) -> (bool, Seq<Seq<char>>) {
    match c {
        Comp::Root => (true, state.1),
        Comp::Cur => state,
        Comp::Parent => (state.0, if state.1.len() > 0 { state.1.drop_last() } else { state.1 }),
        Comp::Normal(n) => (state.0, state.1.push(n)),
    }
}

/// Normalization reads a path left to right, one piece at a time: a name is kept, a `.`
/// changes nothing, and a `..` takes away the last name kept so far when there is one.
pub proof fn normalization_reads_one_piece_at_a_time(p: Seq<char>, piece: Seq<char>)
    requires
        p.len() > 0,
        !piece.contains('/'),
    ensures
        piece.len() == 0 || piece == "."@ ==> norm(comps(p + "/"@ + piece)) == norm(comps(p)),
        piece == ".."@ ==> norm(comps(p + "/"@ + piece)) == norm_step(norm(comps(p)), Comp::Parent),
        piece.len() > 0 && piece != "."@ && piece != ".."@ ==> norm(comps(p + "/"@ + piece)) == norm_step(
            norm(comps(p)),
            Comp::Normal(piece),
        ),
{
    lemma_comps_append(p, piece);
    reveal_strlit(".");
    reveal_strlit("..");
    assert(".."@ != "."@) by {
        assert(".."@.len() != "."@.len());
    }
    let cs = comps(p);
    let c = later_comp(piece);
    if c.len() == 0 {
        assert(cs + c =~= cs);
    } else {
        assert((cs + c).drop_last() =~= cs);
        assert((cs + c).last() == c[0]);
    }
}

proof fn lemma_example_start()
    ensures
        norm(comps("/proj"@)) == (true, seq!["proj"@]),
{
    reveal_strlit("/proj");
    reveal_strlit("proj");
    reveal_strlit(".");
    reveal_strlit("..");
    let p0 = "/proj"@;
    assert(last_index_of(p0, '/') == Some(0int)) by {
        assert(p0 =~= seq!['/', 'p', 'r', 'o', 'j']);
        assert(p0.drop_last() =~= seq!['/', 'p', 'r', 'o']);
        assert(p0.drop_last().drop_last() =~= seq!['/', 'p', 'r']);
        assert(p0.drop_last().drop_last().drop_last() =~= seq!['/', 'p']);
        assert(seq!['/', 'p'].drop_last() =~= seq!['/']);
        assert(last_index_of(seq!['/'], '/') == Some(0int));
        assert(last_index_of(seq!['/', 'p'], '/') == Some(0int));
        assert(last_index_of(seq!['/', 'p', 'r'], '/') == Some(0int));
        assert(last_index_of(seq!['/', 'p', 'r', 'o'], '/') == Some(0int));
    }
    assert(p0.subrange(0, 0) =~= Seq::<char>::empty());
    assert(pieces(Seq::<char>::empty()) == seq![Seq::<char>::empty()]);
    assert(p0.subrange(1, 5) =~= "proj"@);
    assert(pieces(p0) =~= seq![Seq::<char>::empty(), "proj"@]);
    assert(pieces(p0).drop_first() =~= seq!["proj"@]);
    assert(seq!["proj"@].drop_last() =~= Seq::<Seq<char>>::empty());
    assert(later_comp("proj"@) =~= seq![Comp::Normal("proj"@)]) by {
        assert("proj"@ != "."@ && "proj"@ != ".."@) by {
            assert("proj"@.len() == 4);
        }
    }
    assert(pieces(p0)[0] =~= Seq::<char>::empty());
    assert(first_comp(pieces(p0)[0], p0) =~= seq![Comp::Root]);
    assert(later_comps(Seq::<Seq<char>>::empty()) =~= Seq::<Comp>::empty());
    assert(later_comps(seq!["proj"@]) =~= seq![Comp::Normal("proj"@)]);
    assert(comps(p0) =~= seq![Comp::Root, Comp::Normal("proj"@)]);
    assert(seq![Comp::Root, Comp::Normal("proj"@)].drop_last() =~= seq![Comp::Root]);
    assert(seq![Comp::Root].drop_last() =~= Seq::<Comp>::empty());
    assert(norm(Seq::<Comp>::empty()) == (false, Seq::<Seq<char>>::empty()));
    assert(norm(seq![Comp::Root]) == (true, Seq::<Seq<char>>::empty()));
    assert(Seq::<Seq<char>>::empty().push("proj"@) =~= seq!["proj"@]);
}

/// The worked example: in `/proj/../../x/./y` the first `..` takes `proj` away, the second
/// finds no name left above the root and is dropped, and `.` changes nothing, so it
/// normalizes to `/x/y`.
pub proof fn a_dotdot_above_the_root_is_dropped_in_the_example()
    ensures
        normalize_spec("/proj/../../x/./y"@) == "/x/y"@,
{
    reveal_strlit("/proj/../../x/./y");
    reveal_strlit("/proj");
    reveal_strlit("/");
    reveal_strlit("..");
    reveal_strlit(".");
    reveal_strlit("x");
    reveal_strlit("y");
    let p0 = "/proj"@;
    lemma_example_start();
    let p1 = p0 + "/"@ + ".."@;
    normalization_reads_one_piece_at_a_time(p0, ".."@);
    assert(seq!["proj"@].drop_last() =~= Seq::<Seq<char>>::empty());
    let p2 = p1 + "/"@ + ".."@;
    normalization_reads_one_piece_at_a_time(p1, ".."@);
    let p3 = p2 + "/"@ + "x"@;
    normalization_reads_one_piece_at_a_time(p2, "x"@);
    assert(Seq::<Seq<char>>::empty().push("x"@) =~= seq!["x"@]);
    let p4 = p3 + "/"@ + "."@;
    normalization_reads_one_piece_at_a_time(p3, "."@);
    let p5 = p4 + "/"@ + "y"@;
    normalization_reads_one_piece_at_a_time(p4, "y"@);
    assert(seq!["x"@].push("y"@) =~= seq!["x"@, "y"@]);
    assert(norm(comps(p5)) == (true, seq!["x"@, "y"@]));
    assert(p5 =~= "/proj/../../x/./y"@);
    lemma_example_end();
}

proof fn lemma_example_end()
    ensures
        "/"@ + join_slash(seq!["x"@, "y"@]) == "/x/y"@,
{
    reveal_strlit("/x/y");
    reveal_strlit("/");
    reveal_strlit("x");
    reveal_strlit("y");
    assert(seq!["x"@, "y"@].drop_last() =~= seq!["x"@]);
    assert(join_slash(seq!["x"@]) == "x"@);
    assert(join_slash(seq!["x"@, "y"@]) == "x"@ + "/"@ + "y"@);
    assert("/"@ + ("x"@ + "/"@ + "y"@) =~= "/x/y"@);
}

/// A `..` takes away the last name kept so far and nothing else: above the root (or the
/// start of a relative path) there is no name to take, and the `..` is dropped. So an
/// absolute path whose names are all taken away normalizes to `/`.
pub proof fn dotdot_never_climbs_above_the_root(p: Seq<char>)
    requires
        p.len() > 0,
    ensures
        norm(comps(p + "/.."@)).0 == norm(comps(p)).0,
        norm(comps(p + "/.."@)).1 == (if norm(comps(p)).1.len() > 0 {
            norm(comps(p)).1.drop_last()
        } else {
            norm(comps(p)).1
        }),
        (comps(p)[0] == Comp::Root && norm(comps(p)).1.len() == 0) ==> normalize_spec(p + "/.."@) == "/"@,
{
    lemma_comps_dotdot(p);
    let cs = comps(p);
    assert(cs.push(Comp::Parent).drop_last() =~= cs);
    assert(cs.push(Comp::Parent).last() == Comp::Parent);
    if cs.len() > 0 && cs[0] == Comp::Root && norm(cs).1.len() == 0 {
        lemma_norm_rooted(cs);
        reveal_strlit("/");
        assert(norm(comps(p + "/.."@)).1 =~= Seq::<Seq<char>>::empty());
        assert(normalize_spec(p + "/.."@) =~= "/"@);
    }
}

} // verus!
