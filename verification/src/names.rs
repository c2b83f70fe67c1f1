//! Names in the order Rust's `String` sorts them: byte by byte of their UTF-8 text, a
//! prefix first. Directory listings and theme lists come out in this order.

use vstd::prelude::*;
use vstd::utf8::*;

verus! {

broadcast use vstd::string::group_string_axioms;

/// Lexicographic order on bytes: the first differing byte decides, and a prefix comes
/// first.
pub open spec fn lex_le(a: Seq<u8>, b: Seq<u8>) -> bool
    decreases a.len(),
{
    if a.len() == 0 {
        true
    } else if b.len() == 0 {
        false
    } else if a[0] != b[0] {
        a[0] < b[0]
    } else {
        lex_le(a.drop_first(), b.drop_first())
    }
}

/// The order of texts as `String`s compare: by their UTF-8 bytes.
pub open spec fn text_le(a: Seq<char>, b: Seq<char>) -> bool {
    lex_le(encode_utf8(a), encode_utf8(b))
}

/// Any two byte strings are ordered one way or the other.
pub proof fn lemma_lex_total(a: Seq<u8>, b: Seq<u8>)
    ensures
        lex_le(a, b) || lex_le(b, a),
    decreases a.len(),
{
    if a.len() > 0 && b.len() > 0 && a[0] == b[0] {
        lemma_lex_total(a.drop_first(), b.drop_first());
    }
}

/// Whether `texts` is in [`text_le`] order, each next to the next.
pub open spec fn sorted_texts(texts: Seq<Seq<char>>) -> bool {
    forall|i: int| 0 <= i < texts.len() - 1 ==> text_le(#[trigger] texts[i], texts[i + 1])
}

/// The texts of a list of strings.
pub open spec fn texts_of(v: Seq<String>) -> Seq<Seq<char>> {
    v.map_values(|s: String| s@)
}

/// [`text_le`] of two strings.
pub fn text_le_exec(a: &str, b: &str) -> (r: bool)
    ensures
        r == text_le(a@, b@),
{
    let x = a.as_bytes();
    let y = b.as_bytes();
    let mut i: usize = 0;
    assert(x@.skip(0) =~= x@);
    assert(y@.skip(0) =~= y@);
    while i < x.len() && i < y.len() && x[i] == y[i]
        invariant
            i <= x@.len(),
            i <= y@.len(),
            x@ == encode_utf8(a@),
            y@ == encode_utf8(b@),
            forall|q: int| 0 <= q < i ==> x@[q] == y@[q],
            lex_le(x@.skip(i as int), y@.skip(i as int)) == lex_le(x@, y@),
        decreases x@.len() - i,
    {
        assert(x@.skip(i as int).drop_first() =~= x@.skip(i + 1));
        assert(y@.skip(i as int).drop_first() =~= y@.skip(i + 1));
        i = i + 1;
    }
    if i == x.len() {
        assert(x@.skip(i as int).len() == 0);
        true
    } else if i == y.len() {
        assert(y@.skip(i as int).len() == 0);
        false
    } else {
        assert(x@.skip(i as int)[0] == x@[i as int]);
        assert(y@.skip(i as int)[0] == y@[i as int]);
        x[i] < y[i]
    }
}

/// Inserts `x` into the sorted `v` after every element not above it.
fn insert_sorted(v: &mut Vec<String>, x: String)
    requires
        sorted_texts(texts_of(old(v)@)),
    ensures
        sorted_texts(texts_of(final(v)@)),
        texts_of(final(v)@).to_multiset() == texts_of(old(v)@).to_multiset().insert(x@),
{
    let ghost t0 = texts_of(v@);
    let mut p = v.len();
    while p > 0 && !text_le_exec(v[p - 1].as_str(), x.as_str())
        invariant
            p <= v@.len(),
            v@ == old(v)@,
            t0 == texts_of(v@),
            p < v@.len() ==> !text_le(t0[p as int], x@),
        decreases p,
    {
        p = p - 1;
    }
    proof {
        if p < t0.len() {
            lemma_lex_total(encode_utf8(t0[p as int]), encode_utf8(x@));
        }
    }
    let ghost xv = x@;
    v.insert(p, x);
    proof {
        let t1 = texts_of(v@);
        assert(t1 =~= t0.insert(p as int, xv));
        vstd::seq_lib::to_multiset_insert(t0, p as int, xv);
        assert forall|i: int| 0 <= i < t1.len() - 1 implies text_le(#[trigger] t1[i], t1[i + 1]) by {
            if i < p - 1 {
                assert(t1[i] == t0[i] && t1[i + 1] == t0[i + 1]);
            } else if i == p - 1 {
                assert(t1[i] == t0[i] && t1[i + 1] == xv);
            } else if i == p {
                assert(t1[i] == xv && t1[i + 1] == t0[i]);
            } else {
                assert(t1[i] == t0[i - 1] && t1[i + 1] == t0[i]);
            }
        }
    }
}

/// `v` sorted as `Vec<String>::sort` sorts it: in [`text_le`] order, the same strings.
pub fn sort_strings(v: Vec<String>) -> (r: Vec<String>)
    ensures
        sorted_texts(texts_of(r@)),
        texts_of(r@).to_multiset() == texts_of(v@).to_multiset(),
{
    let mut out: Vec<String> = Vec::new();
    let mut k: usize = 0;
    let ghost tv = texts_of(v@);
    assert(texts_of(out@) =~= tv.take(0));
    while k < v.len()
        invariant
            k <= v@.len(),
            tv == texts_of(v@),
            sorted_texts(texts_of(out@)),
            texts_of(out@).to_multiset() == tv.take(k as int).to_multiset(),
        decreases v@.len() - k,
    {
        let x = v[k].clone();
        insert_sorted(&mut out, x);
        proof {
            assert(tv.take(k + 1) =~= tv.take(k as int).push(tv[k as int]));
            vstd::seq_lib::to_multiset_build(tv.take(k as int), tv[k as int]);
        }
        k = k + 1;
    }
    assert(tv.take(k as int) =~= tv);
    out
}

} // verus!
