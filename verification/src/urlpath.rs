//! Converting between real paths, the URLs the web view asks for, and the identifiers of
//! files in `?file=` queries. Paths are Unix paths held as text.
//!
//! - A real path is a normalized absolute path, used only to read files.
//! - A URL is an absolute path under the viewer's origin: `/docs/fig.png` below the root,
//!   `/__abs/Users/me/fig.png` (under [`ABS_PREFIX`]) outside it.
//! - An identifier is always the absolute path, inside the root or not.
//!
//! Relative references resolve against the directory of the document being shown
//! ([`DocBase`]), not against the root.

use vstd::prelude::*;
use vstd::string::*;
use vstd::utf8::*;
use crate::text::{chars_of, push_char, push_str, bytes_text, text_from_bytes, string_of, slice_to_vec, first_index_of};
use crate::paths::{strip_prefix_spec, strip_prefix, normalize_spec, normalize, join_spec, join};

verus! {

broadcast use vstd::string::group_string_axioms;

/// Prefix of the URLs of files outside the root.
pub const ABS_PREFIX: &'static str = "/__abs/";

/// The value of a hexadecimal digit byte.
pub open spec fn hex_value(b: u8) -> Option<u8> {
    if 48 <= b <= 57 {
        Some((b - 48) as u8)
    } else if 97 <= b <= 102 {
        Some((b - 97 + 10) as u8)
    } else if 65 <= b <= 70 {
        Some((b - 65 + 10) as u8)
    } else {
        None
    }
}

/// The value of a hexadecimal digit byte.
pub fn from_hex(b: u8) -> (r: Option<u8>)
    ensures
        r == hex_value(b),
{
    if 48 <= b && b <= 57 {
        Some(b - 48)
    } else if 97 <= b && b <= 102 {
        Some(b - 97 + 10)
    } else if 65 <= b && b <= 70 {
        Some(b - 65 + 10)
    } else {
        None
    }
}

/// `b[i..]` with every `%` followed by two hexadecimal digits (and at least one more byte
/// after the first digit) replaced by the byte they spell.
pub open spec fn pct_from(b: Seq<u8>, i: int) -> Seq<u8>
    decreases b.len() - i,
{
    if i < 0 || i >= b.len() {
        seq![]
    } else if b[i] == 37u8 && i + 2 < b.len() && hex_value(b[i + 1]) is Some && hex_value(b[i + 2]) is Some {
        seq![(hex_value(b[i + 1]).unwrap() * 16 + hex_value(b[i + 2]).unwrap()) as u8] + pct_from(b, i + 3)
    } else {
        seq![b[i]] + pct_from(b, i + 1)
    }
}

/// The text of `s` with percent escapes decoded; bytes that do not form UTF-8 are read
/// lossily.
pub open spec fn percent_decode_spec(s: Seq<char>) -> Seq<char> {
    bytes_text(pct_from(encode_utf8(s), 0))
}

/// Renders [`percent_decode_spec`].
pub fn percent_decode(s: &str) -> (r: String)
    ensures
        r@ == percent_decode_spec(s@),
{
    let bytes = s.as_bytes();
    let ghost b = bytes@;
    let mut out: Vec<u8> = Vec::new();
    let mut i: usize = 0;
    while i < bytes.len()
        invariant
            b == bytes@,
            i <= b.len(),
            out@ + pct_from(b, i as int) == pct_from(b, 0),
        decreases b.len() - i,
    {
        let ghost o0 = out@;
        if bytes[i] == 37u8 && bytes.len() - i > 2 {
            let hi = from_hex(bytes[i + 1]);
            let lo = from_hex(bytes[i + 2]);
            match (hi, lo) {
                (Some(h), Some(l)) => {
                    assert(h * 16 + l < 256) by (nonlinear_arith)
                        requires
                            h < 16,
                            l < 16,
                    ;
                    out.push(h * 16 + l);
                    assert(out@ + pct_from(b, i + 3) =~= o0 + pct_from(b, i as int));
                    i = i + 3;
                    continue;
                },
                _ => {},
            }
        }
        out.push(bytes[i]);
        assert(out@ + pct_from(b, i + 1) =~= o0 + pct_from(b, i as int));
        i = i + 1;
    }
    assert(out@ =~= pct_from(b, 0));
    text_from_bytes(out.as_slice())
}

/// Whether a byte stays as it is in a URL path: `/`, `-`, `_`, `.`, `~`, letters, digits.
pub open spec fn url_plain(b: u8) -> bool {
    b == 47 || b == 45 || b == 95 || b == 46 || b == 126 || (65 <= b <= 90) || (97 <= b <= 122) || (48 <= b <= 57)
}

/// An upper-case hexadecimal digit.
pub open spec fn hex_upper(d: u8) -> char {
    if d < 10 {
        (d + 48) as char
    } else {
        (d - 10 + 65) as char
    }
}

/// How one byte is written in a URL path.
pub open spec fn encode_byte(b: u8) -> Seq<char> {
    if url_plain(b) {
        seq![b as char]
    } else {
        seq!['%', hex_upper(b / 16), hex_upper(b % 16)]
    }
}

/// The bytes of a path written as a URL path: plain bytes as they are, every other byte as
/// `%XX` with upper-case digits.
pub open spec fn encode_bytes(b: Seq<u8>) -> Seq<char>
    decreases b.len(),
{
    if b.len() == 0 {
        seq![]
    } else {
        encode_bytes(b.drop_last()) + encode_byte(b.last())
    }
}

proof fn lemma_encode_bytes_concat(a: Seq<u8>, c: Seq<u8>)
    ensures
        encode_bytes(a + c) == encode_bytes(a) + encode_bytes(c),
    decreases c.len(),
{
    if c.len() == 0 {
        assert(a + c =~= a);
        assert(encode_bytes(a) + encode_bytes(c) =~= encode_bytes(a));
    } else {
        lemma_encode_bytes_concat(a, c.drop_last());
        assert((a + c).drop_last() =~= a + c.drop_last());
        assert((a + c).last() == c.last());
        assert(encode_bytes(a) + encode_bytes(c) =~= encode_bytes(a) + encode_bytes(c.drop_last()) + encode_byte(c.last()));
    }
}

proof fn lemma_encode_bytes_ascii(b: Seq<u8>)
    ensures
        is_ascii_chars(encode_bytes(b)),
    decreases b.len(),
{
    if b.len() > 0 {
        lemma_encode_bytes_ascii(b.drop_last());
        let a = encode_bytes(b.drop_last());
        let e = encode_byte(b.last());
        let x = b.last();
        assert(is_ascii_chars(e)) by {
            if !url_plain(x) {
                assert(x / 16 < 16 && x % 16 < 16);
            }
        }
        assert forall|i: int| 0 <= i < (a + e).len() implies '\0' <= #[trigger] (a + e)[i] <= '\u{7f}' by {
            if i >= a.len() {
                assert((a + e)[i] == e[i - a.len()]);
            } else {
                assert((a + e)[i] == a[i]);
            }
        }
    }
}

proof fn lemma_pct_shift(p: Seq<u8>, r: Seq<u8>, i: int)
    requires
        0 <= i,
    ensures
        pct_from(p + r, p.len() + i) == pct_from(r, i),
    decreases r.len() - i,
{
    let w = p + r;
    let j = p.len() + i;
    if i < r.len() {
        assert(w[j] == r[i]);
        if i + 1 < r.len() {
            assert(w[j + 1] == r[i + 1]);
        }
        if i + 2 < r.len() {
            assert(w[j + 2] == r[i + 2]);
        }
        lemma_pct_shift(p, r, i + 1);
        if i + 3 <= r.len() {
            lemma_pct_shift(p, r, i + 3);
        }
    }
}

/// The bytes a URL path is written with (it is ASCII).
pub open spec fn url_bytes(t: Seq<char>) -> Seq<u8> {
    t.map_values(|c: char| c as u8)
}

proof fn lemma_hex_round(d: u8)
    requires
        d < 16,
    ensures
        hex_value(hex_upper(d) as u8) == Some(d),
{
}

proof fn lemma_pct_of_encoded(b: Seq<u8>)
    ensures
        pct_from(url_bytes(encode_bytes(b)), 0) == b,
    decreases b.len(),
{
    if b.len() > 0 {
        let x = b[0];
        let rest = b.drop_first();
        assert(b =~= seq![x] + rest);
        lemma_encode_bytes_concat(seq![x], rest);
        assert(seq![x].drop_last() =~= Seq::<u8>::empty());
        assert(encode_bytes(Seq::<u8>::empty()) == Seq::<char>::empty());
        assert(encode_bytes(seq![x]) =~= encode_byte(x));
        let e = encode_byte(x);
        let tail = url_bytes(encode_bytes(rest));
        assert(url_bytes(encode_bytes(b)) =~= url_bytes(e) + tail);
        lemma_pct_of_encoded(rest);
        if url_plain(x) {
            assert(url_bytes(e) =~= seq![x]);
            lemma_pct_shift(seq![x], tail, 0);
            assert(pct_from(seq![x] + tail, 0) == seq![x] + pct_from(seq![x] + tail, 1));
        } else {
            let hi = x / 16;
            let lo = x % 16;
            lemma_hex_round(hi);
            lemma_hex_round(lo);
            assert(url_bytes(e) =~= seq![37u8, hex_upper(hi) as u8, hex_upper(lo) as u8]);
            let w = url_bytes(e) + tail;
            assert(w[0] == 37u8 && w[1] == hex_upper(hi) as u8 && w[2] == hex_upper(lo) as u8);
            assert((hi * 16 + lo) as u8 == x);
            lemma_pct_shift(url_bytes(e), tail, 0);
            assert(pct_from(w, 0) == seq![x] + pct_from(w, 3));
        }
        assert(seq![x] + rest =~= b);
    } else {
        assert(url_bytes(encode_bytes(b)) =~= Seq::<u8>::empty());
    }
}

/// Decoding undoes encoding: a path written as a URL path by [`encode_path`] reads back as
/// the same path through [`percent_decode`], whatever characters it holds.
pub proof fn decoding_undoes_encoding(s: Seq<char>)
    ensures
        percent_decode_spec(encode_bytes(encode_utf8(s))) == s,
{
    let b = encode_utf8(s);
    let t = encode_bytes(b);
    lemma_encode_bytes_ascii(b);
    is_ascii_chars_encode_utf8(t);
    assert(encode_utf8(t) =~= url_bytes(t));
    lemma_pct_of_encoded(b);
    crate::text::lemma_bytes_text_encode(s);
}

fn hex_upper_char(d: u8) -> (c: char)
    requires
        d < 16,
    ensures
        c == hex_upper(d),
{
    if d < 10 {
        let v = d + 48;
        v as char
    } else {
        let v = d - 10 + 65;
        v as char
    }
}

/// Renders [`encode_bytes`] of the UTF-8 of `rel`.
pub fn encode_path(rel: &str) -> (r: String)
    ensures
        r@ == encode_bytes(encode_utf8(rel@)),
{
    let bytes = rel.as_bytes();
    let ghost b = bytes@;
    let mut out = String::new();
    let mut i: usize = 0;
    assert(b.take(0) =~= Seq::<u8>::empty());
    while i < bytes.len()
        invariant
            b == bytes@,
            i <= b.len(),
            out@ == encode_bytes(b.take(i as int)),
        decreases b.len() - i,
    {
        let x = bytes[i];
        assert(b.take(i + 1).drop_last() =~= b.take(i as int));
        let ghost o0 = out@;
        if x == 47 || x == 45 || x == 95 || x == 46 || x == 126 || (65 <= x && x <= 90) || (97 <= x && x <= 122)
            || (48 <= x && x <= 57) {
            push_char(&mut out, x as char);
        } else {
            push_char(&mut out, '%');
            push_char(&mut out, hex_upper_char(x / 16));
            push_char(&mut out, hex_upper_char(x % 16));
        }
        assert(out@ =~= o0 + encode_byte(x));
        i = i + 1;
    }
    assert(b.take(i as int) =~= b);
    out
}

/// Whether `c` is an ASCII letter.
pub open spec fn is_alpha(c: char) -> bool {
    ('a' <= c && c <= 'z') || ('A' <= c && c <= 'Z')
}

/// Whether `c` is an ASCII letter or digit.
pub open spec fn is_alnum(c: char) -> bool {
    is_alpha(c) || ('0' <= c && c <= '9')
}

/// Whether `c` may appear in a URL scheme.
pub open spec fn scheme_char(c: char) -> bool {
    is_alnum(c) || c == '+' || c == '-' || c == '.'
}

/// Whether `u` starts with a URL scheme (`http:`, `mailto:`): a letter, then letters,
/// digits, `+`, `-` or `.` up to the first `:`.
pub open spec fn has_scheme_spec(u: Seq<char>) -> bool {
    match crate::text::first_index_of(u, ':') {
        None => false,
        Some(k) => k > 0 && is_alpha(u[0]) && forall|j: int| 0 <= j < k ==> scheme_char(#[trigger] u[j]),
    }
}

/// Whether `url` starts with a URL scheme (see [`has_scheme_spec`]).
pub fn has_scheme(url: &str) -> (r: bool)
    ensures
        r == has_scheme_spec(url@),
{
    let v = chars_of(url);
    proof {
        crate::text::lemma_first_index_of(v@, ':');
    }
    if v.len() == 0 || !(('a' <= v[0] && v[0] <= 'z') || ('A' <= v[0] && v[0] <= 'Z')) {
        return false;
    }
    let mut i: usize = 0;
    while i < v.len()
        invariant
            0 < v@.len(),
            i <= v@.len(),
            v@ == url@,
            is_alpha(v@[0]),
            forall|j: int| 0 <= j < i ==> v@[j] != ':' && scheme_char(#[trigger] v@[j]),
        decreases v@.len() - i,
    {
        let c = v[i];
        if c == ':' {
            proof {
                crate::text::lemma_first_index_of_unique(v@, ':', i as int);
            }
            return i > 0;
        }
        if !(('a' <= c && c <= 'z') || ('A' <= c && c <= 'Z') || ('0' <= c && c <= '9') || c == '+' || c == '-'
            || c == '.') {
            proof {
                crate::text::lemma_first_index_of(v@, ':');
                match crate::text::first_index_of(v@, ':') {
                    Some(k) => {
                        assert(v@[k] == ':');
                        assert(k > i);
                    },
                    None => {},
                }
            }
            return false;
        }
        i = i + 1;
    }
    false
}


/// `p` without its leading `/` characters.
pub open spec fn trim_leading_slashes(p: Seq<char>) -> Seq<char>
    decreases p.len(),
{
    if p.len() > 0 && p[0] == '/' {
        trim_leading_slashes(p.drop_first())
    } else {
        p
    }
}

/// The URL of the real path `path`: `/` and the path relative to `root` when it lies
/// under it, else [`ABS_PREFIX`] and the absolute path; either percent-encoded.
pub open spec fn asset_url_spec(root: Seq<char>, path: Seq<char>) -> Seq<char> {
    match strip_prefix_spec(path, root) {
        Some(rel) => "/"@ + encode_bytes(encode_utf8(rel)),
        None => "/__abs/"@ + encode_bytes(encode_utf8(trim_leading_slashes(path))),
    }
}

/// Renders [`asset_url_spec`].
pub fn asset_url(root: &str, path: &str) -> (r: String)
    ensures
        r@ == asset_url_spec(root@, path@),
{
    proof {
        reveal_strlit("/");
        reveal_strlit("/__abs/");
    }
    match strip_prefix(path, root) {
        Some(rel) => {
            let mut r = String::new();
            push_str(&mut r, "/");
            push_str(&mut r, encode_path(rel.as_str()).as_str());
            r
        },
        None => {
            let v = chars_of(path);
            let mut k: usize = 0;
            assert(v@.subrange(0, v@.len() as int) =~= v@);
            while k < v.len() && v[k] == '/'
                invariant
                    k <= v@.len(),
                    trim_leading_slashes(v@.subrange(k as int, v@.len() as int)) == trim_leading_slashes(path@),
                    v@ == path@,
                decreases v@.len() - k,
            {
                assert(v@.subrange(k as int, v@.len() as int).drop_first() =~= v@.subrange(k + 1, v@.len() as int));
                k = k + 1;
            }
            proof {
                if k == 0 {
                    assert(v@.subrange(0, v@.len() as int) =~= v@);
                }
            }
            let rest = string_of(slice_to_vec(v.as_slice(), k, v.len()).as_slice());
            let mut r = String::new();
            push_str(&mut r, ABS_PREFIX);
            push_str(&mut r, encode_path(rest.as_str()).as_str());
            r
        },
    }
}

/// The identifier of a file: its path as it is.
pub fn file_id(path: &str) -> (r: String)
    ensures
        r@ == path@,
{
    string_of(chars_of(path).as_slice())
}

/// The name shown for the identifier `id`: relative to `root` when it lies strictly
/// below it, else `id` itself (also for an empty root).
pub open spec fn display_id_spec(root: Seq<char>, id: Seq<char>) -> Seq<char> {
    if root.len() == 0 {
        id
    } else {
        let prefix = if root.last() == '/' { root } else { root + "/"@ };
        if prefix.len() < id.len() && id.take(prefix.len() as int) == prefix {
            id.skip(prefix.len() as int)
        } else {
            id
        }
    }
}

/// Renders [`display_id_spec`].
pub fn display_id(root: &str, id: &str) -> (r: String)
    ensures
        r@ == display_id_spec(root@, id@),
{
    let rv = chars_of(root);
    let iv = chars_of(id);
    if rv.len() == 0 {
        return string_of(iv.as_slice());
    }
    let mut prefix = rv;
    if prefix[prefix.len() - 1] != '/' {
        prefix.push('/');
    }
    proof {
        reveal_strlit("/");
    }
    assert(prefix@ == (if root@.last() == '/' { root@ } else { root@ + "/"@ }));
    if prefix.len() < iv.len() {
        let head = slice_to_vec(iv.as_slice(), 0, prefix.len());
        if crate::text::chars_eq(head.as_slice(), prefix.as_slice()) {
            let rest = slice_to_vec(iv.as_slice(), prefix.len(), iv.len());
            assert(rest@ =~= id@.skip(prefix@.len() as int));
            return string_of(rest.as_slice());
        }
    }
    string_of(iv.as_slice())
}

/// Where relative references of a document resolve: the document's directory, and the
/// root that decides the form of the URL.
pub struct DocBase<'a> {
    pub dir: &'a str,
    pub root: &'a str,
}

/// The URL a reference `url` in a document in `dir` resolves to: none for an empty
/// reference, an anchor, an absolute path, a URL with a scheme or an empty path part;
/// else the decoded path joined to `dir`, normalized, as [`asset_url_spec`], with the
/// fragment kept.
pub open spec fn resolve_url_spec(dir: Seq<char>, root: Seq<char>, url: Seq<char>) -> Option<Seq<char>> {
    if url.len() == 0 || url[0] == '#' || url[0] == '/' || has_scheme_spec(url) {
        None
    } else {
        let (path_part, frag) = match first_index_of(url, '#') {
            Some(i) => (url.subrange(0, i), url.subrange(i, url.len() as int)),
            None => (url, seq![]),
        };
        if path_part.len() == 0 {
            None
        } else {
            Some(asset_url_spec(root, normalize_spec(join_spec(dir, percent_decode_spec(path_part)))) + frag)
        }
    }
}

impl<'a> DocBase<'a> {
    pub fn new(dir: &'a str, root: &'a str) -> (r: DocBase<'a>)
        ensures
            r.dir@ == dir@,
            r.root@ == root@,
    {
        DocBase { dir, root }
    }

    /// Renders [`resolve_url_spec`] for this base.
    pub fn resolve_url(&self, url: &str) -> (r: Option<String>)
        ensures
            match resolve_url_spec(self.dir@, self.root@, url@) {
                Some(u) => r matches Some(x) && x@ == u,
                None => r is None,
            },
    {
        let v = chars_of(url);
        if v.len() == 0 || v[0] == '#' || v[0] == '/' || has_scheme(url) {
            return None;
        }
        let (path_part, frag) = match crate::text::find_char(v.as_slice(), '#') {
            Some(i) => (slice_to_vec(v.as_slice(), 0, i), slice_to_vec(v.as_slice(), i, v.len())),
            None => (slice_to_vec(v.as_slice(), 0, v.len()), Vec::new()),
        };
        proof {
            assert(v@.subrange(0, v@.len() as int) =~= v@);
        }
        if path_part.len() == 0 {
            return None;
        }
        let decoded = percent_decode(string_of(path_part.as_slice()).as_str());
        let joined = join(self.dir, decoded.as_str());
        let abs = normalize(joined.as_str());
        let mut r = asset_url(self.root, abs.as_str());
        crate::text::push_chars(&mut r, frag.as_slice());
        Some(r)
    }
}

} // verus!
