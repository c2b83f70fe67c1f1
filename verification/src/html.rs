//! HTML text helpers and page assembly.

use vstd::prelude::*;
use vstd::string::*;
use crate::text::{chars_of, push_char, push_str};

verus! {

broadcast use vstd::string::group_string_axioms;

/// What `html_escape` writes for one character.
pub open spec fn html_escape_char(c: char) -> Seq<char> {
    if c == '&' {
        "&amp;"@
    } else if c == '<' {
        "&lt;"@
    } else if c == '>' {
        "&gt;"@
    } else {
        seq![c]
    }
}

/// `s` with `&`, `<` and `>` replaced by their entities.
pub open spec fn html_escape_spec(s: Seq<char>) -> Seq<char>
    decreases s.len(),
{
    if s.len() == 0 {
        seq![]
    } else {
        html_escape_spec(s.drop_last()) + html_escape_char(s.last())
    }
}

/// What `attr_escape` writes for one character.
pub open spec fn attr_escape_char(c: char) -> Seq<char> {
    if c == '&' {
        "&amp;"@
    } else if c == '"' {
        "&quot;"@
    } else if c == '<' {
        "&lt;"@
    } else if c == '>' {
        "&gt;"@
    } else {
        seq![c]
    }
}

/// `s` with `&`, `"`, `<` and `>` replaced by their entities (safe inside a quoted attribute).
pub open spec fn attr_escape_spec(s: Seq<char>) -> Seq<char>
    decreases s.len(),
{
    if s.len() == 0 {
        seq![]
    } else {
        attr_escape_spec(s.drop_last()) + attr_escape_char(s.last())
    }
}

/// Appends `html_escape_spec(v)`.
pub fn push_html_escaped(out: &mut String, v: &[char])
    ensures
        final(out)@ == old(out)@ + html_escape_spec(v@),
{
    let ghost o0 = out@;
    let mut i: usize = 0;
    while i < v.len()
        invariant
            i <= v@.len(),
            out@ == o0 + html_escape_spec(v@.take(i as int)),
        decreases v@.len() - i,
    {
        let c = v[i];
        if c == '&' {
            push_str(out, "&amp;");
        } else if c == '<' {
            push_str(out, "&lt;");
        } else if c == '>' {
            push_str(out, "&gt;");
        } else {
            push_char(out, c);
        }
        proof {
            assert(v@.take(i + 1).drop_last() =~= v@.take(i as int));
            assert(v@.take(i + 1).last() == c);
        }
        i = i + 1;
    }
    assert(v@.take(i as int) =~= v@);
}

/// Appends `attr_escape_spec(v)`.
pub fn push_attr_escaped(out: &mut String, v: &[char])
    ensures
        final(out)@ == old(out)@ + attr_escape_spec(v@),
{
    let ghost o0 = out@;
    let mut i: usize = 0;
    while i < v.len()
        invariant
            i <= v@.len(),
            out@ == o0 + attr_escape_spec(v@.take(i as int)),
        decreases v@.len() - i,
    {
        let c = v[i];
        if c == '&' {
            push_str(out, "&amp;");
        } else if c == '"' {
            push_str(out, "&quot;");
        } else if c == '<' {
            push_str(out, "&lt;");
        } else if c == '>' {
            push_str(out, "&gt;");
        } else {
            push_char(out, c);
        }
        proof {
            assert(v@.take(i + 1).drop_last() =~= v@.take(i as int));
            assert(v@.take(i + 1).last() == c);
        }
        i = i + 1;
    }
    assert(v@.take(i as int) =~= v@);
}

/// Escapes text for use between tags: `&`, `<` and `>` become entities.
pub fn html_escape(s: &str) -> (r: String)
    ensures
        r@ == html_escape_spec(s@),
{
    let v = chars_of(s);
    let mut r = String::new();
    push_html_escaped(&mut r, v.as_slice());
    r
}

/// Escapes text for use inside a double-quoted attribute value.
pub fn attr_escape(s: &str) -> (r: String)
    ensures
        r@ == attr_escape_spec(s@),
{
    let v = chars_of(s);
    let mut r = String::new();
    push_attr_escaped(&mut r, v.as_slice());
    r
}


/// Lower-case hexadecimal digit for `d < 16`.
pub open spec fn hex_lower(d: nat) -> char {
    if d < 10 {
        (d + 48) as char
    } else {
        (d + 87) as char
    }
}

/// What `json_string` writes for one character.
pub open spec fn json_char(c: char) -> Seq<char> {
    if c == '"' {
        "\\\""@
    } else if c == '\\' {
        "\\\\"@
    } else if c == '\n' {
        "\\n"@
    } else if c == '\r' {
        "\\r"@
    } else if c == '\t' {
        "\\t"@
    } else if c == '<' {
        "\\u003c"@
    } else if c == '\u{2028}' {
        "\\u2028"@
    } else if c == '\u{2029}' {
        "\\u2029"@
    } else if (c as u32) < 0x20 {
        "\\u00"@ + seq![hex_lower((c as u32 / 16) as nat), hex_lower((c as u32 % 16) as nat)]
    } else {
        seq![c]
    }
}

/// The body of a JSON string literal for `s` (without the surrounding quotes).
pub open spec fn json_body(s: Seq<char>) -> Seq<char>
    decreases s.len(),
{
    if s.len() == 0 {
        seq![]
    } else {
        json_body(s.drop_last()) + json_char(s.last())
    }
}

/// The quoted JSON string literal for `s`.
pub open spec fn json_string_spec(s: Seq<char>) -> Seq<char> {
    seq!['"'] + json_body(s) + seq!['"']
}

fn hex_lower_char(d: u32) -> (c: char)
    requires
        d < 16,
    ensures
        c == hex_lower(d as nat),
{
    match d {
        0 => '0', 1 => '1', 2 => '2', 3 => '3', 4 => '4', 5 => '5', 6 => '6', 7 => '7',
        8 => '8', 9 => '9', 10 => 'a', 11 => 'b', 12 => 'c', 13 => 'd', 14 => 'e', _ => 'f',
    }
}

/// Appends `json_body(v)`.
pub fn push_json_body(out: &mut String, v: &[char])
    ensures
        final(out)@ == old(out)@ + json_body(v@),
{
    let ghost o0 = out@;
    let mut i: usize = 0;
    while i < v.len()
        invariant
            i <= v@.len(),
            out@ == o0 + json_body(v@.take(i as int)),
        decreases v@.len() - i,
    {
        let c = v[i];
        let ghost before = out@;
        if c == '"' {
            push_str(out, "\\\"");
        } else if c == '\\' {
            push_str(out, "\\\\");
        } else if c == '\n' {
            push_str(out, "\\n");
        } else if c == '\r' {
            push_str(out, "\\r");
        } else if c == '\t' {
            push_str(out, "\\t");
        } else if c == '<' {
            push_str(out, "\\u003c");
        } else if c == '\u{2028}' {
            push_str(out, "\\u2028");
        } else if c == '\u{2029}' {
            push_str(out, "\\u2029");
        } else if (c as u32) < 0x20 {
            push_str(out, "\\u00");
            push_char(out, hex_lower_char(c as u32 / 16));
            push_char(out, hex_lower_char(c as u32 % 16));
            assert(out@ == before + json_char(c));
        } else {
            push_char(out, c);
        }
        proof {
            assert(v@.take(i + 1).drop_last() =~= v@.take(i as int));
            assert(v@.take(i + 1).last() == c);
        }
        i = i + 1;
    }
    assert(v@.take(i as int) =~= v@);
}

/// Appends `json_string_spec(v)`.
pub fn push_json_string(out: &mut String, v: &[char])
    ensures
        final(out)@ == old(out)@ + json_string_spec(v@),
{
    push_char(out, '"');
    push_json_body(out, v);
    push_char(out, '"');
}

/// `s` as a JSON string literal. `<`, U+2028 and U+2029 are escaped as well, so the
/// result can sit inside an inline `<script>` without closing it or breaking its syntax.
pub fn json_string(s: &str) -> (r: String)
    ensures
        r@ == json_string_spec(s@),
{
    let v = chars_of(s);
    let mut r = String::new();
    push_json_string(&mut r, v.as_slice());
    r
}

/// One left-to-right pass over `t` that reads `&amp;`, `&lt;` and `&gt;` back as their
/// characters and keeps everything else.
pub open spec fn html_unescape(t: Seq<char>) -> Seq<char>
    decreases t.len(),
{
    if t.len() == 0 {
        seq![]
    } else if t.len() >= 5 && t.take(5) == "&amp;"@ {
        seq!['&'] + html_unescape(t.skip(5))
    } else if t.len() >= 4 && t.take(4) == "&lt;"@ {
        seq!['<'] + html_unescape(t.skip(4))
    } else if t.len() >= 4 && t.take(4) == "&gt;"@ {
        seq!['>'] + html_unescape(t.skip(4))
    } else {
        seq![t[0]] + html_unescape(t.drop_first())
    }
}

proof fn lemma_html_escape_front(s: Seq<char>)
    requires
        s.len() > 0,
    ensures
        html_escape_spec(s) == html_escape_char(s[0]) + html_escape_spec(s.drop_first()),
    decreases s.len(),
{
    if s.len() == 1 {
        assert(s.drop_last() =~= Seq::<char>::empty());
        assert(s.drop_first() =~= Seq::<char>::empty());
        assert(html_escape_spec(s) =~= html_escape_char(s[0]) + html_escape_spec(s.drop_first()));
    } else {
        lemma_html_escape_front(s.drop_last());
        assert(s.drop_last().drop_first() =~= s.drop_first().drop_last());
        assert(s.drop_first().last() == s.last());
        assert(s.drop_last()[0] == s[0]);
        assert(html_escape_spec(s) =~= html_escape_char(s[0]) + html_escape_spec(s.drop_first()));
    }
}

/// Reading the escaped text back in one left-to-right pass over the three entities gives
/// the original text: `html_escape` loses nothing.
pub proof fn html_unescape_undoes_html_escape(s: Seq<char>)
    ensures
        html_unescape(html_escape_spec(s)) == s,
    decreases s.len(),
{
    reveal_strlit("&amp;");
    reveal_strlit("&lt;");
    reveal_strlit("&gt;");
    if s.len() > 0 {
        lemma_html_escape_front(s);
        html_unescape_undoes_html_escape(s.drop_first());
        let c = s[0];
        let rest = html_escape_spec(s.drop_first());
        let t = html_escape_char(c) + rest;
        if c == '&' {
            assert(t.take(5) =~= "&amp;"@);
            assert(t.skip(5) =~= rest);
        } else if c == '<' {
            assert(t[1] == 'l');
            assert(!(t.len() >= 5 && t.take(5) == "&amp;"@)) by {
                if t.len() >= 5 && t.take(5) == "&amp;"@ { assert(t.take(5)[1] == t[1]); }
            }
            assert(t.take(4) =~= "&lt;"@);
            assert(t.skip(4) =~= rest);
        } else if c == '>' {
            assert(t[1] == 'g');
            assert(!(t.len() >= 5 && t.take(5) == "&amp;"@)) by {
                if t.len() >= 5 && t.take(5) == "&amp;"@ { assert(t.take(5)[1] == t[1]); }
            }
            assert(!(t.len() >= 4 && t.take(4) == "&lt;"@)) by {
                if t.len() >= 4 && t.take(4) == "&lt;"@ { assert(t.take(4)[1] == t[1]); }
            }
            assert(t.take(4) =~= "&gt;"@);
            assert(t.skip(4) =~= rest);
        } else {
            assert(t[0] == c);
            assert(t.drop_first() =~= rest);
            assert(!(t.len() >= 5 && t.take(5) == "&amp;"@)) by {
                if t.len() >= 5 && t.take(5) == "&amp;"@ { assert(t.take(5)[0] == t[0]); }
            }
            assert(!(t.len() >= 4 && t.take(4) == "&lt;"@)) by {
                if t.len() >= 4 && t.take(4) == "&lt;"@ { assert(t.take(4)[0] == t[0]); }
            }
            assert(!(t.len() >= 4 && t.take(4) == "&gt;"@)) by {
                if t.len() >= 4 && t.take(4) == "&gt;"@ { assert(t.take(4)[0] == t[0]); }
            }
        }
        assert(html_unescape(t) == seq![c] + html_unescape(rest));
        assert(seq![c] + s.drop_first() =~= s);
    } else {
        assert(s =~= Seq::<char>::empty());
    }
}

/// The value of a hexadecimal digit, in either case.
pub open spec fn hex_value(c: char) -> Option<nat> {
    if '0' <= c <= '9' {
        Some((c as nat - 48) as nat)
    } else if 'a' <= c <= 'f' {
        Some((c as nat - 87) as nat)
    } else if 'A' <= c <= 'F' {
        Some((c as nat - 55) as nat)
    } else {
        None
    }
}

/// The character of a one-letter JSON escape (`\"`, `\\`, `\/`, `\b`, `\f`, `\n`, `\r`,
/// `\t`).
pub open spec fn json_short_escape(e: char) -> Option<char> {
    if e == '"' {
        Some('"')
    } else if e == '\\' {
        Some('\\')
    } else if e == '/' {
        Some('/')
    } else if e == 'b' {
        Some('\x08')
    } else if e == 'f' {
        Some('\x0C')
    } else if e == 'n' {
        Some('\n')
    } else if e == 'r' {
        Some('\r')
    } else if e == 't' {
        Some('\t')
    } else {
        None
    }
}

/// How a JSON parser (RFC 8259) reads the inside of a string literal: an escape stands
/// for its character, `\uXXXX` for the character with that code; any other character for
/// itself, except `"` (which would end the literal) and control characters, which make the
/// text invalid. A `\u` escape naming half of a UTF-16 surrogate pair is not read here.
pub open spec fn json_unescape(t: Seq<char>) -> Option<Seq<char>>
    decreases t.len(),
{
    if t.len() == 0 {
        Some(seq![])
    } else if t[0] == '\\' {
        if t.len() < 2 {
            None
        } else {
            match json_short_escape(t[1]) {
                Some(c) => match json_unescape(t.skip(2)) {
                    Some(r) => Some(seq![c] + r),
                    None => None,
                },
                None => if t[1] == 'u' && t.len() >= 6 {
                    match (hex_value(t[2]), hex_value(t[3]), hex_value(t[4]), hex_value(t[5])) {
                        (Some(a), Some(b), Some(c), Some(d)) => {
                            let v = a * 4096 + b * 256 + c * 16 + d;
                            if 0xD800 <= v <= 0xDFFF {
                                None
                            } else {
                                match json_unescape(t.skip(6)) {
                                    Some(r) => Some(seq![v as char] + r),
                                    None => None,
                                }
                            }
                        },
                        _ => None,
                    }
                } else {
                    None
                },
            }
        }
    } else if t[0] == '"' || (t[0] as u32) < 0x20 {
        None
    } else {
        match json_unescape(t.drop_first()) {
            Some(r) => Some(seq![t[0]] + r),
            None => None,
        }
    }
}

/// How a JSON parser reads a string literal: quotes around text read by [`json_unescape`].
pub open spec fn json_read(lit: Seq<char>) -> Option<Seq<char>> {
    if lit.len() >= 2 && lit[0] == '"' && lit.last() == '"' {
        json_unescape(lit.subrange(1, lit.len() - 1))
    } else {
        None
    }
}

proof fn lemma_json_body_front(s: Seq<char>)
    requires
        s.len() > 0,
    ensures
        json_body(s) == json_char(s[0]) + json_body(s.drop_first()),
    decreases s.len(),
{
    if s.len() == 1 {
        assert(s.drop_last() =~= Seq::<char>::empty());
        assert(s.drop_first() =~= Seq::<char>::empty());
        assert(json_body(s) =~= json_char(s[0]) + json_body(s.drop_first()));
    } else {
        lemma_json_body_front(s.drop_last());
        assert(s.drop_last().drop_first() =~= s.drop_first().drop_last());
        assert(s.drop_first().last() == s.last());
        assert(s.drop_last()[0] == s[0]);
        assert(json_body(s) =~= json_char(s[0]) + json_body(s.drop_first()));
    }
}

proof fn lemma_hex_round(d: nat)
    requires
        d < 16,
    ensures
        hex_value(hex_lower(d)) == Some(d),
{
}

proof fn lemma_json_char_read(c: char, rest: Seq<char>, r: Seq<char>)
    requires
        json_unescape(rest) == Some(r),
    ensures
        json_unescape(json_char(c) + rest) == Some(seq![c] + r),
{
    reveal_strlit("\\\"");
    reveal_strlit("\\\\");
    reveal_strlit("\\n");
    reveal_strlit("\\r");
    reveal_strlit("\\t");
    reveal_strlit("\\u003c");
    reveal_strlit("\\u2028");
    reveal_strlit("\\u2029");
    reveal_strlit("\\u00");
    let t = json_char(c) + rest;
    if c == '"' || c == '\\' || c == '\n' || c == '\r' || c == '\t' {
        assert(t.skip(2) =~= rest);
    } else if c == '<' || c == '\u{2028}' || c == '\u{2029}' {
        assert(t.skip(6) =~= rest);
    } else if (c as u32) < 0x20 {
        let hi = (c as u32 / 16) as nat;
        let lo = (c as u32 % 16) as nat;
        lemma_hex_round(hi);
        lemma_hex_round(lo);
        assert(t[4] == hex_lower(hi));
        assert(t[5] == hex_lower(lo));
        assert(t.skip(6) =~= rest);
        assert(hi * 16 + lo == c as u32);
    } else {
        assert(t.drop_first() =~= rest);
    }
}

proof fn lemma_json_body_read(s: Seq<char>)
    ensures
        json_unescape(json_body(s)) == Some(s),
    decreases s.len(),
{
    if s.len() == 0 {
        assert(s =~= Seq::<char>::empty());
    } else {
        lemma_json_body_front(s);
        lemma_json_body_read(s.drop_first());
        lemma_json_char_read(s[0], json_body(s.drop_first()), s.drop_first());
        assert(seq![s[0]] + s.drop_first() =~= s);
    }
}

/// A JSON parser reads `json_string`'s literal back as exactly the text it was made from.
pub proof fn json_string_reads_back(s: Seq<char>)
    ensures
        json_read(json_string_spec(s)) == Some(s),
{
    lemma_json_body_read(s);
    let lit = json_string_spec(s);
    assert(lit.subrange(1, lit.len() - 1) =~= json_body(s));
}

/// Whether `t` holds no `<` or `>`, so it cannot open or close a tag.
pub open spec fn markup_free(t: Seq<char>) -> bool {
    forall|i: int| 0 <= i < t.len() ==> t[i] != '<' && t[i] != '>'
}

proof fn lemma_markup_free_concat(a: Seq<char>, b: Seq<char>)
    requires
        markup_free(a),
        markup_free(b),
    ensures
        markup_free(a + b),
{
    assert forall|i: int| 0 <= i < (a + b).len() implies (a + b)[i] != '<' && (a + b)[i] != '>' by {
        if i >= a.len() {
            assert((a + b)[i] == b[i - a.len()]);
        }
    }
}

/// Escaped text holds no `<` or `>`: whatever the text, it cannot open or close a tag.
pub proof fn html_escape_is_markup_free(s: Seq<char>)
    ensures
        markup_free(html_escape_spec(s)),
    decreases s.len(),
{
    reveal_strlit("&amp;");
    reveal_strlit("&lt;");
    reveal_strlit("&gt;");
    if s.len() > 0 {
        html_escape_is_markup_free(s.drop_last());
        lemma_markup_free_concat(html_escape_spec(s.drop_last()), html_escape_char(s.last()));
    }
}

/// An attribute value escaped for a double-quoted attribute holds no `"`, `<` or `>`: the
/// value can neither end the attribute nor open a tag (a file name in a `title` cannot
/// inject attributes into the page).
pub proof fn attr_escape_stays_in_the_attribute(s: Seq<char>)
    ensures
        markup_free(attr_escape_spec(s)),
        forall|i: int| 0 <= i < attr_escape_spec(s).len() ==> attr_escape_spec(s)[i] != '"',
    decreases s.len(),
{
    reveal_strlit("&amp;");
    reveal_strlit("&quot;");
    reveal_strlit("&lt;");
    reveal_strlit("&gt;");
    if s.len() > 0 {
        attr_escape_stays_in_the_attribute(s.drop_last());
        let a = attr_escape_spec(s.drop_last());
        let b = attr_escape_char(s.last());
        lemma_markup_free_concat(a, b);
        assert forall|i: int| 0 <= i < (a + b).len() implies (a + b)[i] != '"' by {
            if i >= a.len() {
                assert((a + b)[i] == b[i - a.len()]);
            }
        }
    }
}

/// Whether text can sit inside an inline `<script>`: no `<` (which could close the
/// element), no line or paragraph separator and no control character (which would break
/// the literal).
pub open spec fn script_safe(t: Seq<char>) -> bool {
    forall|i: int|
        0 <= i < t.len() ==> t[i] != '<' && t[i] != '\u{2028}' && t[i] != '\u{2029}' && (t[i] as u32) >= 0x20
}

proof fn lemma_script_safe_concat(a: Seq<char>, b: Seq<char>)
    requires
        script_safe(a),
        script_safe(b),
    ensures
        script_safe(a + b),
{
    assert forall|i: int| 0 <= i < (a + b).len() implies (a + b)[i] != '<' && (a + b)[i] != '\u{2028}' && (a
        + b)[i] != '\u{2029}' && ((a + b)[i] as u32) >= 0x20 by {
        if i >= a.len() {
            assert((a + b)[i] == b[i - a.len()]);
        }
    }
}

proof fn lemma_json_char_safe(c: char)
    ensures
        script_safe(json_char(c)),
{
    reveal_strlit("\\\"");
    reveal_strlit("\\\\");
    reveal_strlit("\\n");
    reveal_strlit("\\r");
    reveal_strlit("\\t");
    reveal_strlit("\\u003c");
    reveal_strlit("\\u2028");
    reveal_strlit("\\u2029");
    reveal_strlit("\\u00");
    if !(c == '"' || c == '\\' || c == '\n' || c == '\r' || c == '\t' || c == '<' || c == '\u{2028}' || c == '\u{2029}')
        && (c as u32) < 0x20 {
        let h = seq![hex_lower((c as u32 / 16) as nat), hex_lower((c as u32 % 16) as nat)];
        assert(script_safe(h));
        lemma_script_safe_concat("\\u00"@, h);
    }
}

/// A JSON string literal made here can sit inside an inline `<script>`, whatever the text:
/// `<`, U+2028, U+2029 and every control character are written as escapes.
pub proof fn json_string_is_script_safe(s: Seq<char>)
    ensures
        script_safe(json_string_spec(s)),
    decreases s.len(),
{
    lemma_json_body_safe(s);
    lemma_script_safe_concat(seq!['"'], json_body(s));
    lemma_script_safe_concat(seq!['"'] + json_body(s), seq!['"']);
}

proof fn lemma_json_body_safe(s: Seq<char>)
    ensures
        script_safe(json_body(s)),
    decreases s.len(),
{
    if s.len() > 0 {
        lemma_json_body_safe(s.drop_last());
        lemma_json_char_safe(s.last());
        lemma_script_safe_concat(json_body(s.drop_last()), json_char(s.last()));
    }
}

} // verus!
