//! A paragraph that is nothing but a link to a local file, such as
//! `[main](./src/main.rs#L10-L20)`, is shown as an embed of the file's lines (a local take
//! on GitHub's permalink embeds). Links inside running text stay links. Only local files
//! are read, and reading them is the application's part: it resolves the relative paths
//! that [`crate::markdown::embed_targets`] lists and hands their texts back.

use vstd::prelude::*;
use vstd::utf8::*;
use crate::text::{chars_of, push_str, push_usize, string_of, slice_to_vec, dec, parse_usize, parse_usize_spec, first_index_of};
use crate::html::{html_escape_spec, push_html_escaped};
use crate::lines::{lines_spec, split_lines};
use crate::markdown::{LEvent, LView, Ev, trim, trimmed};
use crate::paths::ext_lower;
use crate::request::{extension_to_hljs_lang, hljs_lang_spec};
use crate::urlpath::{percent_decode, percent_decode_spec, is_alpha, scheme_char};

verus! {

broadcast use vstd::string::group_string_axioms;

/// Embeds longer than this many lines are folded, with a button to expand them.
pub const COLLAPSE_LINES: usize = 100;

/// At most this many lines are embedded, even when the range asks for more.
pub const MAX_EMBED_LINES: usize = 1000;

/// At most this many bytes of code are embedded (the first line always is).
pub const MAX_EMBED_BYTES: usize = 262144;

/// Files larger than this are not read for an embed.
pub const MAX_READ_BYTES: u64 = 8388608;

/// A line range from a link's fragment: 1-based and inclusive; without an end, the start
/// line alone.
#[derive(Clone, Copy, Debug, PartialEq, Eq)]
pub struct LineSpec {
    pub start: usize,
    pub end: Option<usize>,
}

/// A file the application read for an embed: the relative path as the link wrote it
/// (decoded), the resolved path, and the text.
pub struct EmbedFile {
    pub rel: String,
    pub path: String,
    pub text: String,
}

/// The content of an [`EmbedFile`].
pub struct EmbedFileView {
    pub rel: Seq<char>,
    pub path: Seq<char>,
    pub text: Seq<char>,
}

impl View for EmbedFile {
    type V = EmbedFileView;

    open spec fn view(&self) -> EmbedFileView {
        EmbedFileView { rel: self.rel@, path: self.path@, text: self.text@ }
    }
}

/// The views of a list of files.
pub open spec fn files_view(v: Seq<EmbedFile>) -> Seq<EmbedFileView> {
    v.map_values(|f: EmbedFile| f@)
}

// ── link destinations ───────────────────────────────────────────────────────

/// `s` without a leading `L` or `l`, if it has one.
pub open spec fn strip_l_spec(s: Seq<char>) -> Option<Seq<char>> {
    if s.len() > 0 && (s[0] == 'L' || s[0] == 'l') {
        Some(s.drop_first())
    } else {
        None
    }
}

/// `s` without a leading `L` or `l`, if it has one.
pub fn strip_l(s: &[char]) -> (r: Option<Vec<char>>)
    ensures
        match strip_l_spec(s@) {
            Some(t) => r matches Some(v) && v@ == t,
            None => r is None,
        },
{
    if s.len() > 0 && (s[0] == 'L' || s[0] == 'l') {
        let v = slice_to_vec(s, 1, s.len());
        assert(v@ =~= s@.drop_first());
        Some(v)
    } else {
        None
    }
}

/// A fragment read as a line range: `L10`, `L10-L20` or `L10-20`, the `L` in either case;
/// line 0 and anything else are refused.
pub open spec fn line_spec_of(frag: Seq<char>) -> Option<LineSpec> {
    match strip_l_spec(frag) {
        None => None,
        Some(rest) => {
            let (start_s, end_s) = match first_index_of(rest, '-') {
                Some(k) => (rest.subrange(0, k), Some(rest.subrange(k + 1, rest.len() as int))),
                None => (rest, None),
            };
            match parse_usize_spec(start_s) {
                None => None,
                Some(start) => if start == 0 {
                    None
                } else {
                    match end_s {
                        None => Some(LineSpec { start, end: None }),
                        Some(b) => {
                            let bs = match strip_l_spec(b) {
                                Some(t) => t,
                                None => b,
                            };
                            match parse_usize_spec(bs) {
                                None => None,
                                Some(n) => if n == 0 { None } else { Some(LineSpec { start, end: Some(n) }) },
                            }
                        },
                    }
                },
            }
        },
    }
}

/// Reads a fragment as a line range (see [`line_spec_of`]).
pub fn parse_line_spec(frag: &[char]) -> (r: Option<LineSpec>)
    ensures
        r == line_spec_of(frag@),
{
    let rest = match strip_l(frag) {
        None => return None,
        Some(r) => r,
    };
    let (start_s, end_s) = match crate::text::find_char(rest.as_slice(), '-') {
        Some(k) => (slice_to_vec(rest.as_slice(), 0, k), Some(slice_to_vec(rest.as_slice(), k + 1, rest.len()))),
        None => (rest, None),
    };
    let start = match parse_usize(start_s.as_slice()) {
        None => return None,
        Some(s) => s,
    };
    if start == 0 {
        return None;
    }
    match end_s {
        None => Some(LineSpec { start, end: None }),
        Some(b) => {
            let bs = match strip_l(b.as_slice()) {
                Some(t) => t,
                None => b,
            };
            match parse_usize(bs.as_slice()) {
                None => None,
                Some(n) => if n == 0 { None } else { Some(LineSpec { start, end: Some(n) }) },
            }
        },
    }
}

/// Whether `s` starts with a URL scheme: a letter, then letters, digits, `+`, `-` or `.`
/// up to the first `:`.
pub open spec fn dest_has_scheme(s: Seq<char>) -> bool {
    match first_index_of(s, ':') {
        None => false,
        Some(k) => k > 0 && is_alpha(s[0]) && forall|j: int| 0 <= j < k ==> scheme_char(#[trigger] s[j]),
    }
}

/// Whether `s` starts with a URL scheme (see [`dest_has_scheme`]).
pub fn has_scheme(s: &str) -> (r: bool)
    ensures
        r == dest_has_scheme(s@),
{
    let v = chars_of(s);
    scheme_prefix(v.as_slice())
}

fn scheme_prefix(s: &[char]) -> (r: bool)
    ensures
        r == dest_has_scheme(s@),
{
    let colon = match crate::text::find_char(s, ':') {
        None => return false,
        Some(k) => k,
    };
    if colon == 0 || !(('a' <= s[0] && s[0] <= 'z') || ('A' <= s[0] && s[0] <= 'Z')) {
        return false;
    }
    let mut j: usize = 0;
    while j < colon
        invariant
            colon < s@.len(),
            first_index_of(s@, ':') == Some(colon as int),
            j <= colon,
            forall|q: int| 0 <= q < j ==> scheme_char(#[trigger] s@[q]),
        decreases colon - j,
    {
        let c = s[j];
        if !(('a' <= c && c <= 'z') || ('A' <= c && c <= 'Z') || ('0' <= c && c <= '9') || c == '+' || c == '-' || c == '.') {
            assert(!scheme_char(s@[j as int]));
            return false;
        }
        j = j + 1;
    }
    true
}

/// A link destination read as a local path and line range: refused when empty, an
/// anchor, protocol-relative, with a scheme, with an empty path, or with a fragment that
/// is no line range. The path is percent-decoded.
pub open spec fn dest_spec(dest: Seq<char>) -> Option<(Seq<char>, Option<LineSpec>)> {
    let d = trim(dest);
    if d.len() == 0 || d[0] == '#' || (d.len() >= 2 && d[0] == '/' && d[1] == '/') || dest_has_scheme(d) {
        None
    } else {
        let (path_part, frag) = match first_index_of(d, '#') {
            Some(k) => (d.subrange(0, k), Some(d.subrange(k + 1, d.len() as int))),
            None => (d, None),
        };
        if path_part.len() == 0 {
            None
        } else {
            match frag {
                None => Some((percent_decode_spec(path_part), None)),
                Some(f) => match line_spec_of(f) {
                    None => None,
                    Some(ls) => Some((percent_decode_spec(path_part), Some(ls))),
                },
            }
        }
    }
}

/// Reads a link destination (see [`dest_spec`]).
pub fn parse_dest(dest: &str) -> (r: Option<(String, Option<LineSpec>)>)
    ensures
        match dest_spec(dest@) {
            Some((p, s)) => r matches Some((q, t)) && q@ == p && t == s,
            None => r is None,
        },
{
    let raw = chars_of(dest);
    let d = trimmed(raw.as_slice());
    if d.len() == 0 || d[0] == '#' || (d.len() >= 2 && d[0] == '/' && d[1] == '/') || scheme_prefix(d.as_slice()) {
        return None;
    }
    let (path_part, frag) = match crate::text::find_char(d.as_slice(), '#') {
        Some(k) => (slice_to_vec(d.as_slice(), 0, k), Some(slice_to_vec(d.as_slice(), k + 1, d.len()))),
        None => (d, None),
    };
    if path_part.len() == 0 {
        return None;
    }
    let path = percent_decode(string_of(path_part.as_slice()).as_str());
    match frag {
        None => Some((path, None)),
        Some(f) => match parse_line_spec(f.as_slice()) {
            None => None,
            Some(ls) => Some((path, Some(ls))),
        },
    }
}

/// Whether a path names a page the viewer renders (`md`, `markdown`, `html`, `htm`, in
/// any case); links to those navigate and are not embedded without a line range.
pub open spec fn is_navigable_spec(path: Seq<char>) -> bool {
    match ext_lower(path) {
        Some(e) => e == "md"@ || e == "markdown"@ || e == "html"@ || e == "htm"@,
        None => false,
    }
}

/// Renders [`is_navigable_spec`].
pub fn is_navigable_page(path: &str) -> (r: bool)
    ensures
        r == is_navigable_spec(path@),
{
    match crate::paths::ext_lower_of(path) {
        Some(e) => crate::text::chars_eq_str(e.as_slice(), "md") || crate::text::chars_eq_str(e.as_slice(), "markdown")
            || crate::text::chars_eq_str(e.as_slice(), "html") || crate::text::chars_eq_str(e.as_slice(), "htm"),
        None => false,
    }
}


// ── the embed ───────────────────────────────────────────────────────────────

/// The first file in `files` read for the relative path `rel`.
pub open spec fn lookup_file(files: Seq<EmbedFileView>, rel: Seq<char>) -> Option<EmbedFileView>
    decreases files.len(),
{
    if files.len() == 0 {
        None
    } else if files[0].rel == rel {
        Some(files[0])
    } else {
        lookup_file(files.drop_first(), rel)
    }
}

/// Lines joined with `\n`.
pub open spec fn join_lines(ls: Seq<Seq<char>>) -> Seq<char>
    decreases ls.len(),
{
    if ls.len() == 0 {
        seq![]
    } else if ls.len() == 1 {
        ls[0]
    } else {
        join_lines(ls.drop_last()) + "\n"@ + ls.last()
    }
}

/// The last line, from line `i` on, that still fits: lines are added while their bytes
/// (each with its line break) stay within [`MAX_EMBED_BYTES`], the first line always.
pub open spec fn fit_end(ls: Seq<Seq<char>>, start: int, i: int, req: int, bytes: int) -> int
    decreases req + 1 - i,
{
    if i > req || i < 1 || i > ls.len() {
        i - 1
    } else {
        let b2 = bytes + encode_utf8(ls[i - 1]).len() + 1;
        if b2 > MAX_EMBED_BYTES && i > start {
            i - 1
        } else {
            fit_end(ls, start, i + 1, req, b2)
        }
    }
}

/// The line label of an embed: the range and the total when lines were cut, the total for
/// a whole file, else the range.
pub open spec fn embed_label(start: nat, end: nat, intent_end: nat, total: nat, ranged: bool) -> Seq<char> {
    if end < intent_end {
        "L"@ + dec(start) + "-L"@ + dec(end) + " / 全 "@ + dec(total) + " 行"@
    } else if !ranged {
        "全 "@ + dec(total) + " 行"@
    } else if start == end {
        "L"@ + dec(start)
    } else {
        "L"@ + dec(start) + "-L"@ + dec(end)
    }
}

/// The embed of `file` for the link path `rel` and range `spec`: none for an empty file or
/// a start past its end. Lines `start..=end` (see [`fit_end`], at most
/// [`MAX_EMBED_LINES`]) under a bar with the path (without a leading `./`) and the
/// [`embed_label`]; folded behind a checkbox `code-embed-<uid>` when longer than
/// [`COLLAPSE_LINES`].
pub open spec fn embed_html_spec(rel: Seq<char>, spec: Option<LineSpec>, file: EmbedFileView, attrs: Seq<char>, uid: nat) -> Option<Seq<char>> {
    let ls = lines_spec(file.text);
    let total = ls.len() as int;
    if total == 0 {
        None
    } else if spec matches Some(s) && s.start > total {
        None
    } else {
        let start: int = match spec {
            Some(s) => s.start as int,
            None => 1,
        };
        let intent_end: int = match spec {
            Some(s) => {
                let e: int = match s.end {
                    Some(x) => x as int,
                    None => s.start as int,
                };
                let e2 = if e < s.start { s.start as int } else { e };
                if e2 < total { e2 } else { total }
            },
            None => total,
        };
        let req = if intent_end < start + MAX_EMBED_LINES - 1 { intent_end } else { start + MAX_EMBED_LINES - 1 };
        let end = fit_end(ls, start, start, req, 0);
        let label = embed_label(start as nat, end as nat, intent_end as nat, total as nat, spec is Some);
        let shown = end - start + 1;
        let fold = shown > COLLAPSE_LINES;
        let path = if rel.len() >= 2 && rel[0] == '.' && rel[1] == '/' { rel.drop_first().drop_first() } else { rel };
        Some(embed_page(fold, attrs, path, label, hljs_lang_spec(file.path), join_lines(ls.subrange(start - 1, end)), uid,
            shown as nat))
    }
}

/// The markup of an embed (see [`embed_html_spec`]).
pub open spec fn embed_page(fold: bool, attrs: Seq<char>, path: Seq<char>, label: Seq<char>, lang: Seq<char>, code: Seq<char>, uid: nat, shown: nat) -> Seq<char> {
    "<div class=\"code-wrapper has-filename code-embed"@ + (if fold { " is-foldable"@ } else { seq![] }) + "\""@
        + attrs + "><div class=\"code-filename\"><span class=\"code-embed-path\">"@ + html_escape_spec(path)
        + "</span><span class=\"code-embed-lines\">"@ + html_escape_spec(label) + "</span></div>"@
        + (if fold {
            "<input class=\"code-embed-fold\" type=\"checkbox\" id=\"code-embed-"@ + dec(uid) + "\">"@
        } else {
            seq![]
        }) + "<pre><code class=\"language-"@ + lang + "\">"@ + html_escape_spec(code) + "</code></pre>"@
        + (if fold {
            "<label class=\"code-embed-expand\" for=\"code-embed-"@ + dec(uid)
                + "\"><span class=\"on-collapsed\">すべて表示（"@ + dec(shown)
                + " 行）</span><span class=\"on-expanded\">折りたたむ</span></label>"@
        } else {
            seq![]
        }) + "</div>"@
}

/// The embed for a link to `dest` (see [`embed_html_spec`]): none when the destination is
/// not a local path with an optional line range, when it is a page the viewer renders and
/// no range was given, or when the application could not read the file.
pub open spec fn render_embed_spec(dest: Seq<char>, attrs: Seq<char>, uid: nat, files: Seq<EmbedFileView>) -> Option<Seq<char>> {
    match dest_spec(dest) {
        None => None,
        Some((rel, spec)) => if spec is None && is_navigable_spec(rel) {
            None
        } else {
            match lookup_file(files, rel) {
                None => None,
                Some(f) => embed_html_spec(rel, spec, f, attrs, uid),
            }
        },
    }
}

/// Whether a paragraph's events are one link and nothing else.
pub open spec fn single_link(buf: Seq<LView>) -> bool {
    &&& buf.len() >= 2
    &&& buf[0].ev is StartLink
    &&& buf.last().ev is EndLink
    &&& forall|k: int| 1 <= k < buf.len() - 1 ==> !((#[trigger] buf[k]).ev is EndLink)
}

/// The embed that replaces a paragraph with the events `buf`, if it is a single link that
/// can be embedded.
pub open spec fn embed_spec(buf: Seq<LView>, attrs: Seq<char>, uid: nat, files: Seq<EmbedFileView>) -> Option<Seq<char>> {
    if single_link(buf) {
        render_embed_spec(buf[0].ev->StartLink_0, attrs, uid, files)
    } else {
        None
    }
}

fn find_file<'a>(files: &'a Vec<EmbedFile>, rel: &str) -> (r: Option<&'a EmbedFile>)
    ensures
        match lookup_file(files_view(files@), rel@) {
            Some(f) => r matches Some(x) && x@ == f,
            None => r is None,
        },
{
    let mut i: usize = 0;
    let rv = chars_of(rel);
    assert(files_view(files@).subrange(0, files@.len() as int) =~= files_view(files@));
    while i < files.len()
        invariant
            i <= files@.len(),
            rv@ == rel@,
            lookup_file(files_view(files@).subrange(i as int, files@.len() as int), rel@) == lookup_file(files_view(files@), rel@),
        decreases files@.len() - i,
    {
        let ghost rest = files_view(files@).subrange(i as int, files@.len() as int);
        assert(rest.drop_first() =~= files_view(files@).subrange(i + 1, files@.len() as int));
        assert(rest[0] == files@[i as int]@);
        if crate::text::chars_eq_str(rv.as_slice(), files[i].rel.as_str()) {
            return Some(&files[i]);
        }
        i = i + 1;
    }
    None
}

fn push_label(out: &mut String, start: usize, end: usize, intent_end: usize, total: usize, ranged: bool)
    ensures
        final(out)@ == old(out)@ + embed_label(start as nat, end as nat, intent_end as nat, total as nat, ranged),
{
    if end < intent_end {
        push_str(out, "L");
        push_usize(out, start);
        push_str(out, "-L");
        push_usize(out, end);
        push_str(out, " / 全 ");
        push_usize(out, total);
        push_str(out, " 行");
    } else if !ranged {
        push_str(out, "全 ");
        push_usize(out, total);
        push_str(out, " 行");
    } else if start == end {
        push_str(out, "L");
        push_usize(out, start);
    } else {
        push_str(out, "L");
        push_usize(out, start);
        push_str(out, "-L");
        push_usize(out, end);
    }
}

/// Lines `from..to` of `ls` joined with `\n`.
fn joined(ls: &Vec<Vec<char>>, from: usize, to: usize) -> (r: Vec<char>)
    requires
        from <= to <= ls@.len(),
    ensures
        r@ == join_lines(ls@.subrange(from as int, to as int).map_values(|l: Vec<char>| l@)),
{
    let mut r: Vec<char> = Vec::new();
    let mut k = from;
    assert(ls@.subrange(from as int, from as int).map_values(|l: Vec<char>| l@) =~= Seq::<Seq<char>>::empty());
    while k < to
        invariant
            from <= k <= to,
            to <= ls@.len(),
            r@ == join_lines(ls@.subrange(from as int, k as int).map_values(|l: Vec<char>| l@)),
        decreases to - k,
    {
        let ghost prev = ls@.subrange(from as int, k as int).map_values(|l: Vec<char>| l@);
        let ghost next = ls@.subrange(from as int, k + 1).map_values(|l: Vec<char>| l@);
        assert(next.drop_last() =~= prev);
        assert(next.last() == ls@[k as int]@);
        if k > from {
            r.push('\n');
        }
        let line = &ls[k];
        let mut q: usize = 0;
        let ghost r0 = r@;
        while q < line.len()
            invariant
                q <= line@.len(),
                r@ == r0 + line@.take(q as int),
            decreases line@.len() - q,
        {
            r.push(line[q]);
            assert(line@.take(q + 1) =~= line@.take(q as int).push(line@[q as int]));
            q = q + 1;
        }
        assert(line@.take(q as int) =~= line@);
        proof {
            reveal_strlit("\n");
            if k > from {
                assert(r@ =~= join_lines(prev) + "\n"@ + next.last());
            } else {
                assert(prev.len() == 0);
                assert(r@ =~= next[0]);
            }
        }
        k = k + 1;
    }
    r
}


/// The first shown line, the last line the range asks for, and the last shown line (see
/// [`embed_html_spec`]), for a file with the lines `ls`.
pub open spec fn embed_range(ls: Seq<Seq<char>>, spec: Option<LineSpec>) -> (int, int, int) {
    let total = ls.len() as int;
    let start: int = match spec {
        Some(s) => s.start as int,
        None => 1,
    };
    let intent_end: int = match spec {
        Some(s) => {
            let e: int = match s.end {
                Some(x) => x as int,
                None => s.start as int,
            };
            let e2 = if e < s.start { s.start as int } else { e };
            if e2 < total { e2 } else { total }
        },
        None => total,
    };
    let req = if intent_end < start + MAX_EMBED_LINES - 1 { intent_end } else { start + MAX_EMBED_LINES - 1 };
    (start, intent_end, fit_end(ls, start, start, req, 0))
}

fn lines_to_show(ls: &Vec<Vec<char>>, spec: Option<LineSpec>) -> (r: (usize, usize, usize))
    requires
        ls@.len() > 0,
        spec matches Some(s) ==> 1 <= s.start <= ls@.len(),
    ensures
        r.0 as int == embed_range(ls@.map_values(|l: Vec<char>| l@), spec).0,
        r.1 as int == embed_range(ls@.map_values(|l: Vec<char>| l@), spec).1,
        r.2 as int == embed_range(ls@.map_values(|l: Vec<char>| l@), spec).2,
        1 <= r.0 <= r.2 <= ls@.len(),
{
    let ghost lsv = ls@.map_values(|l: Vec<char>| l@);
    let total = ls.len();
    let (start, intent_end) = match spec {
        Some(sp) => {
            let e = match sp.end {
                Some(x) => x,
                None => sp.start,
            };
            let e2 = if e < sp.start { sp.start } else { e };
            (sp.start, if e2 < total { e2 } else { total })
        },
        None => (1, total),
    };
    let cap = if start <= usize::MAX - 999 { start + 999 } else { usize::MAX };
    let req = if intent_end < cap { intent_end } else { cap };
    let mut bytes: u128 = 0;
    let mut i = start;
    let end;
    loop
        invariant_except_break
            bytes <= 0x1_0000_0000_0000_0000 + 262144,
            i == start ==> bytes == 0,
            fit_end(lsv, start as int, i as int, req as int, bytes as int) == fit_end(lsv, start as int, start as int, req as int, 0),
        invariant
            1 <= start <= i <= req,
            req <= total,
            total == ls@.len(),
            lsv == ls@.map_values(|l: Vec<char>| l@),
        ensures
            end as int == fit_end(lsv, start as int, start as int, req as int, 0),
            start <= end <= req,
        decreases req - i,
    {
        let line = string_of(ls[i - 1].as_slice());
        assert(line@ == lsv[i - 1]);
        let ll = line.as_str().as_bytes().len();
        let b2 = bytes + ll as u128 + 1;
        assert(b2 as int == bytes as int + encode_utf8(lsv[i - 1]).len() + 1);
        if b2 > 262144 && i > start {
            end = i - 1;
            break;
        }
        bytes = b2;
        if i == req {
            assert(fit_end(lsv, start as int, i + 1, req as int, bytes as int) == i);
            end = i;
            break;
        }
        i = i + 1;
    }
    (start, intent_end, end)
}

/// Renders [`embed_html_spec`].
#[verifier::rlimit(40)]
fn embed_html(rel: &str, spec: Option<LineSpec>, file: &EmbedFile, attrs: &str, uid: usize) -> (r: Option<String>)
    requires
        spec matches Some(s) ==> s.start >= 1,
    ensures
        match embed_html_spec(rel@, spec, file@, attrs@, uid as nat) {
            Some(h) => r matches Some(x) && x@ == h,
            None => r is None,
        },
{
    let tv = chars_of(file.text.as_str());
    let ls = split_lines(tv.as_slice());
    let ghost lsv = lines_spec(file.text@);
    assert(ls@.map_values(|l: Vec<char>| l@) =~= lsv);
    let total = ls.len();
    if total == 0 {
        return None;
    }
    match spec {
        Some(sp) => if sp.start > total {
            return None;
        },
        None => {},
    }
    let (start, intent_end, end) = lines_to_show(&ls, spec);
    let shown = end - start + 1;
    let fold = shown > 100;
    let rv = chars_of(rel);
    let path = if rv.len() >= 2 && rv[0] == '.' && rv[1] == '/' { slice_to_vec(rv.as_slice(), 2, rv.len()) } else { rv };
    proof {
        if rel@.len() >= 2 && rel@[0] == '.' && rel@[1] == '/' {
            assert(path@ =~= rel@.drop_first().drop_first());
        }
    }
    let mut label = String::new();
    push_label(&mut label, start, end, intent_end, total, spec.is_some());
    let lv = chars_of(label.as_str());
    let code = joined(&ls, start - 1, end);
    assert(ls@.subrange(start - 1, end as int).map_values(|l: Vec<char>| l@) =~= lsv.subrange(start - 1, end as int));
    let h = push_embed_page(fold, attrs, path.as_slice(), lv.as_slice(), extension_to_hljs_lang(file.path.as_str()), code.as_slice(), uid, shown);
    Some(h)
}

fn push_embed_page(fold: bool, attrs: &str, path: &[char], label: &[char], lang: &str, code: &[char], uid: usize, shown: usize) -> (h: String)
    ensures
        h@ == embed_page(fold, attrs@, path@, label@, lang@, code@, uid as nat, shown as nat),
{
    let mut h = String::new();
    push_str(&mut h, "<div class=\"code-wrapper has-filename code-embed");
    if fold {
        push_str(&mut h, " is-foldable");
    }
    push_str(&mut h, "\"");
    push_str(&mut h, attrs);
    push_str(&mut h, "><div class=\"code-filename\"><span class=\"code-embed-path\">");
    push_html_escaped(&mut h, path);
    push_str(&mut h, "</span><span class=\"code-embed-lines\">");
    push_html_escaped(&mut h, label);
    push_str(&mut h, "</span></div>");
    if fold {
        push_str(&mut h, "<input class=\"code-embed-fold\" type=\"checkbox\" id=\"code-embed-");
        push_usize(&mut h, uid);
        push_str(&mut h, "\">");
    }
    push_str(&mut h, "<pre><code class=\"language-");
    push_str(&mut h, lang);
    push_str(&mut h, "\">");
    push_html_escaped(&mut h, code);
    push_str(&mut h, "</code></pre>");
    if fold {
        push_str(&mut h, "<label class=\"code-embed-expand\" for=\"code-embed-");
        push_usize(&mut h, uid);
        push_str(&mut h, "\"><span class=\"on-collapsed\">すべて表示（");
        push_usize(&mut h, shown);
        push_str(&mut h, " 行）</span><span class=\"on-expanded\">折りたたむ</span></label>");
    }
    push_str(&mut h, "</div>");
    assert(h@ =~= embed_page(fold, attrs@, path@, label@, lang@, code@, uid as nat, shown as nat));
    h
}

/// Renders [`render_embed_spec`].
pub fn render_embed(dest: &str, attrs: &str, uid: usize, files: &Vec<EmbedFile>) -> (r: Option<String>)
    ensures
        match render_embed_spec(dest@, attrs@, uid as nat, files_view(files@)) {
            Some(h) => r matches Some(x) && x@ == h,
            None => r is None,
        },
{
    let (rel, spec) = match parse_dest(dest) {
        None => return None,
        Some(x) => x,
    };
    if spec.is_none() && is_navigable_page(rel.as_str()) {
        return None;
    }
    match find_file(files, rel.as_str()) {
        None => None,
        Some(f) => embed_html(rel.as_str(), spec, f, attrs, uid),
    }
}

/// Renders [`embed_spec`] for the events of a paragraph.
pub fn try_embed(buf: &[LEvent], attrs: &str, uid: usize, files: &Vec<EmbedFile>) -> (r: Option<String>)
    ensures
        match embed_spec(buf@.map_values(|e: LEvent| e@), attrs@, uid as nat, files_view(files@)) {
            Some(h) => r matches Some(x) && x@ == h,
            None => r is None,
        },
{
    let ghost bv = buf@.map_values(|e: LEvent| e@);
    if buf.len() < 2 {
        return None;
    }
    let dest = match &buf[0].ev {
        crate::markdown::MdEvent::StartLink(d) => d,
        _ => return None,
    };
    match &buf[buf.len() - 1].ev {
        crate::markdown::MdEvent::EndLink => {},
        _ => return None,
    }
    let mut k: usize = 1;
    while k < buf.len() - 1
        invariant
            1 <= k <= buf@.len() - 1,
            bv == buf@.map_values(|e: LEvent| e@),
            forall|q: int| 1 <= q < k ==> !((#[trigger] bv[q]).ev is EndLink),
        decreases buf@.len() - 1 - k,
    {
        match &buf[k].ev {
            crate::markdown::MdEvent::EndLink => {
                assert(bv[k as int].ev is EndLink);
                return None;
            },
            _ => {},
        }
        k = k + 1;
    }
    assert(single_link(bv));
    render_embed(dest.as_str(), attrs, uid, files)
}

} // verus!
