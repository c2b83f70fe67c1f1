//! Whole pages: front matter, the `<head>` with the stylesheets and scripts, the document
//! page and the folder page. The nonce of the page's own scripts and the stylesheet and
//! script texts are handed in by the application.

use vstd::prelude::*;
use vstd::string::*;
use vstd::utf8::*;
use crate::text::{chars_of, push_str, push_usize, slice_to_vec, string_of, dec, first_index_of};
use crate::html::{html_escape_spec, push_html_escaped, json_string_spec, push_json_string};
use crate::lines::{lines_spec, split_lines};
use crate::markdown::{trim, trim_end, trim_start, is_space, trimmed, occurs_at, newlines, opt_files_view, body_plan, md_html, render_body_in};

verus! {

broadcast use vstd::string::group_string_axioms;

// ── front matter ────────────────────────────────────────────────────────────

/// First index from `i` on where `p` occurs in `t`.
pub open spec fn find_from(t: Seq<char>, p: Seq<char>, i: int) -> Option<int>
    decreases t.len() + 1 - i,
{
    if i < 0 || i > t.len() || i + p.len() > t.len() {
        None
    } else if occurs_at(t, i, p) {
        Some(i)
    } else {
        find_from(t, p, i + 1)
    }
}

/// One front matter line read as `key: value` (both trimmed); none without a colon or with
/// an empty key.
pub open spec fn fm_pair(line: Seq<char>) -> Option<(Seq<char>, Seq<char>)> {
    match first_index_of(line, ':') {
        None => None,
        Some(c) => {
            let key = trim(line.subrange(0, c));
            let val = trim(line.subrange(c + 1, line.len() as int));
            if key.len() == 0 { None } else { Some((key, val)) }
        },
    }
}

/// The pairs of the front matter lines `ls`, in order.
pub open spec fn fm_pairs(ls: Seq<Seq<char>>) -> Seq<(Seq<char>, Seq<char>)>
    decreases ls.len(),
{
    if ls.len() == 0 {
        seq![]
    } else {
        fm_pairs(ls.drop_last()) + match fm_pair(ls.last()) {
            Some(p) => seq![p],
            None => seq![],
        }
    }
}

/// Where the front matter `a` (the text after the opening line) closes: the end of the
/// front matter and the start of the body.
pub open spec fn fm_close(a: Seq<char>) -> Option<(int, int)> {
    match find_from(a, "\n---\r\n"@, 0) {
        Some(i) => Some((i, i + 6)),
        None => match find_from(a, "\n---\n"@, 0) {
            Some(i) => Some((i, i + 5)),
            None => {
                if a.len() >= 4 && occurs_at(a, a.len() - 4, "\n---"@) {
                    Some((a.len() - 4, a.len() as int))
                } else {
                    None
                }
            },
        },
    }
}

/// Length of the opening `---` line, 0 if there is none.
pub open spec fn fm_open_len(s: Seq<char>) -> int {
    if occurs_at(s, 0, "---\r\n"@) {
        5
    } else if occurs_at(s, 0, "---\n"@) {
        4
    } else {
        0
    }
}

/// A document split into its front matter pairs and its body. Front matter opens with a
/// `---` line at the very start and closes with the next `---` line (or a final `---`);
/// without both, the whole text is the body.
pub open spec fn frontmatter_spec(s: Seq<char>) -> (Seq<(Seq<char>, Seq<char>)>, Seq<char>) {
    let open_len = fm_open_len(s);
    if open_len == 0 {
        (seq![], s)
    } else {
        let a = s.subrange(open_len, s.len() as int);
        match fm_close(a) {
            None => (seq![], s),
            Some(c) => (fm_pairs(lines_spec(a.subrange(0, c.0))), a.subrange(c.1, a.len() as int)),
        }
    }
}

fn find_sub(t: &Vec<char>, p: &str) -> (r: Option<usize>)
    ensures
        r matches Some(i) ==> find_from(t@, p@, 0) == Some(i as int) && i + p@.len() <= t@.len(),
        r is None ==> find_from(t@, p@, 0) is None,
{
    let pv = chars_of(p);
    let mut i: usize = 0;
    while i < t.len()
        invariant
            i <= t@.len(),
            pv@ == p@,
            find_from(t@, p@, i as int) == find_from(t@, p@, 0),
        decreases t@.len() - i,
    {
        if pv.len() > t.len() - i {
            return None;
        }
        if crate::markdown::chars_match(t, i, p) {
            return Some(i);
        }
        i = i + 1;
    }
    if pv.len() == 0 {
        assert(occurs_at(t@, i as int, p@)) by {
            assert(t@.subrange(i as int, i as int) =~= p@);
        }
        return Some(i);
    }
    None
}

/// The front matter pairs and the body of `s` (see [`frontmatter_spec`]).
pub fn parse_frontmatter(s: &str) -> (r: (Vec<(String, String)>, String))
    ensures
        r.0@.map_values(|p: (String, String)| (p.0@, p.1@)) == frontmatter_spec(s@).0,
        r.1@ == frontmatter_spec(s@).1,
{
    let v = chars_of(s);
    let ghost sv = v@;
    proof {
        reveal_strlit("---\r\n");
        reveal_strlit("---\n");
        reveal_strlit("\n---\r\n");
        reveal_strlit("\n---\n");
        reveal_strlit("\n---");
    }
    let open_len: usize = if crate::markdown::chars_match(&v, 0, "---\r\n") {
        5
    } else if crate::markdown::chars_match(&v, 0, "---\n") {
        4
    } else {
        0
    };
    if open_len == 0 {
        assert(Seq::<(String, String)>::empty().map_values(|p: (String, String)| (p.0@, p.1@)) =~= Seq::<(Seq<char>, Seq<char>)>::empty());
        return (Vec::new(), string_of(v.as_slice()));
    }
    let a = slice_to_vec(v.as_slice(), open_len, v.len());
    let al = a.len();
    let close: Option<(usize, usize)> = match find_sub(&a, "\n---\r\n") {
        Some(i) => {
            assert("\n---\r\n"@.len() == 6);
            Some((i, i + 6))
        },
        None => match find_sub(&a, "\n---\n") {
            Some(i) => {
                assert("\n---\n"@.len() == 5);
                Some((i, i + 5))
            },
            None => if al >= 4 && crate::markdown::chars_match(&a, al - 4, "\n---") {
                Some((al - 4, al))
            } else {
                None
            },
        },
    };
    let (fm_end, body_start) = match close {
        None => {
            assert(Seq::<(String, String)>::empty().map_values(|p: (String, String)| (p.0@, p.1@)) =~= Seq::<(Seq<char>, Seq<char>)>::empty());
            return (Vec::new(), string_of(v.as_slice()));
        },
        Some(c) => c,
    };
    let fm = slice_to_vec(a.as_slice(), 0, fm_end);
    let body = string_of(slice_to_vec(a.as_slice(), body_start, al).as_slice());
    let ls = split_lines(fm.as_slice());
    let ghost lsv = lines_spec(fm@);
    let mut pairs: Vec<(String, String)> = Vec::new();
    let mut k: usize = 0;
    while k < ls.len()
        invariant
            k <= ls@.len(),
            ls@.len() == lsv.len(),
            forall|q: int| 0 <= q < ls@.len() ==> (#[trigger] ls@[q])@ == lsv[q],
            pairs@.map_values(|p: (String, String)| (p.0@, p.1@)) == fm_pairs(lsv.take(k as int)),
        decreases ls@.len() - k,
    {
        let line = &ls[k];
        assert(lsv.take(k + 1).drop_last() =~= lsv.take(k as int));
        assert(lsv.take(k + 1).last() == line@);
        let ghost before = pairs@;
        match crate::text::find_char(line.as_slice(), ':') {
            None => {},
            Some(c) => {
                let ll = line.len();
                let key = trimmed(vstd::slice::slice_subrange(line.as_slice(), 0, c));
                let val = trimmed(vstd::slice::slice_subrange(line.as_slice(), c + 1, ll));
                if key.len() > 0 {
                    pairs.push((string_of(key.as_slice()), string_of(val.as_slice())));
                    assert(pairs@.map_values(|p: (String, String)| (p.0@, p.1@))
                        =~= before.map_values(|p: (String, String)| (p.0@, p.1@)).push((key@, val@)));
                }
            },
        }
        k = k + 1;
    }
    assert(lsv.take(k as int) =~= lsv);
    (pairs, body)
}

/// How many lines of `src` come before `body`, its tail: the line breaks in the bytes of
/// `src` that `body` does not cover.
pub open spec fn body_offset_spec(src: Seq<char>, body: Seq<char>) -> nat {
    let b = encode_utf8(src);
    let skipped = b.len() - encode_utf8(body).len();
    newlines(b.take(if skipped > 0 { skipped } else { 0 }))
}

/// Renders [`body_offset_spec`].
pub fn body_line_offset(src: &str, body: &str) -> (r: usize)
    ensures
        r == body_offset_spec(src@, body@),
{
    let sb = src.as_bytes();
    let bl = body.as_bytes().len();
    let skipped = if sb.len() > bl { sb.len() - bl } else { 0 };
    let mut n: usize = 0;
    let mut i: usize = 0;
    assert(sb@.take(0) =~= Seq::<u8>::empty());
    while i < skipped
        invariant
            i <= skipped,
            skipped <= sb@.len(),
            n <= i,
            n == newlines(sb@.take(i as int)),
        decreases skipped - i,
    {
        assert(sb@.take(i + 1).drop_last() =~= sb@.take(i as int));
        if sb[i] == 10u8 {
            n = n + 1;
        }
        i = i + 1;
    }
    n
}

/// One row of the front matter table.
pub open spec fn fm_row(k: Seq<char>, v: Seq<char>) -> Seq<char> {
    "<div class=\"fm-row\"><span class=\"fm-key\">"@ + html_escape_spec(k) + "</span><span class=\"fm-val\">"@
        + html_escape_spec(v) + "</span></div>"@
}

/// The rows for `pairs`.
pub open spec fn fm_rows(pairs: Seq<(Seq<char>, Seq<char>)>) -> Seq<char>
    decreases pairs.len(),
{
    if pairs.len() == 0 {
        seq![]
    } else {
        fm_rows(pairs.drop_last()) + fm_row(pairs.last().0, pairs.last().1)
    }
}

/// The front matter block: nothing without pairs; else the rows in
/// `<div class="frontmatter">`, tied to lines `1..=lines` of the file (no attribute for 0
/// lines, no end line for 1).
pub open spec fn frontmatter_html_spec(pairs: Seq<(Seq<char>, Seq<char>)>, lines: nat) -> Seq<char> {
    if pairs.len() == 0 {
        seq![]
    } else {
        let attrs = if lines == 0 {
            seq![]
        } else if lines == 1 {
            " data-src-line=\"1\""@
        } else {
            " data-src-line=\"1\" data-src-end-line=\""@ + dec(lines) + "\""@
        };
        "<div class=\"frontmatter\""@ + attrs + ">"@ + fm_rows(pairs) + "</div>"@
    }
}

/// Renders [`frontmatter_html_spec`].
pub fn render_frontmatter_html(pairs: &[(String, String)], lines: usize) -> (r: String)
    ensures
        r@ == frontmatter_html_spec(pairs@.map_values(|p: (String, String)| (p.0@, p.1@)), lines as nat),
{
    let ghost pv = pairs@.map_values(|p: (String, String)| (p.0@, p.1@));
    if pairs.len() == 0 {
        return String::new();
    }
    let mut rows = String::new();
    let mut k: usize = 0;
    assert(pv.take(0) =~= Seq::<(Seq<char>, Seq<char>)>::empty());
    while k < pairs.len()
        invariant
            k <= pairs@.len(),
            pv == pairs@.map_values(|p: (String, String)| (p.0@, p.1@)),
            rows@ == fm_rows(pv.take(k as int)),
        decreases pairs@.len() - k,
    {
        let (key, val) = &pairs[k];
        assert(pv.take(k + 1).drop_last() =~= pv.take(k as int));
        assert(pv.take(k + 1).last() == (key@, val@));
        push_str(&mut rows, "<div class=\"fm-row\"><span class=\"fm-key\">");
        push_html_escaped(&mut rows, chars_of(key.as_str()).as_slice());
        push_str(&mut rows, "</span><span class=\"fm-val\">");
        push_html_escaped(&mut rows, chars_of(val.as_str()).as_slice());
        push_str(&mut rows, "</span></div>");
        k = k + 1;
    }
    assert(pv.take(k as int) =~= pv);
    let mut r = String::new();
    push_str(&mut r, "<div class=\"frontmatter\"");
    if lines == 1 {
        push_str(&mut r, " data-src-line=\"1\"");
    } else if lines > 1 {
        push_str(&mut r, " data-src-line=\"1\" data-src-end-line=\"");
        push_usize(&mut r, lines);
        push_str(&mut r, "\"");
    }
    push_str(&mut r, ">");
    push_str(&mut r, rows.as_str());
    push_str(&mut r, "</div>");
    r
}


// ── pages ───────────────────────────────────────────────────────────────────

/// The page scripts in load order: the key map first (every other module registers its
/// shortcuts with it when it is evaluated), then the shared helpers and the overlay
/// registry, then the rest, which do not depend on one another. The diagram libraries are
/// not among them: pages fetch those from `/__lib/` when a diagram asks for them.
pub open spec fn page_script_names_spec() -> Seq<Seq<char>> {
    seq![
        "keymap.js"@, "common.js"@, "highlight.min.js"@, "search.js"@, "palette.js"@, "toc.js"@,
        "contextmenu.js"@, "viewmode.js"@, "help.js"@, "keyscroll.js"@, "comment.js"@,
    ]
}

/// The names of (name, text) pairs.
pub open spec fn script_names(scripts: Seq<(String, String)>) -> Seq<Seq<char>> {
    scripts.map_values(|p: (String, String)| p.0@)
}

/// The page scripts in load order (see [`page_script_names_spec`]).
pub fn page_script_names() -> (r: Vec<&'static str>)
    ensures
        r@.map_values(|s: &'static str| s@) == page_script_names_spec(),
{
    let mut v: Vec<&'static str> = Vec::new();
    v.push("keymap.js");
    v.push("common.js");
    v.push("highlight.min.js");
    v.push("search.js");
    v.push("palette.js");
    v.push("toc.js");
    v.push("contextmenu.js");
    v.push("viewmode.js");
    v.push("help.js");
    v.push("keyscroll.js");
    v.push("comment.js");
    proof {
        reveal_strlit("keymap.js");
        reveal_strlit("common.js");
        reveal_strlit("highlight.min.js");
        reveal_strlit("search.js");
        reveal_strlit("palette.js");
        reveal_strlit("toc.js");
        reveal_strlit("contextmenu.js");
        reveal_strlit("viewmode.js");
        reveal_strlit("help.js");
        reveal_strlit("keyscroll.js");
        reveal_strlit("comment.js");
    }
    assert(v@.map_values(|s: &'static str| s@) =~= page_script_names_spec());
    v
}

/// Neither diagram library is a page script, so no page inlines one.
pub proof fn diagram_libraries_are_not_page_scripts()
    ensures
        !page_script_names_spec().contains("mermaid.min.js"@),
        !page_script_names_spec().contains("drawio-viewer.min.js"@),
{
    reveal_strlit("keymap.js");
    reveal_strlit("common.js");
    reveal_strlit("highlight.min.js");
    reveal_strlit("search.js");
    reveal_strlit("palette.js");
    reveal_strlit("toc.js");
    reveal_strlit("contextmenu.js");
    reveal_strlit("viewmode.js");
    reveal_strlit("help.js");
    reveal_strlit("keyscroll.js");
    reveal_strlit("comment.js");
    reveal_strlit("mermaid.min.js");
    reveal_strlit("drawio-viewer.min.js");
    let names = page_script_names_spec();
    assert forall|k: int| 0 <= k < names.len() implies names[k].len() > 0 && names[k][0] != 'm' && names[k][0] != 'd' by {
        assert(names[k].len() > 0);
    }
}

/// The stylesheet and the scripts every page inlines: the base stylesheet, and the page
/// scripts as (file name, text), always those of [`page_script_names_spec`] in that order.
pub struct PageAssets {
    pub(crate) base_css: String,
    pub(crate) scripts: Vec<(String, String)>,
}

impl PageAssets {
    #[verifier::type_invariant]
    spec fn scripts_in_load_order(self) -> bool {
        script_names(self.scripts@) == page_script_names_spec()
    }

    /// The base stylesheet.
    pub closed spec fn base_css_view(&self) -> Seq<char> {
        self.base_css@
    }

    /// The page scripts as (name, text), in load order.
    pub closed spec fn scripts_view(&self) -> Seq<(Seq<char>, Seq<char>)> {
        scripts_view(self.scripts@)
    }

    /// The assets for the base stylesheet and the texts of the page scripts, one for each
    /// name of [`page_script_names_spec`] in that order; None when the count differs.
    pub fn new(base_css: String, texts: Vec<String>) -> (r: Option<PageAssets>)
        ensures
            r is Some <==> texts@.len() == page_script_names_spec().len(),
            r matches Some(a) ==> a.base_css_view() == base_css@ && a.scripts_view().len() == texts@.len()
                && forall|k: int| 0 <= k < texts@.len() ==> #[trigger] a.scripts_view()[k] == (page_script_names_spec()[k], texts@[k]@),
    {
        let names = page_script_names();
        if texts.len() != names.len() {
            return None;
        }
        let ghost spec_names = page_script_names_spec();
        let mut scripts: Vec<(String, String)> = Vec::new();
        let mut k: usize = 0;
        while k < texts.len()
            invariant
                names@.len() == texts@.len(),
                names@.map_values(|s: &'static str| s@) == spec_names,
                spec_names == page_script_names_spec(),
                k <= texts@.len(),
                scripts@.len() == k,
                forall|j: int| 0 <= j < k ==> #[trigger] scripts@[j].0@ == spec_names[j] && scripts@[j].1@ == texts@[j]@,
            decreases texts@.len() - k,
        {
            assert(names@.map_values(|s: &'static str| s@)[k as int] == names@[k as int]@);
            let name = string_of(chars_of(names[k]).as_slice());
            let text = texts[k].clone();
            scripts.push((name, text));
            k = k + 1;
        }
        assert(script_names(scripts@) =~= page_script_names_spec());
        Some(PageAssets { base_css, scripts })
    }
}


/// The script elements for `scripts`, each with the nonce.
pub open spec fn scripts_html(scripts: Seq<(Seq<char>, Seq<char>)>, nonce: Seq<char>) -> Seq<char>
    decreases scripts.len(),
{
    if scripts.len() == 0 {
        seq![]
    } else {
        scripts_html(scripts.drop_last(), nonce) + "<script nonce=\""@ + nonce + "\">"@ + scripts.last().1 + "</script>\n"@
    }
}

/// The content security policy line: scripts only from the viewer itself or carrying the
/// nonce, so scripts written in a document never run.
pub open spec fn csp_meta(nonce: Seq<char>) -> Seq<char> {
    "<meta http-equiv=\"Content-Security-Policy\" content=\"default-src 'none'; script-src 'self' 'unsafe-eval' 'nonce-"@
        + nonce
        + "'; style-src 'self' 'unsafe-inline'; img-src 'self' data: https: http:; font-src 'self' data:; connect-src 'self'; media-src 'self' data:; frame-src 'self'; worker-src 'self' blob:\">"@
}

/// The content of `<head>`: charset, policy, the escaped title, the base, theme and custom
/// stylesheets, the scripts, then `extra_head`.
pub open spec fn head_spec(title: Seq<char>, theme_css: Seq<char>, custom_css: Seq<char>, extra_head: Seq<char>, nonce: Seq<char>, base_css: Seq<char>, scripts: Seq<(Seq<char>, Seq<char>)>) -> Seq<char> {
    "<meta charset=\"utf-8\">\n"@ + csp_meta(nonce) + "\n<title>"@ + html_escape_spec(title) + "</title>\n<style>"@ + base_css
        + "</style>\n<style>"@ + theme_css + "</style>\n<style>"@ + custom_css + "</style>\n"@ + scripts_html(scripts, nonce)
        + extra_head
}

/// The view of the page assets' scripts.
pub open spec fn scripts_view(v: Seq<(String, String)>) -> Seq<(Seq<char>, Seq<char>)> {
    v.map_values(|p: (String, String)| (p.0@, p.1@))
}

fn head(title: &str, theme_css: &str, custom_css: &str, extra_head: &str, nonce: &str, assets: &PageAssets) -> (r: String)
    ensures
        r@ == head_spec(title@, theme_css@, custom_css@, extra_head@, nonce@, assets.base_css_view(), assets.scripts_view()),
        assets.scripts_view().map_values(|p: (Seq<char>, Seq<char>)| p.0) == page_script_names_spec(),
{
    proof {
        use_type_invariant(assets);
        assert(assets.scripts_view().map_values(|p: (Seq<char>, Seq<char>)| p.0) =~= script_names(assets.scripts@));
    }
    let ghost sv = assets.scripts_view();
    let mut scripts = String::new();
    let mut k: usize = 0;
    assert(sv.take(0) =~= Seq::<(Seq<char>, Seq<char>)>::empty());
    while k < assets.scripts.len()
        invariant
            k <= sv.len(),
            sv == assets.scripts_view(),
            scripts@ == scripts_html(sv.take(k as int), nonce@),
        decreases sv.len() - k,
    {
        assert(sv.take(k + 1).drop_last() =~= sv.take(k as int));
        assert(sv.take(k + 1).last() == (assets.scripts@[k as int].0@, assets.scripts@[k as int].1@));
        push_str(&mut scripts, "<script nonce=\"");
        push_str(&mut scripts, nonce);
        push_str(&mut scripts, "\">");
        push_str(&mut scripts, assets.scripts[k].1.as_str());
        push_str(&mut scripts, "</script>\n");
        k = k + 1;
    }
    assert(sv.take(k as int) =~= sv);
    let mut r = String::new();
    push_str(&mut r, "<meta charset=\"utf-8\">\n<meta http-equiv=\"Content-Security-Policy\" content=\"default-src 'none'; script-src 'self' 'unsafe-eval' 'nonce-");
    push_str(&mut r, nonce);
    push_str(&mut r, "'; style-src 'self' 'unsafe-inline'; img-src 'self' data: https: http:; font-src 'self' data:; connect-src 'self'; media-src 'self' data:; frame-src 'self'; worker-src 'self' blob:\">\n<title>");
    push_html_escaped(&mut r, chars_of(title).as_slice());
    push_str(&mut r, "</title>\n<style>");
    push_str(&mut r, assets.base_css.as_str());
    push_str(&mut r, "</style>\n<style>");
    push_str(&mut r, theme_css);
    push_str(&mut r, "</style>\n<style>");
    push_str(&mut r, custom_css);
    push_str(&mut r, "</style>\n");
    push_str(&mut r, scripts.as_str());
    push_str(&mut r, extra_head);
    proof {
        reveal_strlit("<meta charset=\"utf-8\">\n<meta http-equiv=\"Content-Security-Policy\" content=\"default-src 'none'; script-src 'self' 'unsafe-eval' 'nonce-");
        reveal_strlit("<meta charset=\"utf-8\">\n");
        reveal_strlit("<meta http-equiv=\"Content-Security-Policy\" content=\"default-src 'none'; script-src 'self' 'unsafe-eval' 'nonce-");
        reveal_strlit("'; style-src 'self' 'unsafe-inline'; img-src 'self' data: https: http:; font-src 'self' data:; connect-src 'self'; media-src 'self' data:; frame-src 'self'; worker-src 'self' blob:\">\n<title>");
        reveal_strlit("'; style-src 'self' 'unsafe-inline'; img-src 'self' data: https: http:; font-src 'self' data:; connect-src 'self'; media-src 'self' data:; frame-src 'self'; worker-src 'self' blob:\">");
        reveal_strlit("\n<title>");
    }
    assert(r@ =~= head_spec(title@, theme_css@, custom_css@, extra_head@, nonce@, assets.base_css_view(), sv));
    r
}

/// A document page: the head, then `body` in `<article class="markdown-body ...">`
/// (`body_class` added when not empty).
pub open spec fn page_spec(body: Seq<char>, title: Seq<char>, theme_css: Seq<char>, custom_css: Seq<char>, body_class: Seq<char>, nonce: Seq<char>, base_css: Seq<char>, scripts: Seq<(Seq<char>, Seq<char>)>) -> Seq<char> {
    let class_attr = if body_class.len() == 0 { "markdown-body"@ } else { "markdown-body "@ + body_class };
    "<!DOCTYPE html>\n<html>\n<head>\n"@ + head_spec(title, theme_css, custom_css, ""@, nonce, base_css, scripts)
        + "\n</head>\n<body>\n<article class=\""@ + class_attr + "\">\n"@ + body + "\n</article>\n</body>\n</html>"@
}

/// Renders [`page_spec`].
pub fn build_html(body: &str, title: &str, theme_css: &str, custom_css: &str, body_class: &str, nonce: &str, assets: &PageAssets) -> (r: String)
    ensures
        r@ == page_spec(body@, title@, theme_css@, custom_css@, body_class@, nonce@, assets.base_css_view(), assets.scripts_view()),
        assets.scripts_view().map_values(|p: (Seq<char>, Seq<char>)| p.0) == page_script_names_spec(),
{
    let h = head(title, theme_css, custom_css, "", nonce, assets);
    let mut r = String::new();
    push_str(&mut r, "<!DOCTYPE html>\n<html>\n<head>\n");
    push_str(&mut r, h.as_str());
    push_str(&mut r, "\n</head>\n<body>\n<article class=\"markdown-body");
    if !body_class.is_empty() {
        push_str(&mut r, " ");
        push_str(&mut r, body_class);
    }
    push_str(&mut r, "\">\n");
    push_str(&mut r, body);
    push_str(&mut r, "\n</article>\n</body>\n</html>");
    proof {
        reveal_strlit("\n</head>\n<body>\n<article class=\"markdown-body");
        reveal_strlit("\n</head>\n<body>\n<article class=\"");
        reveal_strlit("markdown-body");
        reveal_strlit("markdown-body ");
        reveal_strlit(" ");
        reveal_strlit("\">\n");
    }
    assert(r@ =~= page_spec(body@, title@, theme_css@, custom_css@, body_class@, nonce@, assets.base_css_view(), assets.scripts_view()));
    r
}

/// The folder page's frame: the head with `extra` after the scripts, then the sidebar and
/// preview layout.
pub open spec fn folder_shell_spec(title: Seq<char>, theme_css: Seq<char>, custom_css: Seq<char>, extra: Seq<char>, nonce: Seq<char>, base_css: Seq<char>, scripts: Seq<(Seq<char>, Seq<char>)>) -> Seq<char> {
    "<!DOCTYPE html>\n<html>\n<head>\n"@ + head_spec(title, theme_css, custom_css, extra, nonce, base_css, scripts)
        + "\n</head>\n<body class=\"folder-mode\">\n<div class=\"folder-layout\">\n  <div id=\"sidebar\" tabindex=\"-1\"></div>\n  <div id=\"resizer\"></div>\n  <div id=\"preview-pane\" tabindex=\"-1\"><div class=\"markdown-body\"></div></div>\n</div>\n</body>\n</html>"@
}

/// Renders [`folder_shell_spec`].
pub(crate) fn folder_shell(title: &str, theme_css: &str, custom_css: &str, extra: &str, nonce: &str, assets: &PageAssets) -> (r: String)
    ensures
        r@ == folder_shell_spec(title@, theme_css@, custom_css@, extra@, nonce@, assets.base_css_view(), assets.scripts_view()),
        assets.scripts_view().map_values(|p: (Seq<char>, Seq<char>)| p.0) == page_script_names_spec(),
{
    let h = head(title, theme_css, custom_css, extra, nonce, assets);
    let mut r = String::new();
    push_str(&mut r, "<!DOCTYPE html>\n<html>\n<head>\n");
    push_str(&mut r, h.as_str());
    push_str(&mut r, "\n</head>\n<body class=\"folder-mode\">\n<div class=\"folder-layout\">\n  <div id=\"sidebar\" tabindex=\"-1\"></div>\n  <div id=\"resizer\"></div>\n  <div id=\"preview-pane\" tabindex=\"-1\"><div class=\"markdown-body\"></div></div>\n</div>\n</body>\n</html>");
    r
}

/// JSON string literals joined with `,`.
pub open spec fn json_list(items: Seq<Seq<char>>) -> Seq<char>
    decreases items.len(),
{
    if items.len() == 0 {
        seq![]
    } else if items.len() == 1 {
        json_string_spec(items[0])
    } else {
        json_list(items.drop_last()) + ","@ + json_string_spec(items.last())
    }
}

pub(crate) fn push_json_list(s: &mut String, items: &[String])
    ensures
        final(s)@ == old(s)@ + json_list(items@.map_values(|x: String| x@)),
{
    let ghost v = items@.map_values(|x: String| x@);
    let ghost s0 = s@;
    let mut k: usize = 0;
    assert(v.take(0) =~= Seq::<Seq<char>>::empty());
    while k < items.len()
        invariant
            k <= items@.len(),
            v == items@.map_values(|x: String| x@),
            s@ == s0 + json_list(v.take(k as int)),
        decreases items@.len() - k,
    {
        let ghost s1 = s@;
        if k > 0 {
            push_str(s, ",");
        }
        push_json_string(s, chars_of(items[k].as_str()).as_slice());
        proof {
            assert(v.take(k + 1).drop_last() =~= v.take(k as int));
            assert(v.take(k + 1).last() == items@[k as int]@);
            if k == 0 {
                assert(s@ =~= s0 + json_list(v.take(k + 1)));
            } else {
                assert(s@ =~= s0 + json_list(v.take(k + 1)));
            }
        }
        k = k + 1;
    }
    assert(v.take(k as int) =~= v);
}

/// The script that opens the tab identifiers `ids` in a page already shown; empty for none.
pub open spec fn open_files_script_spec(ids: Seq<Seq<char>>) -> Seq<char> {
    if ids.len() == 0 {
        seq![]
    } else {
        "window.MdOpenFiles && window.MdOpenFiles(["@ + json_list(ids) + "]);"@
    }
}

/// Renders [`open_files_script_spec`].
pub fn open_files_script(ids: &[String]) -> (r: String)
    ensures
        r@ == open_files_script_spec(ids@.map_values(|x: String| x@)),
{
    let mut r = String::new();
    if ids.len() == 0 {
        return r;
    }
    push_str(&mut r, "window.MdOpenFiles && window.MdOpenFiles([");
    push_json_list(&mut r, ids);
    push_str(&mut r, "]);");
    r
}

/// The script that opens `files` as tabs at start-up, the first one shown.
pub open spec fn tabs_script(nonce: Seq<char>, files: Seq<Seq<char>>) -> Seq<char> {
    "<script nonce=\""@ + nonce + "\">var INITIAL_FILES = ["@ + json_list(files) + "];</script>"@
}

/// The folder page: the frame with the script that opens `files` as tabs, the first one
/// shown.
pub open spec fn folder_page_spec(title: Seq<char>, theme_css: Seq<char>, custom_css: Seq<char>, files: Seq<Seq<char>>, nonce: Seq<char>, base_css: Seq<char>, scripts: Seq<(Seq<char>, Seq<char>)>) -> Seq<char> {
    folder_shell_spec(title, theme_css, custom_css, tabs_script(nonce, files), nonce, base_css, scripts)
}

/// Renders [`folder_page_spec`] for the tab identifiers `initial_files`.
pub fn build_folder_html(title: &str, theme_css: &str, custom_css: &str, initial_files: &[String], nonce: &str, assets: &PageAssets) -> (r: String)
    ensures
        r@ == folder_page_spec(title@, theme_css@, custom_css@, initial_files@.map_values(|x: String| x@), nonce@,
            assets.base_css_view(), assets.scripts_view()),
        assets.scripts_view().map_values(|p: (Seq<char>, Seq<char>)| p.0) == page_script_names_spec(),
{
    let mut extra = String::new();
    push_str(&mut extra, "<script nonce=\"");
    push_str(&mut extra, nonce);
    push_str(&mut extra, "\">var INITIAL_FILES = [");
    push_json_list(&mut extra, initial_files);
    push_str(&mut extra, "];</script>");
    assert(extra@ =~= tabs_script(nonce@, initial_files@.map_values(|x: String| x@)));
    folder_shell(title, theme_css, custom_css, extra.as_str(), nonce, assets)
}

/// A whole document page for `markdown`: the front matter block, then the body rendered
/// with lines numbered as in the file.
pub open spec fn full_document_spec(markdown: Seq<char>, title: Seq<char>, theme_css: Seq<char>, custom_css: Seq<char>, files: Option<Seq<crate::embed::EmbedFileView>>, nonce: Seq<char>, base_css: Seq<char>, scripts: Seq<(Seq<char>, Seq<char>)>) -> Seq<char> {
    let (pairs, body) = frontmatter_spec(markdown);
    let offset = body_offset_spec(markdown, body);
    page_spec(frontmatter_html_spec(pairs, offset) + md_html(body, body_plan(body, files, offset as int, None)), title, theme_css,
        custom_css, ""@, nonce, base_css, scripts)
}


proof fn lemma_find_from(t: Seq<char>, p: Seq<char>, i: int)
    requires
        0 <= i,
    ensures
        find_from(t, p, i) matches Some(k) ==> i <= k && k + p.len() <= t.len(),
    decreases t.len() + 1 - i,
{
    if !(i > t.len() || i + p.len() > t.len()) && !occurs_at(t, i, p) {
        lemma_find_from(t, p, i + 1);
    }
}

pub proof fn lemma_encode_suffix_len(s: Seq<char>, k: int)
    requires
        0 <= k <= s.len(),
    ensures
        encode_utf8(s.subrange(k, s.len() as int)).len() <= encode_utf8(s).len(),
    decreases k,
{
    if k > 0 {
        lemma_encode_suffix_len(s.drop_first(), k - 1);
        assert(s.drop_first().subrange(k - 1, s.drop_first().len() as int) =~= s.subrange(k, s.len() as int));
    } else {
        assert(s.subrange(k, s.len() as int) =~= s);
    }
}

/// The body of a document is a tail of it.
pub proof fn lemma_body_is_tail(s: Seq<char>)
    ensures
        exists|k: int| 0 <= k <= s.len() && frontmatter_spec(s).1 == #[trigger] s.subrange(k, s.len() as int),
{
    reveal_strlit("---\r\n");
    reveal_strlit("---\n");
    let open_len = fm_open_len(s);
    if open_len == 0 {
        assert(s.subrange(0, s.len() as int) =~= s);
        assert(frontmatter_spec(s).1 == s.subrange(0, s.len() as int));
    } else {
        let a = s.subrange(open_len, s.len() as int);
        match fm_close(a) {
            None => {
                assert(s.subrange(0, s.len() as int) =~= s);
                assert(frontmatter_spec(s).1 == s.subrange(0, s.len() as int));
            },
            Some(c) => {
                reveal_strlit("\n---\r\n");
                reveal_strlit("\n---\n");
                lemma_find_from(a, "\n---\r\n"@, 0);
                lemma_find_from(a, "\n---\n"@, 0);
                let b = a.subrange(c.1, a.len() as int);
                assert(0 <= c.1 <= a.len());
                assert(b =~= s.subrange(open_len + c.1, s.len() as int));
                assert(frontmatter_spec(s).1 == s.subrange(open_len + c.1, s.len() as int));
            },
        }
    }
}


proof fn lemma_trim_end_shape(s: Seq<char>)
    ensures
        trim_end(s).len() == 0 || !is_space(trim_end(s).last()),
    decreases s.len(),
{
    if s.len() > 0 && is_space(s.last()) {
        lemma_trim_end_shape(s.drop_last());
    }
}

proof fn lemma_trim_start_shape(s: Seq<char>)
    ensures
        trim_start(s).len() == 0 || !is_space(trim_start(s)[0]),
    decreases s.len(),
{
    if s.len() > 0 && is_space(s[0]) {
        lemma_trim_start_shape(s.drop_first());
    }
}

proof fn lemma_trim_start_keeps_last(s: Seq<char>)
    requires
        s.len() > 0,
        !is_space(s.last()),
    ensures
        trim_start(s).len() > 0 && trim_start(s).last() == s.last(),
    decreases s.len(),
{
    if is_space(s[0]) {
        assert(s.len() > 1);
        assert(s.drop_first().last() == s.last());
        lemma_trim_start_keeps_last(s.drop_first());
    }
}

/// Trimmed text is trimmed already.
pub proof fn lemma_trim_idempotent(s: Seq<char>)
    ensures
        trim(trim(s)) == trim(s),
{
    let e = trim_end(s);
    let t = trim(s);
    lemma_trim_end_shape(s);
    lemma_trim_start_shape(e);
    if e.len() > 0 {
        lemma_trim_start_keeps_last(e);
    }
    assert(trim_end(t) == t);
    assert(trim_start(t) == t);
}

/// A front matter line is split at its first `:` only: the key is what comes before it and
/// the value all the rest of the line, colons included (a URL, a time of day), each
/// trimmed. A key that is blank gives no pair.
pub proof fn a_front_matter_value_keeps_its_colons(k: Seq<char>, v: Seq<char>)
    requires
        !k.contains(':'),
    ensures
        trim(k).len() > 0 ==> fm_pair(k + ":"@ + v) == Some((trim(k), trim(v))),
        trim(k).len() == 0 ==> fm_pair(k + ":"@ + v) is None,
{
    reveal_strlit(":");
    assert(k + ":"@ + v =~= k + seq![':'] + v);
    crate::text::lemma_first_index_after(k, ':', v);
}

proof fn lemma_fm_pairs_trimmed(ls: Seq<Seq<char>>)
    ensures
        forall|i: int| 0 <= i < fm_pairs(ls).len() ==> {
            let (k, v) = #[trigger] fm_pairs(ls)[i];
            k.len() > 0 && trim(k) == k && trim(v) == v
        },
    decreases ls.len(),
{
    if ls.len() > 0 {
        lemma_fm_pairs_trimmed(ls.drop_last());
        let init = fm_pairs(ls.drop_last());
        let all = fm_pairs(ls);
        if let Some(c) = first_index_of(ls.last(), ':') {
            let l = ls.last();
            lemma_trim_idempotent(l.subrange(0, c));
            lemma_trim_idempotent(l.subrange(c + 1, l.len() as int));
        }
        assert forall|i: int| 0 <= i < all.len() implies {
            let (k, v) = #[trigger] all[i];
            k.len() > 0 && trim(k) == k && trim(v) == v
        } by {
            if i < init.len() {
                assert(all[i] == init[i]);
            }
        }
    }
}

proof fn lemma_find_from_none(t: Seq<char>, p: Seq<char>, i: int)
    requires
        forall|k: int| !occurs_at(t, k, p),
    ensures
        find_from(t, p, i) is None,
    decreases t.len() + 1 - i,
{
    if !(i < 0 || i > t.len() || i + p.len() > t.len()) {
        assert(!occurs_at(t, i, p));
        lemma_find_from_none(t, p, i + 1);
    }
}

/// Whether front matter opened in `s` never closes: after the opening line, no line is
/// exactly `---`.
pub open spec fn fm_unclosed(s: Seq<char>) -> bool {
    let a = s.subrange(fm_open_len(s), s.len() as int);
    &&& forall|k: int| !occurs_at(a, k, "\n---\n"@) && !occurs_at(a, k, "\n---\r\n"@)
    &&& !(a.len() >= 4 && occurs_at(a, a.len() - 4, "\n---"@))
}

/// What `parse_frontmatter` gives: the body is a tail of the text, every pair has a
/// non-empty key and both key and value trimmed, and text that does not open with a
/// `---` line, or opens one that no later `---` line closes, is all body, without pairs.
pub proof fn front_matter_leaves_a_tail_and_trimmed_pairs(s: Seq<char>)
    ensures
        exists|k: int| 0 <= k <= s.len() && frontmatter_spec(s).1 == #[trigger] s.subrange(k, s.len() as int),
        forall|i: int| 0 <= i < frontmatter_spec(s).0.len() ==> {
            let (k, v) = #[trigger] frontmatter_spec(s).0[i];
            k.len() > 0 && trim(k) == k && trim(v) == v
        },
        (!occurs_at(s, 0, "---\n"@) && !occurs_at(s, 0, "---\r\n"@)) ==> frontmatter_spec(s) == (
            Seq::<(Seq<char>, Seq<char>)>::empty(),
            s,
        ),
        fm_unclosed(s) ==> frontmatter_spec(s) == (Seq::<(Seq<char>, Seq<char>)>::empty(), s),
{
    lemma_body_is_tail(s);
    let open_len = fm_open_len(s);
    if fm_unclosed(s) && open_len != 0 {
        let a = s.subrange(open_len, s.len() as int);
        assert forall|k: int| !occurs_at(a, k, "\n---\n"@) by {}
        assert forall|k: int| !occurs_at(a, k, "\n---\r\n"@) by {}
        lemma_find_from_none(a, "\n---\n"@, 0);
        lemma_find_from_none(a, "\n---\r\n"@, 0);
        assert(fm_close(a) is None);
    }
    if open_len != 0 {
        let a = s.subrange(open_len, s.len() as int);
        if let Some(c) = fm_close(a) {
            lemma_fm_pairs_trimmed(lines_spec(a.subrange(0, c.0)));
        }
    }
}


/// Renders [`full_document_spec`].
pub fn render_full_document(markdown: &str, title: &str, theme_css: &str, custom_css: &str, files: Option<&Vec<crate::embed::EmbedFile>>, nonce: &str, assets: &PageAssets) -> (r: String)
    ensures
        r@ == full_document_spec(markdown@, title@, theme_css@, custom_css@, opt_files_view(files), nonce@, assets.base_css_view(),
            assets.scripts_view()),
{
    let _len = crate::text::byte_len(markdown.as_bytes());
    let (pairs, body) = parse_frontmatter(markdown);
    let offset = body_line_offset(markdown, body.as_str());
    proof {
        lemma_body_is_tail(markdown@);
        let k = choose|k: int| 0 <= k <= markdown@.len() && frontmatter_spec(markdown@).1 == #[trigger] markdown@.subrange(k, markdown@.len() as int);
        lemma_encode_suffix_len(markdown@, k);
        let b = encode_utf8(markdown@);
        let skipped = b.len() - encode_utf8(body@).len();
        crate::markdown::lemma_newlines_le(b.take(skipped));
    }
    let fm = render_frontmatter_html(pairs.as_slice(), offset);
    let inner = render_body_in(body.as_str(), files, offset, None);
    let mut all = String::new();
    push_str(&mut all, fm.as_str());
    push_str(&mut all, inner.as_str());
    build_html(all.as_str(), title, theme_css, custom_css, "", nonce, assets)
}

} // verus!
