//! Markdown to HTML. pulldown-cmark parses the text and writes the final HTML; in between,
//! this module rewrites the event stream: bare `http(s)://` URLs become links, every block
//! opening tag carries the source lines it came from (`data-src-line`), alerts, diagrams,
//! named code blocks and tables get their own markup, and a paragraph that is nothing but
//! a link to a local file can be replaced by an embed of that file.

use vstd::prelude::*;
use vstd::string::*;
use vstd::utf8::*;
use pulldown_cmark::{html, BlockQuoteKind, CodeBlockKind, Event, LinkType, Options, Parser, Tag, TagEnd};
use crate::text::{chars_of, push_str, push_usize, dec, string_of};

verus! {

broadcast use vstd::string::group_string_axioms;

// ── events as this module reads them ────────────────────────────────────────

/// The five GitHub alert kinds of a block quote (`> [!NOTE]` and so on).
#[derive(Clone, Copy, Debug, PartialEq, Eq)]
pub enum Alert {
    Note,
    Tip,
    Important,
    Warning,
    Caution,
}

/// A parser event, as far as the rewriting reads it. Every other event is `Other`.
#[derive(Debug)]
pub enum MdEvent {
    StartHeading(u8),
    StartParagraph,
    StartItem,
    StartQuote(Option<Alert>),
    StartFenced(String),
    StartIndented,
    StartTable,
    StartLink(String),
    StartImage(String),
    EndParagraph,
    EndCodeBlock,
    EndTable,
    EndLink,
    EndImage,
    Text(String),
    Html(String),
    Other,
}

/// The content of an [`MdEvent`].
pub enum Ev {
    StartHeading(u8),
    StartParagraph,
    StartItem,
    StartQuote(Option<Alert>),
    StartFenced(Seq<char>),
    StartIndented,
    StartTable,
    StartLink(Seq<char>),
    StartImage(Seq<char>),
    EndParagraph,
    EndCodeBlock,
    EndTable,
    EndLink,
    EndImage,
    Text(Seq<char>),
    Html(Seq<char>),
    Other,
}

impl View for MdEvent {
    type V = Ev;

    open spec fn view(&self) -> Ev {
        match self {
            MdEvent::StartHeading(l) => Ev::StartHeading(*l),
            MdEvent::StartParagraph => Ev::StartParagraph,
            MdEvent::StartItem => Ev::StartItem,
            MdEvent::StartQuote(k) => Ev::StartQuote(*k),
            MdEvent::StartFenced(s) => Ev::StartFenced(s@),
            MdEvent::StartIndented => Ev::StartIndented,
            MdEvent::StartTable => Ev::StartTable,
            MdEvent::StartLink(s) => Ev::StartLink(s@),
            MdEvent::StartImage(s) => Ev::StartImage(s@),
            MdEvent::EndParagraph => Ev::EndParagraph,
            MdEvent::EndCodeBlock => Ev::EndCodeBlock,
            MdEvent::EndTable => Ev::EndTable,
            MdEvent::EndLink => Ev::EndLink,
            MdEvent::EndImage => Ev::EndImage,
            MdEvent::Text(s) => Ev::Text(s@),
            MdEvent::Html(s) => Ev::Html(s@),
            MdEvent::Other => Ev::Other,
        }
    }
}

/// A parsed event with its byte range in the source.
pub struct Spanned {
    pub ev: MdEvent,
    pub start: usize,
    pub end: usize,
}

/// The content of a [`Spanned`].
pub struct SpannedView {
    pub ev: Ev,
    pub start: int,
    pub end: int,
}

impl View for Spanned {
    type V = SpannedView;

    open spec fn view(&self) -> SpannedView {
        SpannedView { ev: self.ev@, start: self.start as int, end: self.end as int }
    }
}

/// The views of a list of parsed events.
pub open spec fn spans_view(v: Seq<Spanned>) -> Seq<SpannedView> {
    v.map_values(|s: Spanned| s@)
}

/// One event of the output: a parsed event passed on unchanged (by its index), or one made
/// here.
pub enum Piece {
    Keep(usize),
    Html(String),
    Text(String),
    LinkStart(String),
    LinkEnd,
    ParagraphEnd,
    /// A parsed link or image start (by index), pointed at another destination.
    Retarget(usize, String),
}

/// The content of a [`Piece`].
pub enum PieceView {
    Keep(usize),
    Html(Seq<char>),
    Text(Seq<char>),
    LinkStart(Seq<char>),
    LinkEnd,
    ParagraphEnd,
    Retarget(usize, Seq<char>),
}

impl View for Piece {
    type V = PieceView;

    open spec fn view(&self) -> PieceView {
        match self {
            Piece::Keep(i) => PieceView::Keep(*i),
            Piece::Html(s) => PieceView::Html(s@),
            Piece::Text(s) => PieceView::Text(s@),
            Piece::LinkStart(s) => PieceView::LinkStart(s@),
            Piece::LinkEnd => PieceView::LinkEnd,
            Piece::ParagraphEnd => PieceView::ParagraphEnd,
            Piece::Retarget(i, u) => PieceView::Retarget(*i, u@),
        }
    }
}

/// The views of a list of pieces.
pub open spec fn pieces_view(v: Seq<Piece>) -> Seq<PieceView> {
    v.map_values(|p: Piece| p@)
}

// ── pulldown-cmark ──────────────────────────────────────────────────────────

#[verifier::external_type_specification]
#[verifier::external_body]
pub struct ExEvent<'a>(Event<'a>);

#[verifier::external_type_specification]
#[verifier::external_body]
pub struct ExTag<'a>(Tag<'a>);

#[verifier::external_type_specification]
#[verifier::external_body]
pub struct ExTagEnd(TagEnd);

#[verifier::external_type_specification]
#[verifier::external_body]
pub struct ExBlockQuoteKind(BlockQuoteKind);

/// Whether a kept piece names one of `n` parsed events.
pub open spec fn keeps_below(p: Piece, n: int) -> bool {
    match p {
        Piece::Keep(i) => i < n,
        Piece::Retarget(i, _) => i < n,
        _ => true,
    }
}

/// What pulldown-cmark's parser yields for `src` with tables, task lists, strikethrough,
/// footnotes, GFM extensions and wiki links enabled, each event read as an [`Ev`] with its
/// byte range.
pub uninterp spec fn md_events(src: Seq<char>) -> Seq<SpannedView>;

/// The HTML that pulldown-cmark's `push_html` writes for the event list that `plan`
/// describes over the events of `src`.
pub uninterp spec fn md_html(src: Seq<char>, plan: Seq<PieceView>) -> Seq<char>;

/// `Parser::new_ext(src, ..).into_offset_iter()`, collected: the parser's events over
/// `src`, read through [`event_of`], with their ranges. The result is stated by name.
#[verifier::external_body]
fn md_parse(src: &str) -> (r: Vec<Spanned>)
    ensures
        spans_view(r@) == md_events(src@),
{
    let opts = Options::ENABLE_TABLES | Options::ENABLE_TASKLISTS | Options::ENABLE_STRIKETHROUGH
        | Options::ENABLE_FOOTNOTES | Options::ENABLE_GFM | Options::ENABLE_WIKILINKS;
    let mut out = Vec::new();
    for (ev, range) in Parser::new_ext(src, opts).into_offset_iter() {
        out.push(Spanned { ev: event_of(&ev), start: range.start, end: range.end });
    }
    out
}

/// pulldown-cmark's `html::push_html` over the parser's events for `src` (the same
/// options as [`md_parse`]) rebuilt after `plan`, read through [`piece_event`]. The result
/// is stated by name. Every kept index must name one of the parsed events.
#[verifier::external_body]
fn md_render(src: &str, plan: &Vec<Piece>) -> (r: String)
    requires
        forall|k: int| 0 <= k < plan@.len() ==> keeps_below(#[trigger] plan@[k], md_events(src@).len() as int),
    ensures
        r@ == md_html(src@, pieces_view(plan@)),
{
    let opts = Options::ENABLE_TABLES | Options::ENABLE_TASKLISTS | Options::ENABLE_STRIKETHROUGH
        | Options::ENABLE_FOOTNOTES | Options::ENABLE_GFM | Options::ENABLE_WIKILINKS;
    let evs: Vec<Event> = Parser::new_ext(src, opts).collect();
    let mut out = String::new();
    html::push_html(&mut out, plan.iter().map(|p| piece_event(p, &evs)));
    out
}

/// Reads a pulldown-cmark event: the variants the rewriting looks at, with their text
/// moved over; every other variant becomes `Other`.
#[verifier::external_body]
fn event_of(e: &Event) -> MdEvent {
    match e {
        Event::Start(t) => start_of(t),
        Event::End(t) => end_of(t),
        Event::Text(s) => MdEvent::Text(s.to_string()),
        Event::Html(s) => MdEvent::Html(s.to_string()),
        _ => MdEvent::Other,
    }
}

/// Reads a pulldown-cmark start tag (see [`event_of`]).
#[verifier::external_body]
fn start_of(t: &Tag) -> MdEvent {
    match t {
        Tag::Heading { level, .. } => MdEvent::StartHeading(*level as u8),
        Tag::Paragraph => MdEvent::StartParagraph,
        Tag::Item => MdEvent::StartItem,
        Tag::BlockQuote(k) => MdEvent::StartQuote(k.map(alert_of)),
        Tag::CodeBlock(CodeBlockKind::Fenced(info)) => MdEvent::StartFenced(info.to_string()),
        Tag::CodeBlock(CodeBlockKind::Indented) => MdEvent::StartIndented,
        Tag::Table(_) => MdEvent::StartTable,
        Tag::Link { dest_url, .. } => MdEvent::StartLink(dest_url.to_string()),
        Tag::Image { dest_url, .. } => MdEvent::StartImage(dest_url.to_string()),
        _ => MdEvent::Other,
    }
}

/// Reads a pulldown-cmark end tag (see [`event_of`]).
#[verifier::external_body]
fn end_of(t: &TagEnd) -> MdEvent {
    match t {
        TagEnd::Paragraph => MdEvent::EndParagraph,
        TagEnd::CodeBlock => MdEvent::EndCodeBlock,
        TagEnd::Table => MdEvent::EndTable,
        TagEnd::Link => MdEvent::EndLink,
        TagEnd::Image => MdEvent::EndImage,
        _ => MdEvent::Other,
    }
}

/// Reads pulldown-cmark's alert kind, one variant for one variant.
#[verifier::external_body]
fn alert_of(k: BlockQuoteKind) -> Alert {
    match k {
        BlockQuoteKind::Note => Alert::Note,
        BlockQuoteKind::Tip => Alert::Tip,
        BlockQuoteKind::Important => Alert::Important,
        BlockQuoteKind::Warning => Alert::Warning,
        BlockQuoteKind::Caution => Alert::Caution,
    }
}

/// Writes a piece back as a pulldown-cmark event: a kept event is cloned from `evs`, a
/// made one is built (a bare URL link is an autolink without title). A kept index must name
/// one of `evs`.
#[verifier::external_body]
fn piece_event<'a>(p: &Piece, evs: &Vec<Event<'a>>) -> Event<'a>
    requires
        keeps_below(*p, evs@.len() as int),
{
    match p {
        Piece::Keep(i) => evs[*i].clone(),
        Piece::Html(s) => Event::Html(s.clone().into()),
        Piece::Text(s) => Event::Text(s.clone().into()),
        Piece::LinkStart(u) => Event::Start(Tag::Link {
            link_type: LinkType::Autolink, dest_url: u.clone().into(), title: "".into(), id: "".into() }),
        Piece::LinkEnd => Event::End(TagEnd::Link),
        Piece::ParagraphEnd => Event::End(TagEnd::Paragraph),
        Piece::Retarget(i, u) => retarget_event(&evs[*i], u),
    }
}

/// A parsed link or image start with its destination replaced by `u` (link type, title
/// and id moved over); any other event as it is.
#[verifier::external_body]
fn retarget_event<'a>(e: &Event<'a>, u: &String) -> Event<'a> {
    match e {
        Event::Start(Tag::Link { link_type, title, id, .. }) => Event::Start(Tag::Link {
            link_type: *link_type, dest_url: u.clone().into(), title: title.clone(), id: id.clone() }),
        Event::Start(Tag::Image { link_type, title, id, .. }) => Event::Start(Tag::Image {
            link_type: *link_type, dest_url: u.clone().into(), title: title.clone(), id: id.clone() }),
        other => other.clone(),
    }
}


// ── source lines ────────────────────────────────────────────────────────────

/// How many `\n` bytes `b` holds.
pub open spec fn newlines(b: Seq<u8>) -> nat
    decreases b.len(),
{
    if b.len() == 0 {
        0
    } else {
        newlines(b.drop_last()) + if b.last() == 10u8 { 1nat } else { 0nat }
    }
}

/// The 1-based line of byte offset `off` in `src`, counted from `base` lines before it
/// (an offset past the end is on the last line).
pub open spec fn line_at(src: Seq<char>, base: int, off: int) -> int {
    let b = encode_utf8(src);
    base + 1 + newlines(b.take(if off < 0 { 0 } else if off < b.len() { off } else { b.len() as int }))
}

/// Line numbers by byte offset over a text whose first line is line `base + 1`.
pub struct LineIndex<'a> {
    src: &'a str,
    counts: Vec<usize>,
    base: usize,
}

impl<'a> LineIndex<'a> {
    /// The text.
    pub closed spec fn text(&self) -> Seq<char> {
        self.src@
    }

    /// Lines before the text.
    pub closed spec fn base_line(&self) -> int {
        self.base as int
    }

    /// The table holds the newline count of every prefix, and every line number fits.
    pub closed spec fn wf(&self) -> bool {
        let b = encode_utf8(self.src@);
        &&& self.counts@.len() == b.len() + 1
        &&& forall|i: int| 0 <= i <= b.len() ==> #[trigger] self.counts@[i] == newlines(b.take(i))
        &&& self.base + b.len() + 1 <= usize::MAX
    }

    /// Indexes the lines of `s`.
    pub fn new(s: &'a str, base: usize) -> (r: LineIndex<'a>)
        requires
            base + encode_utf8(s@).len() + 1 <= usize::MAX,
        ensures
            r.wf(),
            r.text() == s@,
            r.base_line() == base,
    {
        let bytes = s.as_bytes();
        let ghost b = encode_utf8(s@);
        let mut counts: Vec<usize> = Vec::new();
        counts.push(0);
        assert(b.take(0) =~= Seq::<u8>::empty());
        let mut n: usize = 0;
        let mut i: usize = 0;
        while i < bytes.len()
            invariant
                bytes@ == b,
                i <= b.len(),
                counts@.len() == i + 1,
                n == newlines(b.take(i as int)),
                n <= i,
                forall|k: int| 0 <= k <= i ==> #[trigger] counts@[k] == newlines(b.take(k)),
            decreases b.len() - i,
        {
            assert(b.take(i + 1).drop_last() =~= b.take(i as int));
            if bytes[i] == 10u8 {
                n = n + 1;
            }
            counts.push(n);
            i = i + 1;
        }
        LineIndex { src: s, counts, base }
    }

    /// The line of byte offset `off`.
    pub fn line(&self, off: usize) -> (r: usize)
        requires
            self.wf(),
        ensures
            r == line_at(self.text(), self.base_line(), off as int),
    {
        let ghost b = encode_utf8(self.src@);
        let len = self.counts.len() - 1;
        let k = if off < len { off } else { len };
        let c = self.counts[k];
        assert(c <= len) by {
            lemma_newlines_le(b.take(k as int));
        }
        self.base + 1 + c
    }
}

pub proof fn lemma_newlines_le(b: Seq<u8>)
    ensures
        newlines(b) <= b.len(),
    decreases b.len(),
{
    if b.len() > 0 {
        lemma_newlines_le(b.drop_last());
    }
}

proof fn lemma_encode_len_pos(t: Seq<char>)
    requires
        t.len() > 0,
    ensures
        encode_utf8(t).len() > 0,
{
    assert(encode_scalar(t[0] as u32).len() > 0);
}

proof fn lemma_encode_prefix_len(s: Seq<char>, k: int)
    requires
        0 <= k <= s.len(),
    ensures
        encode_utf8(s.take(k)).len() <= encode_utf8(s).len(),
    decreases s.len(),
{
    if k > 0 {
        lemma_encode_prefix_len(s.drop_first(), k - 1);
        assert(s.take(k).drop_first() =~= s.drop_first().take(k - 1));
    } else {
        assert(s.take(k) =~= Seq::<char>::empty());
    }
}

/// Whether `c` is white space in Unicode's sense (`char::is_whitespace`).
pub open spec fn is_space(c: char) -> bool {
    c == '\t' || c == '\n' || c == '\x0B' || c == '\x0C' || c == '\r' || c == ' ' || c == '\u{85}'
        || c == '\u{A0}' || c == '\u{1680}' || ('\u{2000}' <= c && c <= '\u{200A}') || c == '\u{2028}'
        || c == '\u{2029}' || c == '\u{202F}' || c == '\u{205F}' || c == '\u{3000}'
}

/// `char::is_whitespace`.
pub fn space_char(c: char) -> (r: bool)
    ensures
        r == is_space(c),
{
    c == '\t' || c == '\n' || c == '\x0B' || c == '\x0C' || c == '\r' || c == ' ' || c == '\u{85}'
        || c == '\u{A0}' || c == '\u{1680}' || ('\u{2000}' <= c && c <= '\u{200A}') || c == '\u{2028}'
        || c == '\u{2029}' || c == '\u{202F}' || c == '\u{205F}' || c == '\u{3000}'
}

/// `s` without its trailing white space (`str::trim_end`).
pub open spec fn trim_end(s: Seq<char>) -> Seq<char>
    decreases s.len(),
{
    if s.len() > 0 && is_space(s.last()) {
        trim_end(s.drop_last())
    } else {
        s
    }
}

/// `s` without its leading white space (`str::trim_start`).
pub open spec fn trim_start(s: Seq<char>) -> Seq<char>
    decreases s.len(),
{
    if s.len() > 0 && is_space(s[0]) {
        trim_start(s.drop_first())
    } else {
        s
    }
}

/// `str::trim`.
pub open spec fn trim(s: Seq<char>) -> Seq<char> {
    trim_start(trim_end(s))
}

/// Length of [`trim_end`] of `v`.
pub fn trim_end_len(v: &[char]) -> (r: usize)
    ensures
        r <= v@.len(),
        v@.take(r as int) == trim_end(v@),
{
    let mut k = v.len();
    assert(v@.take(k as int) =~= v@);
    while k > 0 && space_char(v[k - 1])
        invariant
            k <= v@.len(),
            trim_end(v@.take(k as int)) == trim_end(v@),
        decreases k,
    {
        assert(v@.take(k as int).drop_last() =~= v@.take(k - 1));
        k = k - 1;
    }
    assert(v@.take(v@.len() as int) =~= v@);
    k
}

/// Start of [`trim_start`] of `v`.
pub fn trim_start_pos(v: &[char]) -> (r: usize)
    ensures
        r <= v@.len(),
        v@.subrange(r as int, v@.len() as int) == trim_start(v@),
{
    let mut k: usize = 0;
    assert(v@.subrange(0, v@.len() as int) =~= v@);
    while k < v.len() && space_char(v[k])
        invariant
            k <= v@.len(),
            trim_start(v@.subrange(k as int, v@.len() as int)) == trim_start(v@),
        decreases v@.len() - k,
    {
        assert(v@.subrange(k as int, v@.len() as int).drop_first() =~= v@.subrange(k + 1, v@.len() as int));
        k = k + 1;
    }
    assert(v@.subrange(0, v@.len() as int) =~= v@);
    k
}

/// `str::trim` of `v`, as a new vector.
pub fn trimmed(v: &[char]) -> (r: Vec<char>)
    ensures
        r@ == trim(v@),
{
    let e = trim_end_len(v);
    let t = crate::text::slice_to_vec(v, 0, e);
    let s = trim_start_pos(t.as_slice());
    crate::text::slice_to_vec(t.as_slice(), s, e)
}

/// The text of bytes `a..b` of `src` when both are character boundaries (`str::get`).
pub open spec fn sub_text(src: Seq<char>, a: int, b: int) -> Option<Seq<char>> {
    let bytes = encode_utf8(src);
    if 0 <= a <= b <= bytes.len() && is_char_boundary(bytes, a) && is_char_boundary(bytes, b) {
        Some(decode_utf8(bytes.subrange(a, b)))
    } else {
        None
    }
}

proof fn lemma_boundary_in_prefix(bytes: Seq<u8>, a: int, e: int)
    requires
        valid_utf8(bytes),
        0 <= a <= e <= bytes.len(),
        is_char_boundary(bytes, a),
        is_char_boundary(bytes, e),
    ensures
        valid_utf8(bytes.subrange(0, e)),
        is_char_boundary(bytes.subrange(0, e), a),
{
    valid_utf8_split(bytes, e);
    let p = bytes.subrange(0, e);
    if a == e {
        is_char_boundary_start_end_of_seq(p);
        assert(p.subrange(0, p.len() as int) =~= p);
    } else if a > 0 {
        is_char_boundary_iff_not_is_continuation_byte(bytes, a);
        is_char_boundary_iff_not_is_continuation_byte(p, a);
    }
}

/// `src.get(a..b)`: the characters of that byte range, if it falls on boundaries.
fn get_sub(src: &str, a: usize, b: usize) -> (r: Option<Vec<char>>)
    ensures
        match sub_text(src@, a as int, b as int) {
            Some(t) => r matches Some(v) && v@ == t,
            None => r is None,
        },
{
    let ghost bytes = encode_utf8(src@);
    let blen = src.as_bytes().len();
    if a <= b && b <= blen && src.is_char_boundary(a) && src.is_char_boundary(b) {
        proof {
            encode_utf8_valid_utf8(src@);
            lemma_boundary_in_prefix(bytes, a as int, b as int);
        }
        let (head, _) = src.split_at(b);
        let (_, mid) = head.split_at(a);
        proof {
            assert(mid.spec_bytes() =~= bytes.subrange(a as int, b as int));
            encode_utf8_decode_utf8(mid@);
            assert(decode_utf8(bytes.subrange(a as int, b as int)) == mid@);
        }
        let r = chars_of(mid);
        assert(sub_text(src@, a as int, b as int) == Some(mid@));
        Some(r)
    } else {
        None
    }
}

/// The attributes that tie an element to its source lines: `data-src-line` with the line
/// of the range's start, and `data-src-end-line` with the line of its last character that
/// is not white space, when that is a later line.
pub open spec fn src_attrs_spec(src: Seq<char>, base: int, a: int, b: int) -> Seq<char> {
    let blen = encode_utf8(src).len() as int;
    let start = line_at(src, base, a);
    let slice = match sub_text(src, a, if b < blen { b } else { blen }) {
        Some(t) => t,
        None => seq![],
    };
    let tr = trim_end(slice);
    let end_off = if tr.len() == 0 { a } else { a + encode_utf8(tr).len() - 1 };
    let end = line_at(src, base, end_off);
    if end > start {
        " data-src-line=\""@ + dec(start as nat) + "\" data-src-end-line=\""@ + dec(end as nat) + "\""@
    } else {
        " data-src-line=\""@ + dec(start as nat) + "\""@
    }
}

/// Renders [`src_attrs_spec`] for the byte range `a..b`.
pub fn src_attrs(idx: &LineIndex, a: usize, b: usize) -> (r: String)
    requires
        idx.wf(),
    ensures
        r@ == src_attrs_spec(idx.text(), idx.base_line(), a as int, b as int),
{
    let start = idx.line(a);
    let blen = idx.src.len();
    let slice_end = if b < blen { b } else { blen };
    let slice = match get_sub(idx.src, a, slice_end) {
        Some(v) => v,
        None => Vec::new(),
    };
    let k = trim_end_len(slice.as_slice());
    let end_off = if k == 0 {
        a
    } else {
        let t = string_of(crate::text::slice_to_vec(slice.as_slice(), 0, k).as_slice());
        let tl = t.as_str().len();
        proof {
            lemma_encode_len_pos(t@);
            let bytes = encode_utf8(idx.src@);
            encode_utf8_valid_utf8(idx.src@);
            let sub = bytes.subrange(a as int, slice_end as int);
            lemma_boundary_in_prefix(bytes, a as int, slice_end as int);
            let pre = bytes.subrange(0, slice_end as int);
            valid_utf8_split(pre, a as int);
            assert(pre.subrange(a as int, pre.len() as int) =~= sub);
            decode_utf8_encode_utf8(sub);
            lemma_encode_prefix_len(slice@, k as int);
        }
        a + tl - 1
    };
    let end = idx.line(end_off);
    let mut r = String::new();
    push_str(&mut r, " data-src-line=\"");
    push_usize(&mut r, start);
    if end > start {
        push_str(&mut r, "\" data-src-end-line=\"");
        push_usize(&mut r, end);
    }
    push_str(&mut r, "\"");
    r
}


// ── raw HTML blocks ─────────────────────────────────────────────────────────

/// The UTF-8 length of `c`.
pub fn utf8_width(c: char) -> (r: usize)
    ensures
        r == encode_scalar(c as u32).len(),
        1 <= r <= 4,
{
    let v = c as u32;
    if v <= 0x7F {
        1
    } else if v <= 0x7FF {
        2
    } else if v <= 0xFFFF {
        3
    } else {
        4
    }
}

proof fn lemma_encode_push(s: Seq<char>, c: char)
    ensures
        encode_utf8(s.push(c)) == encode_utf8(s) + encode_scalar(c as u32),
    decreases s.len(),
{
    if s.len() == 0 {
        assert(s.push(c).drop_first() =~= Seq::<char>::empty());
        assert(encode_utf8(s.push(c).drop_first()) =~= Seq::<u8>::empty());
        assert(encode_utf8(s) =~= Seq::<u8>::empty());
        assert(encode_utf8(s.push(c)) =~= encode_scalar(c as u32) + Seq::<u8>::empty());
        assert(encode_utf8(s.push(c)) =~= encode_utf8(s) + encode_scalar(c as u32));
    } else {
        lemma_encode_push(s.drop_first(), c);
        assert(s.push(c).drop_first() =~= s.drop_first().push(c));
        assert(encode_utf8(s.push(c)) =~= encode_utf8(s) + encode_scalar(c as u32));
    }
}

/// Whether `<details` or `<summary` starts at `i`.
pub open spec fn tag_at(h: Seq<char>, i: int) -> bool {
    0 <= i && i + 8 <= h.len() && (h.subrange(i, i + 8) == "<details"@ || h.subrange(i, i + 8) == "<summary"@)
}

/// Whether the character at `i` ends a tag name.
pub open spec fn tag_delim_at(h: Seq<char>, i: int) -> bool {
    0 <= i < h.len() && (h[i] == ' ' || h[i] == '>' || h[i] == '\t' || h[i] == '\n' || h[i] == '\r' || h[i] == '/')
}

/// `h[i..]` with ` data-src-line="N"` after every `<details` or `<summary` opening tag
/// (one followed by a space, `>`, tab, line break or `/`); `N` is the line of the tag,
/// `h` standing at byte `off` of `src`.
pub open spec fn inject_from(h: Seq<char>, i: int, src: Seq<char>, base: int, off: int) -> Seq<char>
    decreases h.len() - i,
{
    if i < 0 || i >= h.len() {
        seq![]
    } else if tag_at(h, i) {
        h.subrange(i, i + 8) + (if tag_delim_at(h, i + 8) {
            " data-src-line=\""@ + dec(line_at(src, base, off + encode_utf8(h.take(i)).len()) as nat) + "\""@
        } else {
            seq![]
        }) + inject_from(h, i + 8, src, base, off)
    } else {
        seq![h[i]] + inject_from(h, i + 1, src, base, off)
    }
}

pub fn chars_match(h: &Vec<char>, i: usize, pat: &str) -> (r: bool)
    ensures
        r == (i + pat@.len() <= h@.len() && h@.subrange(i as int, i + pat@.len()) == pat@),
{
    let p = chars_of(pat);
    let hl = h.len();
    if i > hl || p.len() > hl - i {
        return false;
    }
    let mut k: usize = 0;
    while k < p.len()
        invariant
            hl == h@.len(),
            p@ == pat@,
            i + p@.len() <= h@.len(),
            k <= p@.len(),
            forall|q: int| 0 <= q < k ==> h@[i + q] == p@[q],
        decreases p@.len() - k,
    {
        if h[i + k] != p[k] {
            assert(h@.subrange(i as int, i + p@.len())[k as int] == h@[i + k]);
            assert(h@.subrange(i as int, i + p@.len())[k as int] != p@[k as int]);
            return false;
        }
        k = k + 1;
    }
    assert(h@.subrange(i as int, i + p@.len()) =~= p@);
    true
}

/// Renders [`inject_from`] for a whole raw HTML block that starts at byte `off`.
pub fn inject_html_src_line(html: &str, off: usize, idx: &LineIndex) -> (r: String)
    requires
        idx.wf(),
    ensures
        r@ == inject_from(html@, 0, idx.text(), idx.base_line(), off as int),
{
    let h = chars_of(html);
    let hl = h.len();
    let hb = html.as_bytes().len();
    let ghost hv = h@;
    let ghost src = idx.text();
    let ghost base = idx.base_line();
    let mut out = String::new();
    let mut i: usize = 0;
    let mut bo: usize = 0;
    assert(hv.take(0) =~= Seq::<char>::empty());
    while i < h.len()
        invariant
            hv == h@,
            hl == h@.len(),
            hv == html@,
            idx.wf(),
            src == idx.text(),
            base == idx.base_line(),
            i <= hv.len(),
            bo == encode_utf8(hv.take(i as int)).len(),
            bo <= encode_utf8(hv).len(),
            encode_utf8(hv).len() == html.spec_bytes().len(),
            hb == encode_utf8(hv).len(),
            out@ + inject_from(hv, i as int, src, base, off as int) == inject_from(hv, 0, src, base, off as int),
        decreases hv.len() - i,
    {
        let ghost before = out@;
        let t1 = chars_match(&h, i, "<details");
        let t2 = chars_match(&h, i, "<summary");
        if t1 || t2 {
            proof {
                reveal_strlit("<details");
                reveal_strlit("<summary");
            }
            let mut q: usize = 0;
            while q < 8
                invariant
                    i + 8 <= hv.len(),
                    hv == h@,
                    q <= 8,
                    hl == h@.len(),
                    out@ == before + hv.subrange(i as int, i + q),
                decreases 8 - q,
            {
                crate::text::push_char(&mut out, h[i + q]);
                assert(hv.subrange(i as int, i + q + 1) =~= hv.subrange(i as int, i + q).push(hv[i + q]));
                q = q + 1;
            }
            let d = i + 8 < h.len() && (h[i + 8] == ' ' || h[i + 8] == '>' || h[i + 8] == '\t' || h[i + 8] == '\n'
                || h[i + 8] == '\r' || h[i + 8] == '/');
            if d {
                let at = if off as u128 + bo as u128 > usize::MAX as u128 { usize::MAX } else { off + bo };
                let line = idx.line(at);
                push_str(&mut out, " data-src-line=\"");
                push_usize(&mut out, line);
                push_str(&mut out, "\"");
            }
            let mut q2: usize = 0;
            while q2 < 8
                invariant
                    i + 8 <= hv.len(),
                    hv == h@,
                    hl == h@.len(),
                    q2 <= 8,
                    bo == encode_utf8(hv.take(i + q2)).len(),
                    encode_utf8(hv.take(i + q2)).len() <= encode_utf8(hv).len(),
                    encode_utf8(hv).len() == html.spec_bytes().len(),
                    hb == encode_utf8(hv).len(),
                decreases 8 - q2,
            {
                proof {
                    lemma_encode_push(hv.take(i + q2), hv[i + q2]);
                    assert(hv.take(i + q2 + 1) =~= hv.take(i + q2).push(hv[i + q2]));
                    lemma_encode_prefix_len(hv, i + q2 + 1);
                }
                let w = utf8_width(h[i + q2]);
                bo = bo + w;
                q2 = q2 + 1;
            }
            i = i + 8;
        } else {
            proof {
                lemma_encode_push(hv.take(i as int), hv[i as int]);
                assert(hv.take(i + 1) =~= hv.take(i as int).push(hv[i as int]));
                lemma_encode_prefix_len(hv, i + 1);
            }
            crate::text::push_char(&mut out, h[i]);
            let w = utf8_width(h[i]);
            bo = bo + w;
            i = i + 1;
        }
    }
    out
}


// ── bare URLs ───────────────────────────────────────────────────────────────

/// Whether `p` occurs in `t` at `i`.
pub open spec fn occurs_at(t: Seq<char>, i: int, p: Seq<char>) -> bool {
    0 <= i && i + p.len() <= t.len() && t.subrange(i, i + p.len()) == p
}

/// Length of the URL scheme (`https://` or `http://`) that starts at `i`, 0 if none.
pub open spec fn scheme_len_at(t: Seq<char>, i: int) -> int {
    if occurs_at(t, i, "https://"@) {
        8
    } else if occurs_at(t, i, "http://"@) {
        7
    } else {
        0
    }
}

/// Whether `c` is ASCII.
pub open spec fn is_ascii_char(c: char) -> bool {
    (c as u32) < 128
}

/// Whether a URL may start at `i`: at the start, or after white space, `*`, `_`, `~`,
/// `(` or a character that is not ASCII.
pub open spec fn start_ok(t: Seq<char>, i: int) -> bool {
    i == 0 || {
        let c = t[i - 1];
        is_space(c) || c == '*' || c == '_' || c == '~' || c == '(' || !is_ascii_char(c)
    }
}

/// Whether `c` may be part of a bare URL: ASCII, not white space, not `<` or `>`.
pub open spec fn url_char(c: char) -> bool {
    is_ascii_char(c) && !is_space(c) && c != '<' && c != '>'
}

/// End of the run of URL characters that starts at `j`.
pub open spec fn url_end(t: Seq<char>, j: int) -> int
    decreases t.len() - j,
{
    if 0 <= j < t.len() && url_char(t[j]) {
        url_end(t, j + 1)
    } else {
        j
    }
}

/// Characters never kept at the end of a bare URL.
pub open spec fn is_trailing(c: char) -> bool {
    c == '?' || c == '!' || c == '.' || c == ',' || c == ':' || c == ';' || c == '*' || c == '_' || c == '~'
        || c == '\'' || c == '"'
}

/// `u` without its trailing [`is_trailing`] characters.
pub open spec fn strip_trailing(u: Seq<char>) -> Seq<char>
    decreases u.len(),
{
    if u.len() > 0 && is_trailing(u.last()) {
        strip_trailing(u.drop_last())
    } else {
        u
    }
}

/// How often `c` occurs in `u`.
pub open spec fn count_char(u: Seq<char>, c: char) -> nat
    decreases u.len(),
{
    if u.len() == 0 {
        0
    } else {
        count_char(u.drop_last(), c) + if u.last() == c { 1nat } else { 0nat }
    }
}

/// `u` without closing parentheses at its end that have no opening partner.
pub open spec fn strip_parens(u: Seq<char>) -> Seq<char>
    decreases u.len(),
{
    if u.len() > 0 && u.last() == ')' && count_char(u, ')') > count_char(u, '(') {
        strip_parens(u.drop_last())
    } else {
        u
    }
}

/// A URL candidate with its trailing punctuation and unbalanced `)` removed, repeatedly.
pub open spec fn trim_url(u: Seq<char>) -> Seq<char>
    decreases u.len(),
{
    let b = strip_parens(strip_trailing(u));
    if b.len() < u.len() {
        trim_url(b)
    } else {
        u
    }
}

/// The bare URLs in `t[i..]` as character ranges, front to back.
pub open spec fn bare_urls_from(t: Seq<char>, i: int) -> Seq<(int, int)>
    decreases t.len() - i,
{
    if i < 0 || i >= t.len() {
        seq![]
    } else {
        let sl = scheme_len_at(t, i);
        if sl <= 0 || i + sl > t.len() {
            bare_urls_from(t, i + 1)
        } else if !start_ok(t, i) {
            bare_urls_from(t, i + sl)
        } else {
            let u = trim_url(t.subrange(i, url_end(t, i + sl)));
            if u.len() <= sl {
                bare_urls_from(t, i + sl)
            } else {
                proof {
                    lemma_url_end(t, i + sl);
                    lemma_trim_url(t.subrange(i, url_end(t, i + sl)));
                }
                seq![(i, i + u.len())] + bare_urls_from(t, i + u.len())
            }
        }
    }
}

pub proof fn lemma_url_end(t: Seq<char>, j: int)
    requires
        0 <= j <= t.len(),
    ensures
        j <= url_end(t, j) <= t.len(),
    decreases t.len() - j,
{
    if j < t.len() && url_char(t[j]) {
        lemma_url_end(t, j + 1);
    }
}

pub proof fn lemma_strip_trailing(u: Seq<char>)
    ensures
        strip_trailing(u).len() <= u.len(),
        strip_trailing(u) == u.take(strip_trailing(u).len() as int),
    decreases u.len(),
{
    if u.len() > 0 && is_trailing(u.last()) {
        lemma_strip_trailing(u.drop_last());
        assert(u.drop_last().take(strip_trailing(u).len() as int) =~= u.take(strip_trailing(u).len() as int));
    } else {
        assert(u.take(u.len() as int) =~= u);
    }
}

pub proof fn lemma_strip_parens(u: Seq<char>)
    ensures
        strip_parens(u).len() <= u.len(),
        strip_parens(u) == u.take(strip_parens(u).len() as int),
    decreases u.len(),
{
    if u.len() > 0 && u.last() == ')' && count_char(u, ')') > count_char(u, '(') {
        lemma_strip_parens(u.drop_last());
        assert(u.drop_last().take(strip_parens(u).len() as int) =~= u.take(strip_parens(u).len() as int));
    } else {
        assert(u.take(u.len() as int) =~= u);
    }
}

pub proof fn lemma_trim_url(u: Seq<char>)
    ensures
        trim_url(u).len() <= u.len(),
        trim_url(u) == u.take(trim_url(u).len() as int),
    decreases u.len(),
{
    let a = strip_trailing(u);
    lemma_strip_trailing(u);
    lemma_strip_parens(a);
    let b = strip_parens(a);
    if b.len() < u.len() {
        lemma_trim_url(b);
        assert(b =~= u.take(b.len() as int));
        assert(b.take(trim_url(b).len() as int) =~= u.take(trim_url(u).len() as int));
    } else {
        assert(u.take(u.len() as int) =~= u);
    }
}

fn count_in(v: &[char], n: usize, c: char) -> (r: usize)
    requires
        n <= v@.len(),
    ensures
        r == count_char(v@.take(n as int), c),
        r <= n,
{
    let mut k: usize = 0;
    let mut r: usize = 0;
    assert(v@.take(0) =~= Seq::<char>::empty());
    while k < n
        invariant
            k <= n,
            n <= v@.len(),
            r <= k,
            r == count_char(v@.take(k as int), c),
        decreases n - k,
    {
        assert(v@.take(k + 1).drop_last() =~= v@.take(k as int));
        if v[k] == c {
            r = r + 1;
        }
        k = k + 1;
    }
    r
}

fn trailing_char(c: char) -> (r: bool)
    ensures
        r == is_trailing(c),
{
    c == '?' || c == '!' || c == '.' || c == ',' || c == ':' || c == ';' || c == '*' || c == '_' || c == '~'
        || c == '\'' || c == '"'
}

/// Length of [`trim_url`] of `v[..n]`.
fn trim_url_len(v: &[char], n: usize) -> (r: usize)
    requires
        n <= v@.len(),
    ensures
        r <= n,
        v@.take(r as int) == trim_url(v@.take(n as int)),
{
    let mut end = n;
    while end > 0
        invariant
            end <= n,
            n <= v@.len(),
            trim_url(v@.take(end as int)) == trim_url(v@.take(n as int)),
        decreases end,
    {
        let before = end;
        let ghost u = v@.take(end as int);
        while end > 0 && trailing_char(v[end - 1])
            invariant
                end <= before,
                before <= v@.len(),
                u == v@.take(before as int),
                strip_trailing(v@.take(end as int)) == strip_trailing(u),
            decreases end,
        {
            assert(v@.take(end as int).drop_last() =~= v@.take(end - 1));
            end = end - 1;
        }
        assert(strip_trailing(v@.take(end as int)) == v@.take(end as int));
        let ghost a = v@.take(end as int);
        loop
            invariant
                end <= before,
                before <= v@.len(),
                a == strip_trailing(u),
                strip_parens(v@.take(end as int)) == strip_parens(a),
            ensures
                end <= before,
                strip_parens(v@.take(end as int)) == strip_parens(a),
                strip_parens(v@.take(end as int)) == v@.take(end as int),
            decreases end,
        {
            if end == 0 || v[end - 1] != ')' {
                break;
            }
            let close = count_in(v, end, ')');
            let open = count_in(v, end, '(');
            if close <= open {
                break;
            }
            assert(v@.take(end as int).drop_last() =~= v@.take(end - 1));
            end = end - 1;
        }
        assert(strip_parens(v@.take(end as int)) == v@.take(end as int));
        if end == before {
            proof {
                lemma_trim_url(u);
            }
            assert(v@.take(end as int) == trim_url(v@.take(n as int)));
            return end;
        }
        assert(v@.take(end as int).len() < u.len());
    }
    assert(v@.take(0) =~= Seq::<char>::empty());
    end
}


fn scheme_len(t: &Vec<char>, i: usize) -> (r: usize)
    ensures
        r as int == scheme_len_at(t@, i as int),
{
    if chars_match(t, i, "https://") {
        8
    } else if chars_match(t, i, "http://") {
        proof {
            reveal_strlit("http://");
        }
        7
    } else {
        0
    }
}

fn may_start(t: &Vec<char>, i: usize) -> (r: bool)
    requires
        i < t@.len(),
    ensures
        r == start_ok(t@, i as int),
{
    if i == 0 {
        return true;
    }
    let c = t[i - 1];
    space_char(c) || c == '*' || c == '_' || c == '~' || c == '(' || !((c as u32) < 128)
}

/// The bare URLs of `t` as character ranges (see [`bare_urls_from`]).
pub fn find_bare_urls(t: &Vec<char>) -> (r: Vec<(usize, usize)>)
    ensures
        r@.len() == bare_urls_from(t@, 0).len(),
        forall|k: int| 0 <= k < r@.len() ==> (#[trigger] r@[k]).0 as int == bare_urls_from(t@, 0)[k].0
            && r@[k].1 as int == bare_urls_from(t@, 0)[k].1,
{
    let ghost tv = t@;
    let mut out: Vec<(usize, usize)> = Vec::new();
    let ghost mut acc: Seq<(int, int)> = seq![];
    let mut i: usize = 0;
    while i < t.len()
        invariant
            tv == t@,
            i <= tv.len(),
            out@.len() == acc.len(),
            forall|k: int| 0 <= k < out@.len() ==> (#[trigger] out@[k]).0 as int == acc[k].0 && out@[k].1 as int == acc[k].1,
            acc + bare_urls_from(tv, i as int) == bare_urls_from(tv, 0),
        decreases tv.len() - i,
    {
        proof {
            reveal_strlit("https://");
            reveal_strlit("http://");
        }
        let sl = scheme_len(t, i);
        if sl == 0 {
            i = i + 1;
        } else if !may_start(t, i) {
            i = i + sl;
        } else {
            let body = i + sl;
            let mut e = body;
            while e < t.len() && (t[e] as u32) < 128 && !space_char(t[e]) && t[e] != '<' && t[e] != '>'
                invariant
                    body <= e <= tv.len(),
                    tv == t@,
                    url_end(tv, body as int) == url_end(tv, e as int),
                decreases tv.len() - e,
            {
                e = e + 1;
            }
            let cand = crate::text::slice_to_vec(t.as_slice(), i, e);
            let ul = trim_url_len(cand.as_slice(), e - i);
            proof {
                assert(cand@.take((e - i) as int) =~= cand@);
                lemma_trim_url(cand@);
            }
            if ul <= sl {
                i = i + sl;
            } else {
                out.push((i, i + ul));
                proof {
                    let ghost old_acc = acc;
                    acc = acc.push((i as int, (i + ul) as int));
                    assert(acc + bare_urls_from(tv, (i + ul) as int) =~= old_acc + bare_urls_from(tv, i as int));
                }
                i = i + ul;
            }
        }
    }
    assert(acc =~= acc + bare_urls_from(tv, i as int));
    out
}


// ── linking bare URLs in the event stream ───────────────────────────────────

/// An event after bare URLs were linked: what it is, its range, and how it is written out.
pub struct LEvent {
    pub ev: MdEvent,
    pub start: usize,
    pub end: usize,
    pub piece: Piece,
}

/// The content of an [`LEvent`].
pub struct LView {
    pub ev: Ev,
    pub start: int,
    pub end: int,
    pub piece: PieceView,
}

impl View for LEvent {
    type V = LView;

    open spec fn view(&self) -> LView {
        LView { ev: self.ev@, start: self.start as int, end: self.end as int, piece: self.piece@ }
    }
}

/// The views of a list of linked events.
pub open spec fn levents_view(v: Seq<LEvent>) -> Seq<LView> {
    v.map_values(|e: LEvent| e@)
}

/// A text made here, over the range `s..e`.
pub open spec fn text_l(x: Seq<char>, s: int, e: int) -> LView {
    LView { ev: Ev::Text(x), start: s, end: e, piece: PieceView::Text(x) }
}

/// The start of a link to `u` made here.
pub open spec fn link_start_l(u: Seq<char>, s: int, e: int) -> LView {
    LView { ev: Ev::StartLink(u), start: s, end: e, piece: PieceView::LinkStart(u) }
}

/// The end of a link made here.
pub open spec fn link_end_l(s: int, e: int) -> LView {
    LView { ev: Ev::EndLink, start: s, end: e, piece: PieceView::LinkEnd }
}

/// `t[cursor..]` cut at the URL ranges `spans[k..]`: the text between them as text, each
/// URL as a link whose text is the URL.
pub open spec fn flush_spans(t: Seq<char>, spans: Seq<(int, int)>, k: int, cursor: int, s: int, e: int) -> Seq<LView>
    decreases spans.len() - k,
{
    if k < 0 || k >= spans.len() {
        if cursor < t.len() {
            seq![text_l(t.subrange(cursor, t.len() as int), s, e)]
        } else {
            seq![]
        }
    } else {
        let (a, b) = spans[k];
        let u = t.subrange(a, b);
        (if a > cursor { seq![text_l(t.subrange(cursor, a), s, e)] } else { seq![] })
            + seq![link_start_l(u, s, e), text_l(u, s, e), link_end_l(s, e)]
            + flush_spans(t, spans, k + 1, b, s, e)
    }
}

/// What a collected run of text becomes: itself when it holds no bare URL, else cut at them.
pub open spec fn flush_spec(pending: Option<(Seq<char>, int, int)>) -> Seq<LView> {
    match pending {
        None => seq![],
        Some((t, s, e)) => {
            let sp = bare_urls_from(t, 0);
            if sp.len() == 0 {
                seq![text_l(t, s, e)]
            } else {
                flush_spans(t, sp, 0, 0, s, e)
            }
        },
    }
}

/// Whether `e` opens a context where URLs are left alone (code block, link, image).
pub open spec fn opens_skip(e: Ev) -> bool {
    e is StartFenced || e is StartIndented || e is StartLink || e is StartImage
}

/// Whether `e` closes such a context.
pub open spec fn closes_skip(e: Ev) -> bool {
    e is EndCodeBlock || e is EndLink || e is EndImage
}

/// The nesting depth of such contexts after `e`.
pub open spec fn next_depth(d: nat, e: Ev) -> nat {
    if opens_skip(e) {
        d + 1
    } else if closes_skip(e) {
        if d > 0 { (d - 1) as nat } else { 0 }
    } else {
        d
    }
}

/// Linking bare URLs in `evs[i..]`, at context depth `depth` with the text collected so
/// far: consecutive texts outside code, links and images are joined and cut at their URLs;
/// every other event passes unchanged.
pub open spec fn linkify_from(evs: Seq<SpannedView>, i: int, depth: nat, pending: Option<(Seq<char>, int, int)>) -> Seq<LView>
    decreases evs.len() - i,
{
    if i < 0 || i >= evs.len() {
        flush_spec(pending)
    } else {
        let e = evs[i];
        if e.ev is Text && depth == 0 {
            let t = e.ev->Text_0;
            let p2 = match pending {
                Some((b, s, en)) => Some((b + t, s, en)),
                None => Some((t, e.start, e.end)),
            };
            linkify_from(evs, i + 1, depth, p2)
        } else {
            flush_spec(pending) + seq![LView { ev: e.ev, start: e.start, end: e.end, piece: PieceView::Keep(i as usize) }]
                + linkify_from(evs, i + 1, next_depth(depth, e.ev), None)
        }
    }
}

/// A copy of an event.
pub fn copy_event(e: &MdEvent) -> (r: MdEvent)
    ensures
        r@ == e@,
{
    match e {
        MdEvent::StartHeading(l) => MdEvent::StartHeading(*l),
        MdEvent::StartParagraph => MdEvent::StartParagraph,
        MdEvent::StartItem => MdEvent::StartItem,
        MdEvent::StartQuote(k) => MdEvent::StartQuote(*k),
        MdEvent::StartFenced(x) => MdEvent::StartFenced(x.clone()),
        MdEvent::StartIndented => MdEvent::StartIndented,
        MdEvent::StartTable => MdEvent::StartTable,
        MdEvent::StartLink(x) => MdEvent::StartLink(x.clone()),
        MdEvent::StartImage(x) => MdEvent::StartImage(x.clone()),
        MdEvent::EndParagraph => MdEvent::EndParagraph,
        MdEvent::EndCodeBlock => MdEvent::EndCodeBlock,
        MdEvent::EndTable => MdEvent::EndTable,
        MdEvent::EndLink => MdEvent::EndLink,
        MdEvent::EndImage => MdEvent::EndImage,
        MdEvent::Text(x) => MdEvent::Text(x.clone()),
        MdEvent::Html(x) => MdEvent::Html(x.clone()),
        MdEvent::Other => MdEvent::Other,
    }
}

#[verifier::rlimit(40)]
/// Appends [`flush_spec`] of the collected text `t` over `s..e`.
fn flush_text(out: &mut Vec<LEvent>, t: &Vec<char>, s: usize, e: usize)
    ensures
        levents_view(final(out)@) == levents_view(old(out)@) + flush_spec(Some((t@, s as int, e as int))),
{
    let ghost o0 = levents_view(out@);
    let spans = find_bare_urls(t);
    let ghost sp = bare_urls_from(t@, 0);
    if spans.len() == 0 {
        out.push(LEvent { ev: MdEvent::Text(string_of(t.as_slice())), start: s, end: e, piece: Piece::Text(string_of(t.as_slice())) });
        assert(levents_view(out@) =~= o0 + flush_spec(Some((t@, s as int, e as int))));
        return;
    }
    proof {
        lemma_bare_urls_ranges(t@, 0);
    }
    let mut cursor: usize = 0;
    let mut k: usize = 0;
    while k < spans.len()
        invariant
            k <= sp.len(),
            spans@.len() == sp.len(),
            forall|q: int| 0 <= q < spans@.len() ==> (#[trigger] spans@[q]).0 as int == sp[q].0 && spans@[q].1 as int == sp[q].1,
            forall|q: int| 0 <= q < sp.len() ==> 0 <= (#[trigger] sp[q]).0 < sp[q].1 <= t@.len(),
            forall|q: int| 0 < q < sp.len() ==> sp[q - 1].1 <= (#[trigger] sp[q]).0,
            cursor <= t@.len(),
            k == 0 ==> cursor == 0,
            k > 0 ==> cursor as int == sp[k - 1].1,
            levents_view(out@) + flush_spans(t@, sp, k as int, cursor as int, s as int, e as int) == o0 + flush_spans(t@, sp, 0, 0, s as int, e as int),
        decreases sp.len() - k,
    {
        let (a, b) = spans[k];
        let ghost before = levents_view(out@);
        if a > cursor {
            let seg = string_of(crate::text::slice_to_vec(t.as_slice(), cursor, a).as_slice());
            let seg2 = seg.clone();
            out.push(LEvent { ev: MdEvent::Text(seg), start: s, end: e, piece: Piece::Text(seg2) });
        }
        let u = crate::text::slice_to_vec(t.as_slice(), a, b);
        out.push(LEvent { ev: MdEvent::StartLink(string_of(u.as_slice())), start: s, end: e, piece: Piece::LinkStart(string_of(u.as_slice())) });
        out.push(LEvent { ev: MdEvent::Text(string_of(u.as_slice())), start: s, end: e, piece: Piece::Text(string_of(u.as_slice())) });
        out.push(LEvent { ev: MdEvent::EndLink, start: s, end: e, piece: Piece::LinkEnd });
        assert(levents_view(out@) =~= before + (if a > cursor { seq![text_l(t@.subrange(cursor as int, a as int), s as int, e as int)] } else { seq![] })
            + seq![link_start_l(t@.subrange(a as int, b as int), s as int, e as int), text_l(t@.subrange(a as int, b as int), s as int, e as int), link_end_l(s as int, e as int)]);
        cursor = b;
        k = k + 1;
    }
    if cursor < t.len() {
        let seg = string_of(crate::text::slice_to_vec(t.as_slice(), cursor, t.len()).as_slice());
        let seg2 = seg.clone();
        let ghost before = levents_view(out@);
        out.push(LEvent { ev: MdEvent::Text(seg), start: s, end: e, piece: Piece::Text(seg2) });
        assert(levents_view(out@) =~= before + flush_spans(t@, sp, k as int, cursor as int, s as int, e as int));
    } else {
        assert(levents_view(out@) =~= levents_view(out@) + flush_spans(t@, sp, k as int, cursor as int, s as int, e as int));
    }
}

/// The URL ranges lie inside the text, in order, without overlap.
pub proof fn lemma_bare_urls_ranges(t: Seq<char>, i: int)
    requires
        0 <= i,
    ensures
        forall|q: int| 0 <= q < bare_urls_from(t, i).len() ==> i <= (#[trigger] bare_urls_from(t, i)[q]).0
            < bare_urls_from(t, i)[q].1 <= t.len(),
        forall|q: int| 0 < q < bare_urls_from(t, i).len() ==> bare_urls_from(t, i)[q - 1].1 <= (#[trigger] bare_urls_from(t, i)[q]).0,
    decreases t.len() - i,
{
    if i < t.len() {
        let sl = scheme_len_at(t, i);
        if sl <= 0 || i + sl > t.len() {
            lemma_bare_urls_ranges(t, i + 1);
            assert(bare_urls_from(t, i) == bare_urls_from(t, i + 1));
        } else if !start_ok(t, i) {
            lemma_bare_urls_ranges(t, i + sl);
            assert(bare_urls_from(t, i) == bare_urls_from(t, i + sl));
        } else {
            let u = trim_url(t.subrange(i, url_end(t, i + sl)));
            if u.len() <= sl {
                lemma_bare_urls_ranges(t, i + sl);
                assert(bare_urls_from(t, i) == bare_urls_from(t, i + sl));
            } else {
                lemma_url_end(t, i + sl);
                lemma_trim_url(t.subrange(i, url_end(t, i + sl)));
                lemma_bare_urls_ranges(t, i + u.len());
                let r = bare_urls_from(t, i);
                let rest = bare_urls_from(t, i + u.len());
                assert(r == seq![(i, i + u.len())] + rest);
                assert forall|q: int| 0 < q < r.len() implies r[q - 1].1 <= (#[trigger] r[q]).0 by {
                    assert(r[q] == rest[q - 1]);
                    if q > 1 {
                        assert(r[q - 1] == rest[q - 2]);
                    }
                }
                assert forall|q: int| 0 <= q < r.len() implies i <= (#[trigger] r[q]).0 < r[q].1 <= t.len() by {
                    if q > 0 {
                        assert(r[q] == rest[q - 1]);
                    }
                }
            }
        }
    }
}


/// The collected text, as the specification reads it.
pub open spec fn pending_view(p: Option<(Vec<char>, usize, usize)>) -> Option<(Seq<char>, int, int)> {
    match p {
        Some((t, s, e)) => Some((t@, s as int, e as int)),
        None => None,
    }
}

/// Links the bare URLs of the parsed events (see [`linkify_from`]).
pub fn linkify_bare_urls(evs: &Vec<Spanned>) -> (r: Vec<LEvent>)
    ensures
        levents_view(r@) == linkify_from(spans_view(evs@), 0, 0, None),
{
    let ghost ev = spans_view(evs@);
    let mut out: Vec<LEvent> = Vec::new();
    let mut depth: usize = 0;
    let mut pending: Option<(Vec<char>, usize, usize)> = None;
    let mut i: usize = 0;
    while i < evs.len()
        invariant
            ev == spans_view(evs@),
            i <= evs@.len(),
            depth <= i,
            levents_view(out@) + linkify_from(ev, i as int, depth as nat, pending_view(pending))
                == linkify_from(ev, 0, 0, None),
        decreases evs@.len() - i,
    {
        let e = &evs[i];
        assert(ev[i as int] == e@);
        let is_text = match &e.ev {
            MdEvent::Text(_) => true,
            _ => false,
        };
        if is_text && depth == 0 {
            let t = match &e.ev {
                MdEvent::Text(t) => t,
                _ => { assert(false); return out; },
            };
            let tv = chars_of(t.as_str());
            pending = match pending {
                Some((mut b, s, en)) => {
                    let ghost b0 = b@;
                    let mut q: usize = 0;
                    while q < tv.len()
                        invariant
                            q <= tv@.len(),
                            b@ == b0 + tv@.take(q as int),
                        decreases tv@.len() - q,
                    {
                        b.push(tv[q]);
                        assert(tv@.take(q + 1) =~= tv@.take(q as int).push(tv@[q as int]));
                        q = q + 1;
                    }
                    assert(tv@.take(q as int) =~= tv@);
                    Some((b, s, en))
                },
                None => Some((tv, e.start, e.end)),
            };
        } else {
            let ghost before = levents_view(out@);
            match pending {
                Some((b, s, en)) => flush_text(&mut out, &b, s, en),
                None => {},
            }
            let ghost mid = levents_view(out@);
            out.push(LEvent { ev: copy_event(&e.ev), start: e.start, end: e.end, piece: Piece::Keep(i) });
            pending = None;
            assert(levents_view(out@) =~= mid.push(LView { ev: e.ev@, start: e.start as int, end: e.end as int, piece: PieceView::Keep(i) }));
            let opens = match &e.ev {
                MdEvent::StartFenced(_) | MdEvent::StartIndented | MdEvent::StartLink(_) | MdEvent::StartImage(_) => true,
                _ => false,
            };
            let closes = match &e.ev {
                MdEvent::EndCodeBlock | MdEvent::EndLink | MdEvent::EndImage => true,
                _ => false,
            };
            if opens {
                depth = depth + 1;
            } else if closes {
                depth = if depth > 0 { depth - 1 } else { 0 };
            }
        }
        i = i + 1;
    }
    match pending {
        Some((b, s, en)) => flush_text(&mut out, &b, s, en),
        None => {},
    }
    out
}


// ── rewriting the event stream ──────────────────────────────────────────────

/// The class of an alert block quote.
pub open spec fn alert_class_spec(k: Alert) -> Seq<char> {
    match k {
        Alert::Note => "markdown-alert-note"@,
        Alert::Tip => "markdown-alert-tip"@,
        Alert::Important => "markdown-alert-important"@,
        Alert::Warning => "markdown-alert-warning"@,
        Alert::Caution => "markdown-alert-caution"@,
    }
}

/// The title of an alert.
pub open spec fn alert_label_spec(k: Alert) -> Seq<char> {
    match k {
        Alert::Note => "Note"@,
        Alert::Tip => "Tip"@,
        Alert::Important => "Important"@,
        Alert::Warning => "Warning"@,
        Alert::Caution => "Caution"@,
    }
}

/// The icon of an alert (an inline SVG).
pub open spec fn alert_icon_spec(k: Alert) -> Seq<char> {
    match k {
        Alert::Note => "<svg viewBox=\"0 0 16 16\" width=\"16\" height=\"16\" fill=\"currentColor\" aria-hidden=\"true\"><path d=\"M0 8a8 8 0 1 1 16 0A8 8 0 0 1 0 8Zm8-6.5a6.5 6.5 0 1 0 0 13 6.5 6.5 0 0 0 0-13ZM6.5 7.75A.75.75 0 0 1 7.25 7h1a.75.75 0 0 1 .75.75v2.75h.25a.75.75 0 0 1 0 1.5h-2a.75.75 0 0 1 0-1.5h.25v-2h-.25a.75.75 0 0 1-.75-.75ZM8 6a1 1 0 1 1 0-2 1 1 0 0 1 0 2Z\"/></svg>"@,
        Alert::Tip => "<svg viewBox=\"0 0 16 16\" width=\"16\" height=\"16\" fill=\"currentColor\" aria-hidden=\"true\"><path d=\"M8 1.5c-2.363 0-4 1.69-4 3.75 0 .984.424 1.625.984 2.304l.214.253c.223.264.47.556.673.848.284.411.537.896.621 1.49a.75.75 0 0 1-1.484.211c-.04-.282-.163-.547-.37-.847a8.456 8.456 0 0 0-.542-.68c-.084-.1-.173-.205-.268-.32C3.201 7.75 2.5 6.766 2.5 5.25 2.5 2.31 4.863 0 8 0s5.5 2.31 5.5 5.25c0 1.516-.701 2.5-1.328 3.259-.095.115-.184.22-.268.319-.207.245-.383.453-.541.681-.208.3-.33.565-.37.847a.751.751 0 0 1-1.485-.212c.084-.593.337-1.078.621-1.489.203-.292.45-.584.673-.848.075-.088.147-.173.213-.253.561-.679.985-1.32.985-2.304 0-2.06-1.637-3.75-4-3.75ZM5.75 12h4.5a.75.75 0 0 1 0 1.5h-4.5a.75.75 0 0 1 0-1.5ZM6 15.25a.75.75 0 0 1 .75-.75h2.5a.75.75 0 0 1 0 1.5h-2.5a.75.75 0 0 1-.75-.75Z\"/></svg>"@,
        Alert::Important => "<svg viewBox=\"0 0 16 16\" width=\"16\" height=\"16\" fill=\"currentColor\" aria-hidden=\"true\"><path d=\"M0 1.75C0 .784.784 0 1.75 0h12.5C15.216 0 16 .784 16 1.75v9.5A1.75 1.75 0 0 1 14.25 13H8.06l-2.573 2.573A1.458 1.458 0 0 1 3 14.543V13H1.75A1.75 1.75 0 0 1 0 11.25Zm1.75-.25a.25.25 0 0 0-.25.25v9.5c0 .138.112.25.25.25h2a.75.75 0 0 1 .75.75v2.19l2.72-2.72a.749.749 0 0 1 .53-.22h6.5a.25.25 0 0 0 .25-.25v-9.5a.25.25 0 0 0-.25-.25Zm7 2.25v2.5a.75.75 0 0 1-1.5 0v-2.5a.75.75 0 0 1 1.5 0ZM9 9a1 1 0 1 1-2 0 1 1 0 0 1 2 0Z\"/></svg>"@,
        Alert::Warning => "<svg viewBox=\"0 0 16 16\" width=\"16\" height=\"16\" fill=\"currentColor\" aria-hidden=\"true\"><path d=\"M6.457 1.047c.659-1.234 2.427-1.234 3.086 0l6.082 11.378A1.75 1.75 0 0 1 14.082 15H1.918a1.75 1.75 0 0 1-1.543-2.575Zm1.763.707a.25.25 0 0 0-.44 0L1.698 13.132a.25.25 0 0 0 .22.368h12.164a.25.25 0 0 0 .22-.368Zm.53 3.996v2.5a.75.75 0 0 1-1.5 0v-2.5a.75.75 0 0 1 1.5 0ZM9 11a1 1 0 1 1-2 0 1 1 0 0 1 2 0Z\"/></svg>"@,
        Alert::Caution => "<svg viewBox=\"0 0 16 16\" width=\"16\" height=\"16\" fill=\"currentColor\" aria-hidden=\"true\"><path d=\"M4.47.22A.749.749 0 0 1 5 0h6c.199 0 .389.079.53.22l4.25 4.25c.141.14.22.331.22.53v6a.749.749 0 0 1-.22.53l-4.25 4.25A.749.749 0 0 1 11 16H5a.749.749 0 0 1-.53-.22L.22 11.53A.749.749 0 0 1 0 11V5c0-.199.079-.389.22-.53Zm.84 1.28L1.5 5.31v5.38l3.81 3.81h5.38l3.81-3.81V5.31L10.69 1.5ZM8 4a.75.75 0 0 1 .75.75v3.5a.75.75 0 0 1-1.5 0v-3.5A.75.75 0 0 1 8 4Zm0 8a1 1 0 1 1 0-2 1 1 0 0 1 0 2Z\"/></svg>"@,
    }
}

/// The class of an alert block quote.
pub fn alert_class(k: Alert) -> (r: &'static str)
    ensures
        r@ == alert_class_spec(k),
{
    match k {
        Alert::Note => "markdown-alert-note",
        Alert::Tip => "markdown-alert-tip",
        Alert::Important => "markdown-alert-important",
        Alert::Warning => "markdown-alert-warning",
        Alert::Caution => "markdown-alert-caution",
    }
}

/// The title and icon of an alert.
pub fn alert_meta(k: Alert) -> (r: (&'static str, &'static str))
    ensures
        r.0@ == alert_label_spec(k),
        r.1@ == alert_icon_spec(k),
{
    match k {
        Alert::Note => ("Note", "<svg viewBox=\"0 0 16 16\" width=\"16\" height=\"16\" fill=\"currentColor\" aria-hidden=\"true\"><path d=\"M0 8a8 8 0 1 1 16 0A8 8 0 0 1 0 8Zm8-6.5a6.5 6.5 0 1 0 0 13 6.5 6.5 0 0 0 0-13ZM6.5 7.75A.75.75 0 0 1 7.25 7h1a.75.75 0 0 1 .75.75v2.75h.25a.75.75 0 0 1 0 1.5h-2a.75.75 0 0 1 0-1.5h.25v-2h-.25a.75.75 0 0 1-.75-.75ZM8 6a1 1 0 1 1 0-2 1 1 0 0 1 0 2Z\"/></svg>"),
        Alert::Tip => ("Tip", "<svg viewBox=\"0 0 16 16\" width=\"16\" height=\"16\" fill=\"currentColor\" aria-hidden=\"true\"><path d=\"M8 1.5c-2.363 0-4 1.69-4 3.75 0 .984.424 1.625.984 2.304l.214.253c.223.264.47.556.673.848.284.411.537.896.621 1.49a.75.75 0 0 1-1.484.211c-.04-.282-.163-.547-.37-.847a8.456 8.456 0 0 0-.542-.68c-.084-.1-.173-.205-.268-.32C3.201 7.75 2.5 6.766 2.5 5.25 2.5 2.31 4.863 0 8 0s5.5 2.31 5.5 5.25c0 1.516-.701 2.5-1.328 3.259-.095.115-.184.22-.268.319-.207.245-.383.453-.541.681-.208.3-.33.565-.37.847a.751.751 0 0 1-1.485-.212c.084-.593.337-1.078.621-1.489.203-.292.45-.584.673-.848.075-.088.147-.173.213-.253.561-.679.985-1.32.985-2.304 0-2.06-1.637-3.75-4-3.75ZM5.75 12h4.5a.75.75 0 0 1 0 1.5h-4.5a.75.75 0 0 1 0-1.5ZM6 15.25a.75.75 0 0 1 .75-.75h2.5a.75.75 0 0 1 0 1.5h-2.5a.75.75 0 0 1-.75-.75Z\"/></svg>"),
        Alert::Important => ("Important", "<svg viewBox=\"0 0 16 16\" width=\"16\" height=\"16\" fill=\"currentColor\" aria-hidden=\"true\"><path d=\"M0 1.75C0 .784.784 0 1.75 0h12.5C15.216 0 16 .784 16 1.75v9.5A1.75 1.75 0 0 1 14.25 13H8.06l-2.573 2.573A1.458 1.458 0 0 1 3 14.543V13H1.75A1.75 1.75 0 0 1 0 11.25Zm1.75-.25a.25.25 0 0 0-.25.25v9.5c0 .138.112.25.25.25h2a.75.75 0 0 1 .75.75v2.19l2.72-2.72a.749.749 0 0 1 .53-.22h6.5a.25.25 0 0 0 .25-.25v-9.5a.25.25 0 0 0-.25-.25Zm7 2.25v2.5a.75.75 0 0 1-1.5 0v-2.5a.75.75 0 0 1 1.5 0ZM9 9a1 1 0 1 1-2 0 1 1 0 0 1 2 0Z\"/></svg>"),
        Alert::Warning => ("Warning", "<svg viewBox=\"0 0 16 16\" width=\"16\" height=\"16\" fill=\"currentColor\" aria-hidden=\"true\"><path d=\"M6.457 1.047c.659-1.234 2.427-1.234 3.086 0l6.082 11.378A1.75 1.75 0 0 1 14.082 15H1.918a1.75 1.75 0 0 1-1.543-2.575Zm1.763.707a.25.25 0 0 0-.44 0L1.698 13.132a.25.25 0 0 0 .22.368h12.164a.25.25 0 0 0 .22-.368Zm.53 3.996v2.5a.75.75 0 0 1-1.5 0v-2.5a.75.75 0 0 1 1.5 0ZM9 11a1 1 0 1 1-2 0 1 1 0 0 1 2 0Z\"/></svg>"),
        Alert::Caution => ("Caution", "<svg viewBox=\"0 0 16 16\" width=\"16\" height=\"16\" fill=\"currentColor\" aria-hidden=\"true\"><path d=\"M4.47.22A.749.749 0 0 1 5 0h6c.199 0 .389.079.53.22l4.25 4.25c.141.14.22.331.22.53v6a.749.749 0 0 1-.22.53l-4.25 4.25A.749.749 0 0 1 11 16H5a.749.749 0 0 1-.53-.22L.22 11.53A.749.749 0 0 1 0 11V5c0-.199.079-.389.22-.53Zm.84 1.28L1.5 5.31v5.38l3.81 3.81h5.38l3.81-3.81V5.31L10.69 1.5ZM8 4a.75.75 0 0 1 .75.75v3.5a.75.75 0 0 1-1.5 0v-3.5A.75.75 0 0 1 8 4Zm0 8a1 1 0 1 1 0-2 1 1 0 0 1 0 2Z\"/></svg>"),
    }
}

/// An alert's class names the same kind as its title: `markdown-alert-` and the title in
/// lower case (`note`, `tip`, `important`, `warning`, `caution`). So two kinds never share
/// a class or a title, and an alert is styled as the kind its title announces.
pub proof fn alert_class_names_the_title(k: Alert, j: Alert)
    ensures
        alert_class_spec(k) == "markdown-alert-"@ + crate::paths::ascii_lower(alert_label_spec(k)),
        k != j ==> alert_class_spec(k) != alert_class_spec(j),
        k != j ==> alert_label_spec(k) != alert_label_spec(j),
{
    reveal_strlit("markdown-alert-");
    reveal_strlit("markdown-alert-note");
    reveal_strlit("markdown-alert-tip");
    reveal_strlit("markdown-alert-important");
    reveal_strlit("markdown-alert-warning");
    reveal_strlit("markdown-alert-caution");
    reveal_strlit("Note");
    reveal_strlit("Tip");
    reveal_strlit("Important");
    reveal_strlit("Warning");
    reveal_strlit("Caution");
    assert(alert_class_spec(k) =~= "markdown-alert-"@ + crate::paths::ascii_lower(alert_label_spec(k)));
    if k != j {
        let a = alert_label_spec(k);
        let b = alert_label_spec(j);
        assert(a.len() != b.len() || a[0] != b[0]);
        assert(a != b);
        let ca = alert_class_spec(k);
        let cb = alert_class_spec(j);
        assert(ca.len() != cb.len() || ca[15] != cb[15]);
        assert(ca != cb);
    }
}

/// The title bar of an alert.
pub open spec fn alert_title(k: Alert) -> Seq<char> {
    "<div class=\"markdown-alert-title\">"@ + alert_icon_spec(k) + "<span>"@ + alert_label_spec(k) + "</span></div>"@
}

/// First index from `i` on whose event ends a paragraph, else the length.
pub open spec fn para_end(ls: Seq<LView>, i: int) -> int
    decreases ls.len() - i,
{
    if i < 0 || i >= ls.len() {
        ls.len() as int
    } else if ls[i].ev is EndParagraph {
        i
    } else {
        para_end(ls, i + 1)
    }
}

/// First index from `i` on whose event ends a code block, else the length.
pub open spec fn code_end(ls: Seq<LView>, i: int) -> int
    decreases ls.len() - i,
{
    if i < 0 || i >= ls.len() {
        ls.len() as int
    } else if ls[i].ev is EndCodeBlock {
        i
    } else {
        code_end(ls, i + 1)
    }
}

/// The texts of `ls[i..j]`, joined.
pub open spec fn code_text(ls: Seq<LView>, i: int, j: int) -> Seq<char>
    decreases j - i,
{
    if i < 0 || i >= j || i >= ls.len() {
        seq![]
    } else {
        (match ls[i].ev {
            Ev::Text(t) => t,
            _ => seq![],
        }) + code_text(ls, i + 1, j)
    }
}

/// The index after `j`, kept inside `0..=len`.
pub open spec fn after(len: int, j: int) -> int {
    if j < len { j + 1 } else { len }
}

/// Whether `p` occurs anywhere in `h`.
pub open spec fn contains(h: Seq<char>, p: Seq<char>) -> bool {
    exists|k: int| occurs_at(h, k, p)
}

/// A mermaid diagram.
pub open spec fn mermaid_html(a: Seq<char>, content: Seq<char>) -> Seq<char> {
    "<pre class=\"mermaid\""@ + a + ">"@ + crate::html::html_escape_spec(content) + "</pre>"@
}

/// A draw.io diagram: the viewer configuration with the diagram XML (trimmed) as a JSON
/// string, in a `data-mxgraph` attribute.
pub open spec fn drawio_html(a: Seq<char>, content: Seq<char>) -> Seq<char> {
    let config = "{\"highlight\":\"#0066cc\",\"nav\":true,\"resize\":true,\"lightbox\":true,\"toolbar\":\"lightbox\",\"xml\":"@
        + crate::html::json_string_spec(trim(content)) + "}"@;
    "<div class=\"drawio-wrap\""@ + a + "><div class=\"mxgraph\" data-mxgraph=\""@ + crate::html::attr_escape_spec(config)
        + "\"></div></div>"@
}

/// A code block with a file name bar.
pub open spec fn named_code_html(a: Seq<char>, lang: Seq<char>, fname: Seq<char>, content: Seq<char>) -> Seq<char> {
    let lang_class = if lang.len() == 0 {
        seq![]
    } else {
        " class=\"language-"@ + crate::html::attr_escape_spec(lang) + "\""@
    };
    "<div class=\"code-wrapper has-filename\""@ + a + "><div class=\"code-filename\">"@ + crate::html::html_escape_spec(fname)
        + "</div><pre><code"@ + lang_class + ">"@ + crate::html::html_escape_spec(content) + "</code></pre></div>"@
}

/// The language of a fenced block's info string: the text before the first `:`, trimmed.
pub open spec fn info_lang(info: Seq<char>) -> Seq<char> {
    match crate::text::first_index_of(info, ':') {
        Some(k) => trim(info.subrange(0, k)),
        None => trim(info),
    }
}

/// The file name of a fenced block's info string: the text after the first `:`, trimmed.
pub open spec fn info_name(info: Seq<char>) -> Option<Seq<char>> {
    match crate::text::first_index_of(info, ':') {
        Some(k) => Some(trim(info.subrange(k + 1, info.len() as int))),
        None => None,
    }
}

/// One step of the rewriting at a fenced code block `ls[i]` with info string `info`:
/// mermaid and draw.io diagrams and named blocks consume the block up to its end and
/// become one piece of HTML; other blocks are wrapped in a `code-wrapper` div that their
/// end closes.
pub open spec fn fenced_step(ls: Seq<LView>, i: int, info: Seq<char>, a: Seq<char>) -> (Seq<PieceView>, int, bool) {
    let lang = info_lang(info);
    let j = code_end(ls, i + 1);
    let content = code_text(ls, i + 1, j);
    let nxt = after(ls.len() as int, j);
    if lang == "mermaid"@ {
        (seq![PieceView::Html(mermaid_html(a, content))], nxt, false)
    } else if lang == "drawio"@ {
        (seq![PieceView::Html(drawio_html(a, content))], nxt, false)
    } else if info_name(info) is Some && info_name(info).unwrap().len() > 0 {
        (seq![PieceView::Html(named_code_html(a, lang, info_name(info).unwrap(), content))], nxt, false)
    } else {
        (seq![PieceView::Html("<div class=\"code-wrapper\""@ + a + ">"@), ls[i].piece], i + 1, true)
    }
}

/// One step of the rewriting at a paragraph `ls[i]`: its events up to its end, replaced by
/// an embed when [`crate::embed::embed_spec`] gives one (only with `files`), else written
/// out between `<p ..>` and the paragraph's end.
pub open spec fn paragraph_step(ls: Seq<LView>, i: int, src: Seq<char>, base: int, files: Option<Seq<crate::embed::EmbedFileView>>) -> (Seq<PieceView>, int) {
    let e = ls[i];
    let a = src_attrs_spec(src, base, e.start, e.end);
    let j = para_end(ls, i + 1);
    let buf = ls.subrange(i + 1, j);
    let nxt = after(ls.len() as int, j);
    let emb = match files {
        Some(f) => crate::embed::embed_spec(buf, a, line_at(src, base, e.start) as nat, f),
        None => None,
    };
    match emb {
        Some(h) => (seq![PieceView::Html(h)], nxt),
        None => (seq![PieceView::Html("<p"@ + a + ">"@)] + buf.map_values(|x: LView| x.piece) + seq![PieceView::ParagraphEnd], nxt),
    }
}

/// One step of the rewriting at `ls[i]`, with a code wrapper `open` or not: the pieces it
/// writes, where it continues, and whether a code wrapper is open afterwards. Block
/// openings get [`src_attrs_spec`] of their range; a paragraph is collected to its end and
/// replaced by an embed when [`crate::embed::embed_spec`] gives one (only with `files`);
/// raw HTML holding `<details` or `<summary` gets [`inject_from`].
pub open spec fn step_spec(ls: Seq<LView>, i: int, open: bool, src: Seq<char>, base: int, files: Option<Seq<crate::embed::EmbedFileView>>) -> (Seq<PieceView>, int, bool) {
    let e = ls[i];
    let a = src_attrs_spec(src, base, e.start, e.end);
    match e.ev {
        Ev::StartHeading(l) => (seq![PieceView::Html("<h"@ + dec(l as nat) + a + ">"@)], i + 1, open),
        Ev::StartParagraph => {
            let (p, n) = paragraph_step(ls, i, src, base, files);
            (p, n, open)
        },
        Ev::StartItem => (seq![PieceView::Html("<li"@ + a + ">"@)], i + 1, open),
        Ev::StartQuote(k) => match k {
            Some(k) => (seq![
                PieceView::Html("<blockquote class=\""@ + alert_class_spec(k) + "\""@ + a + ">\n"@),
                PieceView::Html(alert_title(k)),
            ], i + 1, open),
            None => (seq![PieceView::Html("<blockquote"@ + a + ">\n"@)], i + 1, open),
        },
        Ev::StartFenced(info) => {
            let (p, n, o) = fenced_step(ls, i, info, a);
            (p, n, if o { true } else { open })
        },
        Ev::StartIndented => (seq![PieceView::Html("<div class=\"code-wrapper\""@ + a + ">"@), e.piece], i + 1, true),
        Ev::EndCodeBlock => (seq![e.piece] + (if open { seq![PieceView::Html("</div>"@)] } else { seq![] }), i + 1, false),
        Ev::StartTable => (seq![PieceView::Html("<div class=\"table-wrap\""@ + a + ">"@), e.piece], i + 1, open),
        Ev::EndTable => (seq![e.piece, PieceView::Html("</div>"@)], i + 1, open),
        Ev::Html(h) => if contains(h, "<details"@) || contains(h, "<summary"@) {
            (seq![PieceView::Html(inject_from(h, 0, src, base, e.start))], i + 1, open)
        } else {
            (seq![e.piece], i + 1, open)
        },
        _ => (seq![e.piece], i + 1, open),
    }
}

/// The pieces written for `ls[i..]`.
pub open spec fn transform_from(ls: Seq<LView>, i: int, open: bool, src: Seq<char>, base: int, files: Option<Seq<crate::embed::EmbedFileView>>) -> Seq<PieceView>
    decreases ls.len() - i,
{
    if i < 0 || i >= ls.len() {
        seq![]
    } else {
        let (p, n, o) = step_spec(ls, i, open, src, base, files);
        if i < n <= ls.len() {
            p + transform_from(ls, n, o, src, base, files)
        } else {
            p
        }
    }
}


/// The files the application read, as the specification reads them.
pub open spec fn opt_files_view(files: Option<&Vec<crate::embed::EmbedFile>>) -> Option<Seq<crate::embed::EmbedFileView>> {
    match files {
        Some(f) => Some(crate::embed::files_view(f@)),
        None => None,
    }
}

proof fn lemma_para_end(ls: Seq<LView>, i: int)
    requires
        0 <= i <= ls.len(),
    ensures
        i <= para_end(ls, i) <= ls.len(),
        forall|k: int| i <= k < para_end(ls, i) ==> !((#[trigger] ls[k]).ev is EndParagraph),
        para_end(ls, i) < ls.len() ==> ls[para_end(ls, i)].ev is EndParagraph,
    decreases ls.len() - i,
{
    if i < ls.len() && !(ls[i].ev is EndParagraph) {
        lemma_para_end(ls, i + 1);
    }
}

proof fn lemma_code_end(ls: Seq<LView>, i: int)
    requires
        0 <= i <= ls.len(),
    ensures
        i <= code_end(ls, i) <= ls.len(),
        forall|k: int| i <= k < code_end(ls, i) ==> !((#[trigger] ls[k]).ev is EndCodeBlock),
        code_end(ls, i) < ls.len() ==> ls[code_end(ls, i)].ev is EndCodeBlock,
    decreases ls.len() - i,
{
    if i < ls.len() && !(ls[i].ev is EndCodeBlock) {
        lemma_code_end(ls, i + 1);
    }
}

/// A copy of a piece.
pub fn copy_piece(p: &Piece) -> (r: Piece)
    ensures
        r@ == p@,
{
    match p {
        Piece::Keep(i) => Piece::Keep(*i),
        Piece::Html(x) => Piece::Html(x.clone()),
        Piece::Text(x) => Piece::Text(x.clone()),
        Piece::LinkStart(x) => Piece::LinkStart(x.clone()),
        Piece::LinkEnd => Piece::LinkEnd,
        Piece::ParagraphEnd => Piece::ParagraphEnd,
        Piece::Retarget(i, x) => Piece::Retarget(*i, x.clone()),
    }
}

fn find_para_end(ls: &Vec<LEvent>, i: usize) -> (r: usize)
    requires
        i <= ls@.len(),
    ensures
        r as int == para_end(levents_view(ls@), i as int),
        i <= r <= ls@.len(),
{
    let ghost lv = levents_view(ls@);
    let mut j = i;
    while j < ls.len()
        invariant
            i <= j <= ls@.len(),
            lv == levents_view(ls@),
            para_end(lv, j as int) == para_end(lv, i as int),
        decreases ls@.len() - j,
    {
        assert(lv[j as int] == ls@[j as int]@);
        match ls[j].ev {
            MdEvent::EndParagraph => return j,
            _ => {},
        }
        j = j + 1;
    }
    j
}

fn find_code_end(ls: &Vec<LEvent>, i: usize) -> (r: usize)
    requires
        i <= ls@.len(),
    ensures
        r as int == code_end(levents_view(ls@), i as int),
        i <= r <= ls@.len(),
{
    let ghost lv = levents_view(ls@);
    let mut j = i;
    while j < ls.len()
        invariant
            i <= j <= ls@.len(),
            lv == levents_view(ls@),
            code_end(lv, j as int) == code_end(lv, i as int),
        decreases ls@.len() - j,
    {
        assert(lv[j as int] == ls@[j as int]@);
        match ls[j].ev {
            MdEvent::EndCodeBlock => return j,
            _ => {},
        }
        j = j + 1;
    }
    j
}

fn collect_code_text(ls: &Vec<LEvent>, i: usize, j: usize) -> (r: Vec<char>)
    requires
        i <= j <= ls@.len(),
    ensures
        r@ == code_text(levents_view(ls@), i as int, j as int),
{
    let ghost lv = levents_view(ls@);
    let mut r: Vec<char> = Vec::new();
    let mut k = j;
    while k > i
        invariant
            i <= k <= j,
            j <= ls@.len(),
            lv == levents_view(ls@),
            r@ == code_text(lv, k as int, j as int),
        decreases k,
    {
        k = k - 1;
        assert(lv[k as int] == ls@[k as int]@);
        match &ls[k].ev {
            MdEvent::Text(t) => {
                let tv = chars_of(t.as_str());
                let mut nr = tv;
                let ghost rv = r@;
                let mut q: usize = 0;
                let ghost nv = nr@;
                while q < r.len()
                    invariant
                        q <= rv.len(),
                        r@ == rv,
                        nr@ == nv + rv.take(q as int),
                    decreases rv.len() - q,
                {
                    nr.push(r[q]);
                    assert(rv.take(q + 1) =~= rv.take(q as int).push(rv[q as int]));
                    q = q + 1;
                }
                assert(rv.take(q as int) =~= rv);
                r = nr;
            },
            _ => {
                assert(code_text(lv, k as int, j as int) =~= code_text(lv, k + 1, j as int));
            },
        }
    }
    r
}

/// Whether `p` occurs in `h`.
fn contains_chars(h: &Vec<char>, p: &str) -> (r: bool)
    requires
        p@.len() > 0,
    ensures
        r == contains(h@, p@),
{
    let mut k: usize = 0;
    while k < h.len()
        invariant
            k <= h@.len(),
            p@.len() > 0,
            forall|q: int| 0 <= q < k ==> !occurs_at(h@, q, p@),
        decreases h@.len() - k,
    {
        if chars_match(h, k, p) {
            assert(occurs_at(h@, k as int, p@));
            return true;
        }
        k = k + 1;
    }
    false
}


fn step_paragraph(out: &mut Vec<Piece>, ls: &Vec<LEvent>, i: usize, idx: &LineIndex, files: Option<&Vec<crate::embed::EmbedFile>>) -> (n: usize)
    requires
        i < ls@.len(),
        idx.wf(),
    ensures
        pieces_view(final(out)@) == pieces_view(old(out)@) + paragraph_step(levents_view(ls@), i as int, idx.text(), idx.base_line(), opt_files_view(files)).0,
        n as int == paragraph_step(levents_view(ls@), i as int, idx.text(), idx.base_line(), opt_files_view(files)).1,
        i < n <= ls@.len(),
{
    let ghost lv = levents_view(ls@);
    let ghost o0 = pieces_view(out@);
    let len = ls.len();
    let e = &ls[i];
    assert(lv[i as int] == e@);
    let j = find_para_end(ls, i + 1);
    let a = src_attrs(idx, e.start, e.end);
    let nxt = if j < ls.len() { j + 1 } else { ls.len() };
    let buf = vstd::slice::slice_subrange(ls.as_slice(), i + 1, j);
    assert(buf@.map_values(|x: LEvent| x@) =~= lv.subrange(i + 1, j as int));
    let emb = match files {
        Some(f) => crate::embed::try_embed(buf, a.as_str(), idx.line(e.start), f),
        None => None,
    };
    match emb {
        Some(h) => {
            out.push(Piece::Html(h));
            assert(pieces_view(out@) =~= o0 + paragraph_step(lv, i as int, idx.text(), idx.base_line(), opt_files_view(files)).0);
        },
        None => {
            let mut open_tag = String::new();
            push_str(&mut open_tag, "<p");
            push_str(&mut open_tag, a.as_str());
            push_str(&mut open_tag, ">");
            let ghost b0 = out@;
            out.push(Piece::Html(open_tag));
            assert(pieces_view(out@) =~= pieces_view(b0).push(PieceView::Html("<p"@ + a@ + ">"@)));
            let ghost o1 = pieces_view(out@);
            let mut k = i + 1;
            while k < j
                invariant
                    i + 1 <= k <= j,
                    j <= ls@.len(),
                    lv == levents_view(ls@),
                    pieces_view(out@) == o1 + lv.subrange(i + 1, k as int).map_values(|x: LView| x.piece),
                decreases j - k,
            {
                assert(lv[k as int] == ls@[k as int]@);
                let ghost before = out@;
                let pc = copy_piece(&ls[k].piece);
                out.push(pc);
                assert(pieces_view(out@) =~= pieces_view(before).push(lv[k as int].piece));
                assert(lv.subrange(i + 1, k + 1).map_values(|x: LView| x.piece)
                    =~= lv.subrange(i + 1, k as int).map_values(|x: LView| x.piece).push(lv[k as int].piece));
                assert(pieces_view(out@) =~= o1 + lv.subrange(i + 1, k + 1).map_values(|x: LView| x.piece));
                k = k + 1;
            }
            let ghost before = out@;
            out.push(Piece::ParagraphEnd);
            assert(pieces_view(out@) =~= pieces_view(before).push(PieceView::ParagraphEnd));
            assert(pieces_view(out@) =~= o0 + paragraph_step(lv, i as int, idx.text(), idx.base_line(), opt_files_view(files)).0);
        },
    }
    nxt
}


fn make_mermaid(a: &str, content: &[char]) -> (r: String)
    ensures
        r@ == mermaid_html(a@, content@),
{
    let mut h = String::new();
    push_str(&mut h, "<pre class=\"mermaid\"");
    push_str(&mut h, a);
    push_str(&mut h, ">");
    crate::html::push_html_escaped(&mut h, content);
    push_str(&mut h, "</pre>");
    assert(h@ =~= mermaid_html(a@, content@));
    h
}

fn make_drawio(a: &str, content: &[char]) -> (r: String)
    ensures
        r@ == drawio_html(a@, content@),
{
    let mut config = String::new();
    push_str(&mut config, "{\"highlight\":\"#0066cc\",\"nav\":true,\"resize\":true,\"lightbox\":true,\"toolbar\":\"lightbox\",\"xml\":");
    let t = trimmed(content);
    crate::html::push_json_string(&mut config, t.as_slice());
    push_str(&mut config, "}");
    let cv = chars_of(config.as_str());
    let mut h = String::new();
    push_str(&mut h, "<div class=\"drawio-wrap\"");
    push_str(&mut h, a);
    push_str(&mut h, "><div class=\"mxgraph\" data-mxgraph=\"");
    crate::html::push_attr_escaped(&mut h, cv.as_slice());
    push_str(&mut h, "\"></div></div>");
    assert(h@ =~= drawio_html(a@, content@));
    h
}

fn make_named_code(a: &str, lang: &[char], fname: &[char], content: &[char]) -> (r: String)
    ensures
        r@ == named_code_html(a@, lang@, fname@, content@),
{
    let mut h = String::new();
    push_str(&mut h, "<div class=\"code-wrapper has-filename\"");
    push_str(&mut h, a);
    push_str(&mut h, "><div class=\"code-filename\">");
    crate::html::push_html_escaped(&mut h, fname);
    push_str(&mut h, "</div><pre><code");
    if lang.len() > 0 {
        push_str(&mut h, " class=\"language-");
        crate::html::push_attr_escaped(&mut h, lang);
        push_str(&mut h, "\"");
    }
    push_str(&mut h, ">");
    crate::html::push_html_escaped(&mut h, content);
    push_str(&mut h, "</code></pre></div>");
    assert(h@ =~= named_code_html(a@, lang@, fname@, content@));
    h
}

fn push_piece(out: &mut Vec<Piece>, p: Piece)
    ensures
        pieces_view(final(out)@) == pieces_view(old(out)@).push(p@),
{
    out.push(p);
    assert(pieces_view(out@) =~= pieces_view(old(out)@).push(p@));
}

fn html_piece(parts: &[&str]) -> (r: Piece)
    ensures
        r@ == PieceView::Html(concat_strs(parts@)),
{
    let mut h = String::new();
    let mut k: usize = 0;
    assert(parts@.take(0) =~= Seq::<&str>::empty());
    while k < parts.len()
        invariant
            k <= parts@.len(),
            h@ == concat_strs(parts@.take(k as int)),
        decreases parts@.len() - k,
    {
        push_str(&mut h, parts[k]);
        assert(parts@.take(k + 1).drop_last() =~= parts@.take(k as int));
        k = k + 1;
    }
    assert(parts@.take(k as int) =~= parts@);
    Piece::Html(h)
}

/// The texts of `parts`, joined.
pub open spec fn concat_strs(parts: Seq<&str>) -> Seq<char>
    decreases parts.len(),
{
    if parts.len() == 0 {
        seq![]
    } else {
        concat_strs(parts.drop_last()) + parts.last()@
    }
}

fn step_fenced(out: &mut Vec<Piece>, ls: &Vec<LEvent>, i: usize, info: &String, a: &String) -> (r: (usize, bool))
    requires
        i < ls@.len(),
    ensures
        pieces_view(final(out)@) == pieces_view(old(out)@) + fenced_step(levents_view(ls@), i as int, info@, a@).0,
        r.0 as int == fenced_step(levents_view(ls@), i as int, info@, a@).1,
        r.1 == fenced_step(levents_view(ls@), i as int, info@, a@).2,
        i < r.0 <= ls@.len(),
{
    let ghost lv = levents_view(ls@);
    let ghost o0 = pieces_view(out@);
    let len = ls.len();
    let iv = chars_of(info.as_str());
    let ivl = iv.len();
    let (lang, fname) = match crate::text::find_char(iv.as_slice(), ':') {
        Some(k) => (
            trimmed(vstd::slice::slice_subrange(iv.as_slice(), 0, k)),
            Some(trimmed(vstd::slice::slice_subrange(iv.as_slice(), k + 1, ivl))),
        ),
        None => (trimmed(iv.as_slice()), None),
    };
    assert(lang@ == info_lang(info@));
    assert(match fname { Some(f) => info_name(info@) == Some(f@), None => info_name(info@) is None });
    let j = find_code_end(ls, i + 1);
    let nxt = if j < len { j + 1 } else { len };
    if crate::text::chars_eq_str(lang.as_slice(), "mermaid") {
        let content = collect_code_text(ls, i + 1, j);
        push_piece(out, Piece::Html(make_mermaid(a.as_str(), content.as_slice())));
        return (nxt, false);
    }
    if crate::text::chars_eq_str(lang.as_slice(), "drawio") {
        let content = collect_code_text(ls, i + 1, j);
        push_piece(out, Piece::Html(make_drawio(a.as_str(), content.as_slice())));
        return (nxt, false);
    }
    match &fname {
        Some(f) => {
            if f.len() > 0 {
                let content = collect_code_text(ls, i + 1, j);
                push_piece(out, Piece::Html(make_named_code(a.as_str(), lang.as_slice(), f.as_slice(), content.as_slice())));
                return (nxt, false);
            }
        },
        None => {},
    }
    let parts = [ "<div class=\"code-wrapper\"", a.as_str(), ">" ];
    push_piece(out, html_piece(&parts));
    proof {
        reveal_with_fuel(concat_strs, 4);
        assert(concat_strs(parts@) =~= "<div class=\"code-wrapper\""@ + a@ + ">"@);
    }
    assert(lv[i as int] == ls@[i as int]@);
    push_piece(out, copy_piece(&ls[i].piece));
    assert(pieces_view(out@) =~= o0 + fenced_step(lv, i as int, info@, a@).0);
    (i + 1, true)
}


fn html1(a: &str) -> (r: Piece)
    ensures
        r@ == PieceView::Html(a@),
{
    let mut h = String::new();
    push_str(&mut h, a);
    assert(h@ =~= a@);
    Piece::Html(h)
}

fn html3(a: &str, b: &str, c: &str) -> (r: Piece)
    ensures
        r@ == PieceView::Html(a@ + b@ + c@),
{
    let mut h = String::new();
    push_str(&mut h, a);
    push_str(&mut h, b);
    push_str(&mut h, c);
    Piece::Html(h)
}

/// One step of the rewriting (see [`step_spec`]).
#[verifier::rlimit(60)]
fn step(out: &mut Vec<Piece>, ls: &Vec<LEvent>, i: usize, open: bool, idx: &LineIndex, files: Option<&Vec<crate::embed::EmbedFile>>) -> (r: (usize, bool))
    requires
        i < ls@.len(),
        idx.wf(),
    ensures
        pieces_view(final(out)@) == pieces_view(old(out)@) + step_spec(levents_view(ls@), i as int, open, idx.text(), idx.base_line(), opt_files_view(files)).0,
        r.0 as int == step_spec(levents_view(ls@), i as int, open, idx.text(), idx.base_line(), opt_files_view(files)).1,
        r.1 == step_spec(levents_view(ls@), i as int, open, idx.text(), idx.base_line(), opt_files_view(files)).2,
        i < r.0 <= ls@.len(),
{
    let ghost lv = levents_view(ls@);
    let ghost o0 = pieces_view(out@);
    let ghost src = idx.text();
    let ghost base = idx.base_line();
    let len = ls.len();
    let e = &ls[i];
    assert(lv[i as int] == e@);
    match &e.ev {
        MdEvent::StartHeading(l) => {
            let a = src_attrs(idx, e.start, e.end);
            let mut h = String::new();
            push_str(&mut h, "<h");
            push_usize(&mut h, *l as usize);
            push_str(&mut h, a.as_str());
            push_str(&mut h, ">");
            push_piece(out, Piece::Html(h));
            assert(pieces_view(out@) =~= o0 + step_spec(lv, i as int, open, src, base, opt_files_view(files)).0);
            (i + 1, open)
        },
        MdEvent::StartParagraph => {
            let n = step_paragraph(out, ls, i, idx, files);
            assert(pieces_view(out@) =~= o0 + step_spec(lv, i as int, open, src, base, opt_files_view(files)).0);
            (n, open)
        },
        MdEvent::StartItem => {
            let a = src_attrs(idx, e.start, e.end);
            push_piece(out, html3("<li", a.as_str(), ">"));
            assert(pieces_view(out@) =~= o0 + step_spec(lv, i as int, open, src, base, opt_files_view(files)).0);
            (i + 1, open)
        },
        MdEvent::StartQuote(k) => {
            let a = src_attrs(idx, e.start, e.end);
            match k {
                Some(k) => {
                    let mut h = String::new();
                    push_str(&mut h, "<blockquote class=\"");
                    push_str(&mut h, alert_class(*k));
                    push_str(&mut h, "\"");
                    push_str(&mut h, a.as_str());
                    push_str(&mut h, ">\n");
                    push_piece(out, Piece::Html(h));
                    let (label, icon) = alert_meta(*k);
                    let mut t = String::new();
                    push_str(&mut t, "<div class=\"markdown-alert-title\">");
                    push_str(&mut t, icon);
                    push_str(&mut t, "<span>");
                    push_str(&mut t, label);
                    push_str(&mut t, "</span></div>");
                    push_piece(out, Piece::Html(t));
                },
                None => {
                    push_piece(out, html3("<blockquote", a.as_str(), ">\n"));
                },
            }
            assert(pieces_view(out@) =~= o0 + step_spec(lv, i as int, open, src, base, opt_files_view(files)).0);
            (i + 1, open)
        },
        MdEvent::StartFenced(info) => {
            let a = src_attrs(idx, e.start, e.end);
            let (n, o) = step_fenced(out, ls, i, info, &a);
            assert(pieces_view(out@) =~= o0 + step_spec(lv, i as int, open, src, base, opt_files_view(files)).0);
            (n, if o { true } else { open })
        },
        MdEvent::StartIndented => {
            let a = src_attrs(idx, e.start, e.end);
            push_piece(out, html3("<div class=\"code-wrapper\"", a.as_str(), ">"));
            push_piece(out, copy_piece(&e.piece));
            assert(pieces_view(out@) =~= o0 + step_spec(lv, i as int, open, src, base, opt_files_view(files)).0);
            (i + 1, true)
        },
        MdEvent::EndCodeBlock => {
            push_piece(out, copy_piece(&e.piece));
            if open {
                push_piece(out, html1("</div>"));
            }
            assert(pieces_view(out@) =~= o0 + step_spec(lv, i as int, open, src, base, opt_files_view(files)).0);
            (i + 1, false)
        },
        MdEvent::StartTable => {
            let a = src_attrs(idx, e.start, e.end);
            push_piece(out, html3("<div class=\"table-wrap\"", a.as_str(), ">"));
            push_piece(out, copy_piece(&e.piece));
            assert(pieces_view(out@) =~= o0 + step_spec(lv, i as int, open, src, base, opt_files_view(files)).0);
            (i + 1, open)
        },
        MdEvent::EndTable => {
            push_piece(out, copy_piece(&e.piece));
            push_piece(out, html1("</div>"));
            assert(pieces_view(out@) =~= o0 + step_spec(lv, i as int, open, src, base, opt_files_view(files)).0);
            (i + 1, open)
        },
        MdEvent::Html(h) => {
            let hv = chars_of(h.as_str());
            proof {
                reveal_strlit("<details");
                reveal_strlit("<summary");
            }
            if contains_chars(&hv, "<details") || contains_chars(&hv, "<summary") {
                push_piece(out, Piece::Html(inject_html_src_line(h.as_str(), e.start, idx)));
            } else {
                push_piece(out, copy_piece(&e.piece));
            }
            assert(pieces_view(out@) =~= o0 + step_spec(lv, i as int, open, src, base, opt_files_view(files)).0);
            (i + 1, open)
        },
        _ => {
            push_piece(out, copy_piece(&e.piece));
            assert(pieces_view(out@) =~= o0 + step_spec(lv, i as int, open, src, base, opt_files_view(files)).0);
            (i + 1, open)
        },
    }
}

/// Rewrites the linked events (see [`transform_from`]).
pub fn transform_events(ls: &Vec<LEvent>, idx: &LineIndex, files: Option<&Vec<crate::embed::EmbedFile>>) -> (r: Vec<Piece>)
    requires
        idx.wf(),
    ensures
        pieces_view(r@) == transform_from(levents_view(ls@), 0, false, idx.text(), idx.base_line(), opt_files_view(files)),
{
    let ghost lv = levents_view(ls@);
    let ghost src = idx.text();
    let ghost base = idx.base_line();
    let ghost fv = opt_files_view(files);
    let mut out: Vec<Piece> = Vec::new();
    let mut i: usize = 0;
    let mut open = false;
    while i < ls.len()
        invariant
            i <= ls@.len(),
            idx.wf(),
            lv == levents_view(ls@),
            src == idx.text(),
            base == idx.base_line(),
            fv == opt_files_view(files),
            pieces_view(out@) + transform_from(lv, i as int, open, src, base, fv) == transform_from(lv, 0, false, src, base, fv),
        decreases ls@.len() - i,
    {
        let ghost before = pieces_view(out@);
        let (n, o) = step(&mut out, ls, i, open, idx, files);
        assert(transform_from(lv, i as int, open, src, base, fv)
            == step_spec(lv, i as int, open, src, base, fv).0 + transform_from(lv, n as int, o, src, base, fv));
        assert(pieces_view(out@) + transform_from(lv, n as int, o, src, base, fv)
            =~= before + transform_from(lv, i as int, open, src, base, fv));
        i = n;
        open = o;
    }
    assert(pieces_view(out@) =~= pieces_view(out@) + transform_from(lv, i as int, open, src, base, fv));
    out
}


// ── the whole body ──────────────────────────────────────────────────────────

/// Whether a kept piece names one of `n` parsed events.
pub open spec fn keep_below(p: PieceView, n: int) -> bool {
    match p {
        PieceView::Keep(i) => i < n,
        PieceView::Retarget(i, _) => i < n,
        _ => true,
    }
}

/// Whether every kept piece of `ls` names one of `n` parsed events.
pub open spec fn lviews_keep_below(ls: Seq<LView>, n: int) -> bool {
    forall|k: int| 0 <= k < ls.len() ==> keep_below(#[trigger] ls[k].piece, n)
}

/// Whether every kept piece of `ps` names one of `n` parsed events.
pub open spec fn pieces_keep_below(ps: Seq<PieceView>, n: int) -> bool {
    forall|k: int| 0 <= k < ps.len() ==> keep_below(#[trigger] ps[k], n)
}

proof fn lemma_flush_spans_new(t: Seq<char>, spans: Seq<(int, int)>, k: int, cursor: int, s: int, e: int, n: int)
    ensures
        lviews_keep_below(flush_spans(t, spans, k, cursor, s, e), n),
    decreases spans.len() - k,
{
    if 0 <= k < spans.len() {
        lemma_flush_spans_new(t, spans, k + 1, spans[k].1, s, e, n);
        let r = flush_spans(t, spans, k, cursor, s, e);
        let (a, b) = spans[k];
        let head = (if a > cursor { seq![text_l(t.subrange(cursor, a), s, e)] } else { seq![] })
            + seq![link_start_l(t.subrange(a, b), s, e), text_l(t.subrange(a, b), s, e), link_end_l(s, e)];
        let rest = flush_spans(t, spans, k + 1, b, s, e);
        assert(r == head + rest);
        assert forall|q: int| 0 <= q < r.len() implies keep_below(#[trigger] r[q].piece, n) by {
            if q >= head.len() {
                assert(r[q] == rest[q - head.len()]);
            }
        }
    }
}

proof fn lemma_flush_new(p: Option<(Seq<char>, int, int)>, n: int)
    ensures
        lviews_keep_below(flush_spec(p), n),
{
    match p {
        None => {},
        Some((t, s, e)) => {
            if bare_urls_from(t, 0).len() != 0 {
                lemma_flush_spans_new(t, bare_urls_from(t, 0), 0, 0, s, e, n);
            }
        },
    }
}

/// Every kept piece after linking names a parsed event.
pub proof fn lemma_linkify_keeps(evs: Seq<SpannedView>, i: int, depth: nat, pending: Option<(Seq<char>, int, int)>)
    requires
        0 <= i,
        evs.len() <= usize::MAX,
    ensures
        lviews_keep_below(linkify_from(evs, i, depth, pending), evs.len() as int),
    decreases evs.len() - i,
{
    let n = evs.len() as int;
    if i >= evs.len() {
        lemma_flush_new(pending, n);
    } else {
        let e = evs[i];
        if e.ev is Text && depth == 0 {
            let t = e.ev->Text_0;
            let p2 = match pending {
                Some((b, s, en)) => Some((b + t, s, en)),
                None => Some((t, e.start, e.end)),
            };
            lemma_linkify_keeps(evs, i + 1, depth, p2);
        } else {
            lemma_flush_new(pending, n);
            lemma_linkify_keeps(evs, i + 1, next_depth(depth, e.ev), None);
            let f = flush_spec(pending);
            let mid = seq![LView { ev: e.ev, start: e.start, end: e.end, piece: PieceView::Keep(i as usize) }];
            let rest = linkify_from(evs, i + 1, next_depth(depth, e.ev), None);
            let r = linkify_from(evs, i, depth, pending);
            assert(r == f + mid + rest);
            assert forall|q: int| 0 <= q < r.len() implies keep_below(#[trigger] r[q].piece, n) by {
                if q < f.len() {
                    assert(r[q] == f[q]);
                } else if q == f.len() {
                    assert(r[q] == mid[0]);
                } else {
                    assert(r[q] == rest[q - f.len() - 1]);
                }
            }
        }
    }
}

proof fn lemma_step_keeps(ls: Seq<LView>, i: int, open: bool, src: Seq<char>, base: int, files: Option<Seq<crate::embed::EmbedFileView>>, n: int)
    requires
        0 <= i < ls.len(),
        lviews_keep_below(ls, n),
    ensures
        pieces_keep_below(step_spec(ls, i, open, src, base, files).0, n),
{
    let e = ls[i];
    assert(keep_below(ls[i].piece, n));
    match e.ev {
        Ev::StartParagraph => {
            lemma_para_end(ls, i + 1);
            let j = para_end(ls, i + 1);
            let buf = ls.subrange(i + 1, j);
            let mp = buf.map_values(|x: LView| x.piece);
            assert forall|q: int| 0 <= q < mp.len() implies keep_below(#[trigger] mp[q], n) by {
                assert(mp[q] == ls[i + 1 + q].piece);
            }
            let p = step_spec(ls, i, open, src, base, files).0;
            let a = src_attrs_spec(src, base, e.start, e.end);
            let h = seq![PieceView::Html("<p"@ + a + ">"@)];
            assert forall|q: int| 0 <= q < p.len() implies keep_below(#[trigger] p[q], n) by {
                if p.len() > 1 && 1 <= q <= mp.len() {
                    assert(p == h + mp + seq![PieceView::ParagraphEnd]);
                    assert(p[q] == mp[q - 1]);
                }
            }
        },
        _ => {},
    }
}

/// Every kept piece written by the rewriting names a parsed event, if every kept piece
/// of its input does.
pub proof fn lemma_transform_keeps(ls: Seq<LView>, i: int, open: bool, src: Seq<char>, base: int, files: Option<Seq<crate::embed::EmbedFileView>>, n: int)
    requires
        0 <= i,
        lviews_keep_below(ls, n),
    ensures
        pieces_keep_below(transform_from(ls, i, open, src, base, files), n),
    decreases ls.len() - i,
{
    if i < ls.len() {
        let (p, nx, o) = step_spec(ls, i, open, src, base, files);
        lemma_step_keeps(ls, i, open, src, base, files, n);
        if i < nx <= ls.len() {
            lemma_transform_keeps(ls, nx, o, src, base, files, n);
            let rest = transform_from(ls, nx, o, src, base, files);
            let r = transform_from(ls, i, open, src, base, files);
            assert(r == p + rest);
            assert forall|q: int| 0 <= q < r.len() implies keep_below(#[trigger] r[q], n) by {
                if q >= p.len() {
                    assert(r[q] == rest[q - p.len()]);
                }
            }
        }
    }
}

/// Raw HTML from `h[i..]` with the `src="…"` values inside `<img` tags resolved against
/// the document's directory `dir` under `root` ([`crate::urlpath::resolve_url_spec`]);
/// `in_img` says whether `h[i]` lies inside such a tag. A value that is left alone, or a
/// `src="` without its closing quote, stays as it is.
pub open spec fn img_src_from(h: Seq<char>, i: int, in_img: bool, dir: Seq<char>, root: Seq<char>) -> Seq<char>
    decreases h.len() - i,
{
    if i < 0 || i >= h.len() {
        seq![]
    } else if !in_img && occurs_at(h, i, img_open()) {
        img_open() + img_src_from(h, i + 4, true, dir, root)
    } else if in_img && h[i] == '>' {
        seq!['>'] + img_src_from(h, i + 1, false, dir, root)
    } else if in_img && occurs_at(h, i, src_open()) {
        let rest = h.subrange(i + 5, h.len() as int);
        match crate::text::first_index_of(rest, '"') {
            Some(q) => {
                proof {
                    crate::text::lemma_first_index_of(rest, '"');
                }
                let v = h.subrange(i + 5, i + 5 + q);
                let nv = match crate::urlpath::resolve_url_spec(dir, root, v) {
                    Some(u) => u,
                    None => v,
                };
                src_open() + nv + seq!['"'] + img_src_from(h, i + 5 + q + 1, true, dir, root)
            },
            None => seq![h[i]] + img_src_from(h, i + 1, in_img, dir, root),
        }
    } else {
        seq![h[i]] + img_src_from(h, i + 1, in_img, dir, root)
    }
}

/// `<img`.
pub open spec fn img_open() -> Seq<char> {
    seq!['<', 'i', 'm', 'g']
}

/// `src="`.
pub open spec fn src_open() -> Seq<char> {
    seq!['s', 'r', 'c', '=', '"']
}

fn img_src_rewrite(h: &str, base: &crate::urlpath::DocBase) -> (r: String)
    ensures
        r@ == img_src_from(h@, 0, false, base.dir@, base.root@),
{
    proof {
        reveal_strlit("<img");
        reveal_strlit("src=\"");
        assert("<img"@ =~= img_open());
        assert("src=\""@ =~= src_open());
    }
    let v = chars_of(h);
    let ghost hv = v@;
    let ghost total = img_src_from(hv, 0, false, base.dir@, base.root@);
    let mut out = String::new();
    let mut i: usize = 0;
    let mut in_img = false;
    while i < v.len()
        invariant
            i <= v@.len(),
            hv == v@,
            total == img_src_from(hv, 0, false, base.dir@, base.root@),
            out@ + img_src_from(hv, i as int, in_img, base.dir@, base.root@) == total,
            "<img"@ == img_open(),
            "src=\""@ == src_open(),
        decreases v@.len() - i,
    {
        let ghost before = out@;
        if !in_img && chars_match(&v, i, "<img") {
            assert(occurs_at(hv, i as int, img_open()));
            push_str(&mut out, "<img");
            in_img = true;
            i = i + 4;
            assert(before + img_src_from(hv, i - 4, false, base.dir@, base.root@) =~= out@ + img_src_from(hv, i as int, true, base.dir@, base.root@));
        } else if in_img && v[i] == '>' {
            crate::text::push_char(&mut out, '>');
            in_img = false;
            i = i + 1;
            assert(before + img_src_from(hv, i - 1, true, base.dir@, base.root@) =~= out@ + img_src_from(hv, i as int, false, base.dir@, base.root@));
        } else if in_img && chars_match(&v, i, "src=\"") {
            assert(occurs_at(hv, i as int, src_open()));
            let rest = crate::text::slice_to_vec(v.as_slice(), i + 5, v.len());
            assert(rest@ =~= hv.subrange(i + 5, hv.len() as int));
            match crate::text::find_char(rest.as_slice(), '"') {
                Some(q) => {
                    let val = crate::text::slice_to_vec(v.as_slice(), i + 5, i + 5 + q);
                    let vs = string_of(val.as_slice());
                    push_str(&mut out, "src=\"");
                    match base.resolve_url(vs.as_str()) {
                        Some(u) => push_str(&mut out, u.as_str()),
                        None => push_str(&mut out, vs.as_str()),
                    }
                    crate::text::push_char(&mut out, '"');
                    let ghost i0 = i as int;
                    i = i + 5 + q + 1;
                    assert(before + img_src_from(hv, i0, true, base.dir@, base.root@) =~= out@ + img_src_from(hv, i as int, true, base.dir@, base.root@));
                },
                None => {
                    crate::text::push_char(&mut out, v[i]);
                    i = i + 1;
                    assert(before + img_src_from(hv, i - 1, true, base.dir@, base.root@) =~= out@ + img_src_from(hv, i as int, true, base.dir@, base.root@));
                },
            }
        } else {
            crate::text::push_char(&mut out, v[i]);
            let ghost st = in_img;
            i = i + 1;
            assert(before + img_src_from(hv, i - 1, st, base.dir@, base.root@) =~= out@ + img_src_from(hv, i as int, st, base.dir@, base.root@));
        }
    }
    assert(img_src_from(hv, i as int, in_img, base.dir@, base.root@) =~= Seq::<char>::empty());
    out
}

/// A link or image start of the parse pointed at where its destination resolves from the
/// document's directory `dir` under `root` ([`crate::urlpath::resolve_url_spec`]); any
/// other event, or a destination that is left alone, unchanged.
pub open spec fn retarget_l(l: LView, dir: Seq<char>, root: Seq<char>) -> LView {
    let dest = match l.ev {
        Ev::StartLink(d) => Some(d),
        Ev::StartImage(d) => Some(d),
        _ => None,
    };
    match (dest, l.piece) {
        (Some(d), PieceView::Keep(k)) => match crate::urlpath::resolve_url_spec(dir, root, d) {
            Some(u) => LView { ev: l.ev, start: l.start, end: l.end, piece: PieceView::Retarget(k, u) },
            None => l,
        },
        _ => match (l.ev, l.piece) {
            (Ev::Html(h), PieceView::Keep(_)) => LView {
                ev: l.ev,
                start: l.start,
                end: l.end,
                piece: PieceView::Html(img_src_from(h, 0, false, dir, root)),
            },
            _ => l,
        },
    }
}

/// The events with their relative link and image destinations resolved against `base`
/// (the document's directory and the root), or unchanged without one.
pub open spec fn retarget_all(ls: Seq<LView>, base: Option<(Seq<char>, Seq<char>)>) -> Seq<LView> {
    match base {
        None => ls,
        Some((dir, root)) => ls.map_values(|l: LView| retarget_l(l, dir, root)),
    }
}

/// The content of an optional [`crate::urlpath::DocBase`].
pub open spec fn base_view(base: Option<&crate::urlpath::DocBase>) -> Option<(Seq<char>, Seq<char>)> {
    match base {
        Some(b) => Some((b.dir@, b.root@)),
        None => None,
    }
}

proof fn lemma_retarget_keeps(ls: Seq<LView>, base: Option<(Seq<char>, Seq<char>)>, n: int)
    requires
        lviews_keep_below(ls, n),
    ensures
        lviews_keep_below(retarget_all(ls, base), n),
{
    let r = retarget_all(ls, base);
    assert forall|k: int| 0 <= k < r.len() implies keep_below(#[trigger] r[k].piece, n) by {
        assert(keep_below(ls[k].piece, n));
    }
}

/// Resolves the relative link and image destinations of `ls` (see [`retarget_all`]).
fn retarget_links(ls: Vec<LEvent>, base: &crate::urlpath::DocBase) -> (r: Vec<LEvent>)
    ensures
        levents_view(r@) == retarget_all(levents_view(ls@), Some((base.dir@, base.root@))),
{
    let ghost want = retarget_all(levents_view(ls@), Some((base.dir@, base.root@)));
    let mut out: Vec<LEvent> = Vec::new();
    let mut i: usize = 0;
    while i < ls.len()
        invariant
            i <= ls@.len(),
            want == retarget_all(levents_view(ls@), Some((base.dir@, base.root@))),
            levents_view(out@) =~= want.take(i as int),
        decreases ls@.len() - i,
    {
        let e = &ls[i];
        let dest: Option<&String> = match &e.ev {
            MdEvent::StartLink(d) => Some(d),
            MdEvent::StartImage(d) => Some(d),
            _ => None,
        };
        let piece = match (dest, &e.piece) {
            (Some(d), Piece::Keep(k)) => match base.resolve_url(d.as_str()) {
                Some(u) => Piece::Retarget(*k, u),
                None => copy_piece(&e.piece),
            },
            _ => match (&e.ev, &e.piece) {
                (MdEvent::Html(h), Piece::Keep(_)) => Piece::Html(img_src_rewrite(h.as_str(), base)),
                _ => copy_piece(&e.piece),
            },
        };
        let ghost before = out@;
        out.push(LEvent { ev: copy_event(&e.ev), start: e.start, end: e.end, piece });
        assert(levents_view(out@) =~= levents_view(before).push(want[i as int]));
        i = i + 1;
    }
    assert(want.take(ls@.len() as int) =~= want);
    out
}

/// The events that are written out for `src`: the parse, with bare URLs linked, relative
/// destinations resolved against `base` when there is one, rewritten.
pub open spec fn body_plan(src: Seq<char>, files: Option<Seq<crate::embed::EmbedFileView>>, line_offset: int, base: Option<(Seq<char>, Seq<char>)>) -> Seq<PieceView> {
    transform_from(retarget_all(linkify_from(md_events(src), 0, 0, None), base), 0, false, src, line_offset, files)
}

/// The HTML body for `markdown`: pulldown-cmark's HTML for [`body_plan`]. Lines are
/// numbered from `line_offset + 1`; with `files`, single-link paragraphs may be embeds;
/// with `base`, relative link and image destinations are resolved against the document.
pub fn render_body_in(markdown: &str, files: Option<&Vec<crate::embed::EmbedFile>>, line_offset: usize, base: Option<&crate::urlpath::DocBase>) -> (r: String)
    requires
        line_offset + encode_utf8(markdown@).len() + 1 <= usize::MAX,
    ensures
        r@ == md_html(markdown@, body_plan(markdown@, opt_files_view(files), line_offset as int, base_view(base))),
{
    let idx = LineIndex::new(markdown, line_offset);
    let evs = md_parse(markdown);
    let n = evs.len();
    let linked0 = linkify_bare_urls(&evs);
    proof {
        lemma_linkify_keeps(md_events(markdown@), 0, 0, None);
        lemma_retarget_keeps(levents_view(linked0@), base_view(base), n as int);
    }
    let linked = match base {
        Some(b) => retarget_links(linked0, b),
        None => linked0,
    };
    let plan = transform_events(&linked, &idx, files);
    proof {
        lemma_transform_keeps(levents_view(linked@), 0, false, idx.text(), idx.base_line(), opt_files_view(files), n as int);
        assert forall|k: int| 0 <= k < plan@.len() implies keeps_below(#[trigger] plan@[k], md_events(markdown@).len() as int) by {
            assert(pieces_view(plan@)[k] == plan@[k]@);
            assert(keep_below(pieces_view(plan@)[k], n as int));
        }
    }
    md_render(markdown, &plan)
}

/// The HTML body for `markdown`, without embeds, lines numbered from 1.
pub fn render_body(markdown: &str) -> (r: String)
    ensures
        r@ == md_html(markdown@, body_plan(markdown@, None, 0, None)),
{
    let _len = crate::text::byte_len(markdown.as_bytes());
    render_body_in(markdown, None, 0, None)
}


/// The relative path a paragraph `buf` would embed, if it is a single link to a local file
/// that is not a page shown without a range.
pub open spec fn embed_target(buf: Seq<LView>) -> Option<Seq<char>> {
    if crate::embed::single_link(buf) {
        match crate::embed::dest_spec(buf[0].ev->StartLink_0) {
            Some((rel, spec)) => if spec is None && crate::embed::is_navigable_spec(rel) { None } else { Some(rel) },
            None => None,
        }
    } else {
        None
    }
}

/// The embed targets of the paragraphs in `ls[i..]`, in order.
pub open spec fn targets_from(ls: Seq<LView>, i: int) -> Seq<Seq<char>>
    decreases ls.len() - i,
{
    if i < 0 || i >= ls.len() {
        seq![]
    } else if ls[i].ev is StartParagraph {
        let j = para_end(ls, i + 1);
        let nxt = after(ls.len() as int, j);
        let t = match embed_target(ls.subrange(i + 1, j)) {
            Some(r) => seq![r],
            None => seq![],
        };
        if i < nxt {
            t + targets_from(ls, nxt)
        } else {
            t
        }
    } else {
        targets_from(ls, i + 1)
    }
}

/// The relative paths that single-link paragraphs of `markdown` would embed: the files
/// the application reads and hands to [`render_body_in`].
pub fn embed_targets(markdown: &str) -> (r: Vec<String>)
    ensures
        r@.map_values(|x: String| x@) == targets_from(linkify_from(md_events(markdown@), 0, 0, None), 0),
{
    let evs = md_parse(markdown);
    let ls = linkify_bare_urls(&evs);
    let ghost lv = levents_view(ls@);
    let mut out: Vec<String> = Vec::new();
    let mut i: usize = 0;
    while i < ls.len()
        invariant
            i <= ls@.len(),
            lv == levents_view(ls@),
            lv == linkify_from(md_events(markdown@), 0, 0, None),
            out@.map_values(|x: String| x@) + targets_from(lv, i as int) == targets_from(lv, 0),
        decreases ls@.len() - i,
    {
        assert(lv[i as int] == ls@[i as int]@);
        let ghost before = out@.map_values(|x: String| x@);
        match ls[i].ev {
            MdEvent::StartParagraph => {
                let j = find_para_end(&ls, i + 1);
                let nxt = if j < ls.len() { j + 1 } else { ls.len() };
                let buf = vstd::slice::slice_subrange(ls.as_slice(), i + 1, j);
                assert(buf@.map_values(|x: LEvent| x@) =~= lv.subrange(i + 1, j as int));
                let target = target_of(buf);
                match target {
                    Some(r) => {
                        out.push(r);
                    },
                    None => {},
                }
                assert(out@.map_values(|x: String| x@) + targets_from(lv, nxt as int) =~= before + targets_from(lv, i as int));
                i = nxt;
            },
            _ => {
                i = i + 1;
            },
        }
    }
    assert(out@.map_values(|x: String| x@) =~= out@.map_values(|x: String| x@) + targets_from(lv, i as int));
    out
}

fn target_of(buf: &[LEvent]) -> (r: Option<String>)
    ensures
        match embed_target(buf@.map_values(|e: LEvent| e@)) {
            Some(t) => r matches Some(x) && x@ == t,
            None => r is None,
        },
{
    let ghost bv = buf@.map_values(|e: LEvent| e@);
    if buf.len() < 2 {
        return None;
    }
    let dest = match &buf[0].ev {
        MdEvent::StartLink(d) => d,
        _ => return None,
    };
    match &buf[buf.len() - 1].ev {
        MdEvent::EndLink => {},
        _ => return None,
    }
    let mut k: usize = 1;
    while k < buf.len() - 1
        invariant
            1 <= k <= buf@.len() - 1,
            bv == buf@.map_values(|e: LEvent| e@),
            forall|q: int| 1 <= q < k ==> !((#[trigger] bv[q]).ev is EndLink),
        decreases buf@.len() - 1 - k,
    {
        match &buf[k].ev {
            MdEvent::EndLink => {
                assert(bv[k as int].ev is EndLink);
                return None;
            },
            _ => {},
        }
        k = k + 1;
    }
    assert(crate::embed::single_link(bv));
    match crate::embed::parse_dest(dest.as_str()) {
        None => None,
        Some((rel, spec)) => {
            if spec.is_none() && crate::embed::is_navigable_page(rel.as_str()) {
                None
            } else {
                Some(rel)
            }
        },
    }
}

} // verus!
