//! The single-instance wire format and the pure decisions around it.
//!
//! A request is a list of NUL-terminated tokens: the magic `md-preview`, the protocol
//! version, then `key=value` pairs. The receiver greets first with the same magic, its
//! version and `pid=<pid>`. Unknown keys are ignored, so keys can be added without a new
//! version. Sockets, locks and threads are handled by the application.

use vstd::prelude::*;
use vstd::string::*;
use vstd::utf8::*;
use crate::text::{
    chars_eq_str, chars_of, dec_int, find_char, no_nul, no_zero, parse_i32, parse_int_spec,
    parse_u32, push_i32, slice_to_vec, string_of, bytes_text, text_from_bytes, lemma_bytes_text_encode,
    lemma_encode_no_zero, lemma_first_index_of, lemma_first_index_of_unique, lemma_parse_dec_int,
    first_index_of,
};

verus! {

broadcast use vstd::string::group_string_axioms;

/// Protocol version spoken here.
pub const VERSION: u32 = 1;

/// Longest request the receiver reads; a request of this length or more is dropped.
pub const MAX_MESSAGE: usize = 1048576;

/// `sun_path` limit on macOS; a socket path must be shorter than this in bytes.
pub const SUN_PATH_MAX: usize = 104;

/// Where the socket and its lock file live.
#[derive(Clone, Debug)]
pub struct Endpoint {
    socket: String,
    lock: String,
}

impl Endpoint {
    /// The socket path.
    pub closed spec fn socket_view(&self) -> Seq<char> {
        self.socket@
    }

    /// The lock path: the socket path with `.lock` appended.
    pub closed spec fn lock_view(&self) -> Seq<char> {
        self.lock@
    }

    /// Uses the given socket path; the lock sits next to it as `<socket>.lock`.
    pub fn at(socket: String) -> (r: Endpoint)
        ensures
            r.socket_view() == socket@,
            r.lock_view() == socket@ + ".lock"@,
    {
        let mut lock = socket.clone();
        lock.append(".lock");
        Endpoint { socket, lock }
    }

    /// Whether the socket path fits in `sun_path` (its UTF-8 length is below the limit).
    pub fn is_bindable(&self) -> (r: bool)
        ensures
            r == ((encode_utf8(self.socket_view()).len() as usize) < SUN_PATH_MAX),
    {
        self.socket.as_str().len() < SUN_PATH_MAX
    }

    /// The socket path.
    pub fn socket_path(&self) -> (r: &str)
        ensures
            r@ == self.socket_view(),
    {
        self.socket.as_str()
    }

    /// The lock path.
    pub fn lock_path(&self) -> (r: &str)
        ensures
            r@ == self.lock_view(),
    {
        self.lock.as_str()
    }
}

/// What is sent: the files to open as tabs (first one shown), temporary directories whose
/// cleanup is handed over, the sender's working directory and pid, and whether to activate.
#[derive(Clone, Debug, PartialEq, Eq)]
pub struct Message {
    pub files: Vec<String>,
    pub own: Vec<String>,
    pub cwd: Option<String>,
    pub sender_pid: Option<i32>,
    pub activate: bool,
}

/// The abstract content of a [`Message`].
#[verifier::ext_equal]
pub struct MessageView {
    pub files: Seq<Seq<char>>,
    pub own: Seq<Seq<char>>,
    pub cwd: Option<Seq<char>>,
    pub sender_pid: Option<i32>,
    pub activate: bool,
}

pub open spec fn strings_view(v: Seq<String>) -> Seq<Seq<char>> {
    v.map_values(|s: String| s@)
}

pub open spec fn opt_string_view(o: Option<String>) -> Option<Seq<char>> {
    match o {
        Some(s) => Some(s@),
        None => None,
    }
}

impl View for Message {
    type V = MessageView;

    open spec fn view(&self) -> MessageView {
        MessageView {
            files: strings_view(self.files@),
            own: strings_view(self.own@),
            cwd: opt_string_view(self.cwd),
            sender_pid: self.sender_pid,
            activate: self.activate,
        }
    }
}

/// The message a decoder starts from before reading any key.
pub open spec fn empty_message() -> MessageView {
    MessageView { files: seq![], own: seq![], cwd: None, sender_pid: None, activate: true }
}

// ── encoding ────────────────────────────────────────────────────────────────

/// Bytes of `b` before its first zero byte.
pub open spec fn until_zero(b: Seq<u8>) -> Seq<u8>
    decreases b.len(),
{
    if b.len() == 0 {
        seq![]
    } else if b[0] == 0 {
        seq![]
    } else {
        seq![b[0]] + until_zero(b.drop_first())
    }
}

/// Each token's UTF-8 bytes (cut at a NUL, which cannot be carried) followed by a NUL.
pub open spec fn wire(tokens: Seq<Seq<char>>) -> Seq<u8>
    decreases tokens.len(),
{
    if tokens.len() == 0 {
        seq![]
    } else {
        wire(tokens.drop_last()) + until_zero(encode_utf8(tokens.last())) + seq![0u8]
    }
}

pub open spec fn key_tokens(key: Seq<char>, values: Seq<Seq<char>>) -> Seq<Seq<char>> {
    values.map_values(|v: Seq<char>| key + v)
}

/// The tokens of a request, in the order they are written.
pub open spec fn message_tokens(m: MessageView) -> Seq<Seq<char>> {
    seq!["md-preview"@, "1"@] + (match m.cwd {
        Some(c) => seq!["cwd="@ + c],
        None => seq![],
    }) + (match m.sender_pid {
        Some(p) => seq!["pid="@ + dec_int(p as int)],
        None => seq![],
    }) + seq![if m.activate { "activate=1"@ } else { "activate=0"@ }] + key_tokens(
        "file="@,
        m.files,
    ) + key_tokens("own="@, m.own)
}

/// The bytes of a request.
pub open spec fn encode_spec(m: MessageView) -> Seq<u8> {
    wire(message_tokens(m))
}

/// Appends the bytes of `token` up to any NUL, then a NUL.
fn push_token(out: &mut Vec<u8>, token: &str)
    ensures
        final(out)@ == old(out)@ + until_zero(encode_utf8(token@)) + seq![0u8],
{
    let bytes = token.as_bytes();
    let ghost o0 = out@;
    let ghost b = bytes@;
    let mut i: usize = 0;
    while i < bytes.len() && bytes[i] != 0
        invariant
            i <= b.len(),
            b == bytes@,
            forall|j: int| 0 <= j < i ==> b[j] != 0,
            out@ == o0 + b.take(i as int),
        decreases b.len() - i,
    {
        out.push(bytes[i]);
        i = i + 1;
        assert(out@ =~= o0 + b.take(i as int));
    }
    proof {
        lemma_until_zero_prefix(b, i as int);
    }
    out.push(0);
}

proof fn lemma_until_zero_prefix(b: Seq<u8>, i: int)
    requires
        0 <= i <= b.len(),
        forall|j: int| 0 <= j < i ==> b[j] != 0,
        i == b.len() || b[i] == 0,
    ensures
        until_zero(b) == b.take(i),
    decreases b.len(),
{
    if b.len() > 0 && b[0] != 0 {
        lemma_until_zero_prefix(b.drop_first(), i - 1);
        assert(b.take(i) =~= seq![b[0]] + b.drop_first().take(i - 1));
    } else {
        assert(b.take(i) =~= Seq::<u8>::empty());
    }
}

proof fn lemma_until_zero_no_zero(b: Seq<u8>)
    requires
        no_zero(b),
    ensures
        until_zero(b) == b,
    decreases b.len(),
{
    if b.len() > 0 {
        lemma_until_zero_no_zero(b.drop_first());
        assert(b =~= seq![b[0]] + b.drop_first());
    }
}

proof fn lemma_until_zero_is_zero_free(b: Seq<u8>)
    ensures
        no_zero(until_zero(b)),
    decreases b.len(),
{
    if b.len() > 0 && b[0] != 0 {
        lemma_until_zero_is_zero_free(b.drop_first());
        let r = until_zero(b.drop_first());
        assert forall|i: int| 0 <= i < (seq![b[0]] + r).len() implies (seq![b[0]] + r)[i] != 0 by {
            if i > 0 {
                assert((seq![b[0]] + r)[i] == r[i - 1]);
            }
        }
    }
}

proof fn lemma_wire_push(ts: Seq<Seq<char>>, t: Seq<char>)
    ensures
        wire(ts.push(t)) == wire(ts) + until_zero(encode_utf8(t)) + seq![0u8],
{
    assert(ts.push(t).drop_last() =~= ts);
}

fn push_keyed(out: &mut Vec<u8>, key: &str, value: &String)
    ensures
        final(out)@ == old(out)@ + until_zero(encode_utf8(key@ + value@)) + seq![0u8],
{
    let mut t = String::new();
    t.append(key);
    t.append(value.as_str());
    push_token(out, t.as_str());
}

impl Message {
    /// A request for `files`, activating the receiver, with nothing else set.
    pub fn new(files: Vec<String>) -> (r: Message)
        ensures
            r.files == files,
            r.own@.len() == 0,
            r.cwd is None,
            r.sender_pid is None,
            r.activate,
    {
        Message { files, own: Vec::new(), cwd: None, sender_pid: None, activate: true }
    }

    /// The request bytes.
    pub fn encode(&self) -> (r: Vec<u8>)
        ensures
            r@ == encode_spec(self@),
    {
        let ghost m = self@;
        let mut out: Vec<u8> = Vec::new();
        push_token(&mut out, "md-preview");
        push_token(&mut out, "1");
        let ghost mut toks: Seq<Seq<char>> = seq!["md-preview"@, "1"@];
        proof {
            lemma_wire_push(Seq::<Seq<char>>::empty(), "md-preview"@);
            lemma_wire_push(seq!["md-preview"@], "1"@);
            assert(Seq::<Seq<char>>::empty().push("md-preview"@) =~= seq!["md-preview"@]);
            assert(seq!["md-preview"@].push("1"@) =~= toks);
            assert(out@ =~= wire(toks));
        }
        match &self.cwd {
            Some(c) => {
                push_keyed(&mut out, "cwd=", c);
                proof {
                    lemma_wire_push(toks, "cwd="@ + c@);
                    toks = toks.push("cwd="@ + c@);
                }
            },
            None => {},
        }
        let ghost t1 = seq!["md-preview"@, "1"@] + (match m.cwd {
            Some(c) => seq!["cwd="@ + c],
            None => seq![],
        });
        assert(toks =~= t1);
        match self.sender_pid {
            Some(p) => {
                let mut t = String::new();
                t.append("pid=");
                push_i32(&mut t, p);
                push_token(&mut out, t.as_str());
                proof {
                    lemma_wire_push(toks, "pid="@ + dec_int(p as int));
                    toks = toks.push("pid="@ + dec_int(p as int));
                }
            },
            None => {},
        }
        let ghost t2 = t1 + (match m.sender_pid {
            Some(p) => seq!["pid="@ + dec_int(p as int)],
            None => seq![],
        });
        assert(toks =~= t2);
        if self.activate {
            push_token(&mut out, "activate=1");
        } else {
            push_token(&mut out, "activate=0");
        }
        proof {
            lemma_wire_push(toks, if m.activate { "activate=1"@ } else { "activate=0"@ });
            toks = toks.push(if m.activate { "activate=1"@ } else { "activate=0"@ });
        }
        let ghost t3 = toks;
        let mut i: usize = 0;
        while i < self.files.len()
            invariant
                i <= self.files@.len(),
                m == self@,
                toks == t3 + key_tokens("file="@, m.files.take(i as int)),
                out@ == wire(toks),
            decreases self.files@.len() - i,
        {
            push_keyed(&mut out, "file=", &self.files[i]);
            proof {
                lemma_wire_push(toks, "file="@ + self.files[i as int]@);
                toks = toks.push("file="@ + self.files[i as int]@);
                assert(m.files.take(i + 1) =~= m.files.take(i as int).push(m.files[i as int]));
                assert(key_tokens("file="@, m.files.take(i + 1)) =~= key_tokens(
                    "file="@,
                    m.files.take(i as int),
                ).push("file="@ + m.files[i as int]));
                assert(toks =~= t3 + key_tokens("file="@, m.files.take(i + 1)));
            }
            i = i + 1;
        }
        assert(m.files.take(i as int) =~= m.files);
        let ghost t4 = toks;
        let mut j: usize = 0;
        while j < self.own.len()
            invariant
                j <= self.own@.len(),
                m == self@,
                toks == t4 + key_tokens("own="@, m.own.take(j as int)),
                out@ == wire(toks),
            decreases self.own@.len() - j,
        {
            push_keyed(&mut out, "own=", &self.own[j]);
            proof {
                lemma_wire_push(toks, "own="@ + self.own[j as int]@);
                toks = toks.push("own="@ + self.own[j as int]@);
                assert(m.own.take(j + 1) =~= m.own.take(j as int).push(m.own[j as int]));
                assert(key_tokens("own="@, m.own.take(j + 1)) =~= key_tokens(
                    "own="@,
                    m.own.take(j as int),
                ).push("own="@ + m.own[j as int]));
                assert(toks =~= t4 + key_tokens("own="@, m.own.take(j + 1)));
            }
            j = j + 1;
        }
        assert(m.own.take(j as int) =~= m.own);
        assert(toks =~= message_tokens(m));
        out
    }
}


// ── decoding ────────────────────────────────────────────────────────────────

/// Scanning `b` from the front: the chunks closed by a NUL so far, and the open chunk.
pub open spec fn split_state(b: Seq<u8>) -> (Seq<Seq<u8>>, Seq<u8>)
    decreases b.len(),
{
    if b.len() == 0 {
        (seq![], seq![])
    } else {
        let (d, c) = split_state(b.drop_last());
        if b.last() == 0 {
            (d.push(c), seq![])
        } else {
            (d, c.push(b.last()))
        }
    }
}

/// The NUL-terminated chunks of `b`; nothing at all when the last chunk is not terminated
/// (a request cut short must not yield half a path).
pub open spec fn split_tokens_spec(b: Seq<u8>) -> Seq<Seq<u8>> {
    let (d, c) = split_state(b);
    if c.len() == 0 {
        d
    } else {
        seq![]
    }
}

/// The tokens of `b` as text.
pub open spec fn token_texts(b: Seq<u8>) -> Seq<Seq<char>> {
    split_tokens_spec(b).map_values(|t: Seq<u8>| bytes_text(t))
}

/// A `key=value` token split at its first `=`.
pub open spec fn split_at_eq(t: Seq<char>) -> Option<(Seq<char>, Seq<char>)> {
    match first_index_of(t, '=') {
        Some(i) => Some((t.take(i), t.skip(i + 1))),
        None => None,
    }
}

/// Reads one token into `m`. Tokens without `=` and unknown keys change nothing.
pub open spec fn apply_token(m: MessageView, t: Seq<char>) -> MessageView {
    match split_at_eq(t) {
        None => m,
        Some((k, v)) => if k == "file"@ {
            MessageView { files: m.files.push(v), ..m }
        } else if k == "own"@ {
            MessageView { own: m.own.push(v), ..m }
        } else if k == "cwd"@ {
            MessageView { cwd: Some(v), ..m }
        } else if k == "pid"@ {
            MessageView {
                sender_pid: match parse_int_spec(v, true) {
                    Some(x) => if i32::MIN <= x <= i32::MAX { Some(x as i32) } else { None },
                    None => None,
                },
                ..m
            }
        } else if k == "activate"@ {
            MessageView { activate: v != "0"@, ..m }
        } else {
            m
        },
    }
}

/// Reads `ts` into `m`, first to last.
pub open spec fn apply_tokens(m: MessageView, ts: Seq<Seq<char>>) -> MessageView
    decreases ts.len(),
{
    if ts.len() == 0 {
        m
    } else {
        apply_token(apply_tokens(m, ts.drop_last()), ts.last())
    }
}

/// The request that a token list spells, if the magic matches and the version is not newer.
pub open spec fn decode_tokens(ts: Seq<Seq<char>>) -> Option<MessageView> {
    if ts.len() == 0 || ts[0] != "md-preview"@ || ts.len() < 2 {
        None
    } else {
        match parse_int_spec(ts[1], false) {
            Some(v) => if v <= VERSION {
                Some(apply_tokens(empty_message(), ts.skip(2)))
            } else {
                None
            },
            None => None,
        }
    }
}

/// The request that `b` holds, if any.
pub open spec fn decode_spec(b: Seq<u8>) -> Option<MessageView> {
    decode_tokens(token_texts(b))
}

/// Splits `bytes` into NUL-terminated tokens decoded as text.
fn split_tokens(bytes: &[u8]) -> (r: Vec<String>)
    ensures
        strings_view(r@) == token_texts(bytes@),
{
    let ghost b = bytes@;
    let mut done: Vec<String> = Vec::new();
    let mut chunk: Vec<u8> = Vec::new();
    let mut i: usize = 0;
    while i < bytes.len()
        invariant
            i <= b.len(),
            b == bytes@,
            chunk@ == split_state(b.take(i as int)).1,
            strings_view(done@) == split_state(b.take(i as int)).0.map_values(
                |t: Seq<u8>| bytes_text(t),
            ),
        decreases b.len() - i,
    {
        assert(b.take(i + 1).drop_last() =~= b.take(i as int));
        assert(b.take(i + 1).last() == b[i as int]);
        if bytes[i] == 0 {
            let t = text_from_bytes(chunk.as_slice());
            let ghost d0 = done@;
            done.push(t);
            assert(strings_view(done@) =~= strings_view(d0).push(t@));
            assert(split_state(b.take(i as int)).0.push(chunk@).map_values(
                |t: Seq<u8>| bytes_text(t),
            ) =~= split_state(b.take(i as int)).0.map_values(|t: Seq<u8>| bytes_text(t)).push(
                bytes_text(chunk@),
            ));
            chunk = Vec::new();
            assert(chunk@ =~= Seq::<u8>::empty());
        } else {
            chunk.push(bytes[i]);
        }
        i = i + 1;
    }
    assert(b.take(i as int) =~= b);
    if chunk.len() != 0 {
        let empty: Vec<String> = Vec::new();
        assert(strings_view(empty@) =~= Seq::<Seq<char>>::empty());
        return empty;
    }
    done
}

proof fn lemma_strings_view_index(v: Seq<String>, i: int)
    requires
        0 <= i < v.len(),
    ensures
        strings_view(v)[i] == v[i]@,
        strings_view(v).len() == v.len(),
{
}

impl Message {
    /// Reads one `key=value` token.
    fn apply(&mut self, t: &String)
        ensures
            final(self)@ == apply_token(old(self)@, t@),
    {
        let tv = chars_of(t.as_str());
        let eq = find_char(tv.as_slice(), '=');
        match eq {
            None => {},
            Some(i) => {
                let k = slice_to_vec(tv.as_slice(), 0, i);
                let v = slice_to_vec(tv.as_slice(), i + 1, tv.len());
                assert(k@ =~= tv@.take(i as int));
                assert(v@ =~= tv@.skip(i + 1));
                if chars_eq_str(k.as_slice(), "file") {
                    let ghost f0 = self.files@;
                    self.files.push(string_of(v.as_slice()));
                    assert(strings_view(self.files@) =~= strings_view(f0).push(v@));
                } else if chars_eq_str(k.as_slice(), "own") {
                    let ghost o0 = self.own@;
                    self.own.push(string_of(v.as_slice()));
                    assert(strings_view(self.own@) =~= strings_view(o0).push(v@));
                } else if chars_eq_str(k.as_slice(), "cwd") {
                    self.cwd = Some(string_of(v.as_slice()));
                } else if chars_eq_str(k.as_slice(), "pid") {
                    self.sender_pid = parse_i32(v.as_slice());
                } else if chars_eq_str(k.as_slice(), "activate") {
                    self.activate = !chars_eq_str(v.as_slice(), "0");
                }
            },
        }
    }

    /// Reads a request. `None` when the bytes are not a complete request of this protocol
    /// (wrong magic, unreadable or newer version, last token not terminated).
    pub fn decode(bytes: &[u8]) -> (r: Option<Message>)
        ensures
            r matches Some(m) ==> decode_spec(bytes@) == Some(m@),
            r is None ==> decode_spec(bytes@) is None,
    {
        let tokens = split_tokens(bytes);
        let ghost ts = token_texts(bytes@);
        if tokens.len() == 0 {
            return None;
        }
        proof {
            lemma_strings_view_index(tokens@, 0);
        }
        let t0 = chars_of(tokens[0].as_str());
        if !chars_eq_str(t0.as_slice(), "md-preview") {
            return None;
        }
        if tokens.len() < 2 {
            return None;
        }
        proof {
            lemma_strings_view_index(tokens@, 1);
        }
        let t1 = chars_of(tokens[1].as_str());
        let version = match parse_u32(t1.as_slice()) {
            Some(v) => v,
            None => {
                return None;
            },
        };
        if version > VERSION {
            return None;
        }
        let mut msg = Message {
            files: Vec::new(),
            own: Vec::new(),
            cwd: None,
            sender_pid: None,
            activate: true,
        };
        assert(msg@ =~= empty_message());
        let mut i: usize = 2;
        while i < tokens.len()
            invariant
                2 <= i <= tokens@.len(),
                ts == strings_view(tokens@),
                msg@ == apply_tokens(empty_message(), ts.skip(2).take(i - 2)),
            decreases tokens@.len() - i,
        {
            proof {
                lemma_strings_view_index(tokens@, i as int);
                assert(ts.skip(2).take(i - 1).drop_last() =~= ts.skip(2).take(i - 2));
                assert(ts.skip(2).take(i - 1).last() == ts[i as int]);
            }
            msg.apply(&tokens[i]);
            i = i + 1;
        }
        assert(ts.skip(2).take(i - 2) =~= ts.skip(2));
        Some(msg)
    }
}


// ── decode ∘ encode ─────────────────────────────────────────────────────────

proof fn lemma_split_state_append(b: Seq<u8>, seg: Seq<u8>)
    requires
        no_zero(seg),
    ensures
        split_state(b + seg) == (split_state(b).0, split_state(b).1 + seg),
    decreases seg.len(),
{
    if seg.len() == 0 {
        assert(b + seg =~= b);
        assert(split_state(b).1 + seg =~= split_state(b).1);
    } else {
        lemma_split_state_append(b, seg.drop_last());
        assert((b + seg).drop_last() =~= b + seg.drop_last());
        assert((b + seg).last() == seg.last());
        assert((split_state(b).1 + seg.drop_last()).push(seg.last()) =~= split_state(b).1 + seg);
    }
}

pub open spec fn segments(ts: Seq<Seq<char>>) -> Seq<Seq<u8>> {
    ts.map_values(|t: Seq<char>| until_zero(encode_utf8(t)))
}

proof fn lemma_split_wire(ts: Seq<Seq<char>>)
    ensures
        split_state(wire(ts)) == (segments(ts), Seq::<u8>::empty()),
    decreases ts.len(),
{
    if ts.len() == 0 {
        assert(segments(ts) =~= Seq::<Seq<u8>>::empty());
    } else {
        let pre = ts.drop_last();
        let seg = until_zero(encode_utf8(ts.last()));
        lemma_split_wire(pre);
        lemma_until_zero_is_zero_free(encode_utf8(ts.last()));
        lemma_split_state_append(wire(pre), seg);
        let w = wire(pre) + seg + seq![0u8];
        assert(w.drop_last() =~= wire(pre) + seg);
        assert(Seq::<u8>::empty() + seg =~= seg);
        assert(segments(ts) =~= segments(pre).push(seg));
    }
}

/// Whether no string that a request carries holds a NUL (the byte that separates tokens).
pub open spec fn carries_no_nul(m: MessageView) -> bool {
    &&& forall|i: int| 0 <= i < m.files.len() ==> no_nul(#[trigger] m.files[i])
    &&& forall|i: int| 0 <= i < m.own.len() ==> no_nul(#[trigger] m.own[i])
    &&& m.cwd matches Some(c) ==> no_nul(c)
}

proof fn lemma_texts_of_wire(ts: Seq<Seq<char>>)
    requires
        forall|i: int| 0 <= i < ts.len() ==> no_nul(#[trigger] ts[i]),
    ensures
        token_texts(wire(ts)) == ts,
{
    lemma_split_wire(ts);
    let texts = token_texts(wire(ts));
    assert(texts.len() == ts.len());
    assert forall|i: int| 0 <= i < ts.len() implies texts[i] == ts[i] by {
        lemma_encode_no_zero(ts[i]);
        lemma_until_zero_no_zero(encode_utf8(ts[i]));
        lemma_bytes_text_encode(ts[i]);
    }
    assert(texts =~= ts);
}

proof fn lemma_apply_tokens_concat(m: MessageView, a: Seq<Seq<char>>, b: Seq<Seq<char>>)
    ensures
        apply_tokens(m, a + b) == apply_tokens(apply_tokens(m, a), b),
    decreases b.len(),
{
    if b.len() == 0 {
        assert(a + b =~= a);
    } else {
        lemma_apply_tokens_concat(m, a, b.drop_last());
        assert((a + b).drop_last() =~= a + b.drop_last());
        assert((a + b).last() == b.last());
    }
}

/// Splitting `key + v` at its first `=`, where `key` ends in its only `=`.
proof fn lemma_split_keyed(key: Seq<char>, v: Seq<char>)
    requires
        key.len() > 0,
        key.last() == '=',
        forall|j: int| 0 <= j < key.len() - 1 ==> key[j] != '=',
    ensures
        split_at_eq(key + v) == Some((key.drop_last(), v)),
{
    let t = key + v;
    let i = key.len() - 1;
    assert(t[i] == '=');
    assert forall|j: int| 0 <= j < i implies t[j] != '=' by {
        assert(t[j] == key[j]);
    }
    lemma_first_index_of_unique(t, '=', i);
    assert(t.take(i) =~= key.drop_last());
    assert(t.skip(i + 1) =~= v);
}

proof fn lemma_apply_files(m: MessageView, fs: Seq<Seq<char>>)
    ensures
        apply_tokens(m, key_tokens("file="@, fs)) == (MessageView { files: m.files + fs, ..m }),
    decreases fs.len(),
{
    reveal_strlit("file=");
    reveal_strlit("file");
    if fs.len() == 0 {
        assert(key_tokens("file="@, fs) =~= Seq::<Seq<char>>::empty());
        assert(m.files + fs =~= m.files);
    } else {
        lemma_apply_files(m, fs.drop_last());
        assert(key_tokens("file="@, fs).drop_last() =~= key_tokens("file="@, fs.drop_last()));
        lemma_split_keyed("file="@, fs.last());
        assert("file="@.drop_last() =~= "file"@);
        assert((m.files + fs.drop_last()).push(fs.last()) =~= m.files + fs);
    }
}

proof fn lemma_apply_own(m: MessageView, ds: Seq<Seq<char>>)
    ensures
        apply_tokens(m, key_tokens("own="@, ds)) == (MessageView { own: m.own + ds, ..m }),
    decreases ds.len(),
{
    reveal_strlit("own=");
    reveal_strlit("own");
    reveal_strlit("file");
    if ds.len() == 0 {
        assert(key_tokens("own="@, ds) =~= Seq::<Seq<char>>::empty());
        assert(m.own + ds =~= m.own);
    } else {
        lemma_apply_own(m, ds.drop_last());
        assert(key_tokens("own="@, ds).drop_last() =~= key_tokens("own="@, ds.drop_last()));
        lemma_split_keyed("own="@, ds.last());
        assert("own="@.drop_last() =~= "own"@);
        assert("own"@ != "file"@);
        assert((m.own + ds.drop_last()).push(ds.last()) =~= m.own + ds);
    }
}

proof fn lemma_apply_one(m: MessageView, t: Seq<char>)
    ensures
        apply_tokens(m, seq![t]) == apply_token(m, t),
{
    assert(seq![t].drop_last() =~= Seq::<Seq<char>>::empty());
    assert(apply_tokens(m, Seq::<Seq<char>>::empty()) == m);
}

/// Decoding what `encode` wrote gives the same request back, as long as no string in it
/// holds a NUL (a NUL cannot be carried: the token is cut there).
#[verifier::spinoff_prover]
#[verifier::rlimit(40)]
pub proof fn decode_inverts_encode(m: MessageView)
    requires
        carries_no_nul(m),
    ensures
        decode_spec(encode_spec(m)) == Some(m),
{
    reveal_strlit("md-preview");
    reveal_strlit("1");
    reveal_strlit("cwd=");
    reveal_strlit("cwd");
    reveal_strlit("pid=");
    reveal_strlit("pid");
    reveal_strlit("activate=1");
    reveal_strlit("activate=0");
    reveal_strlit("activate");
    reveal_strlit("file");
    reveal_strlit("own");
    reveal_strlit("0");
    reveal_strlit("own=");
    reveal_strlit("file=");
    reveal_strlit("activate=");
    let ts = message_tokens(m);
    let c_part: Seq<Seq<char>> = match m.cwd {
        Some(c) => seq!["cwd="@ + c],
        None => seq![],
    };
    let p_part: Seq<Seq<char>> = match m.sender_pid {
        Some(p) => seq!["pid="@ + dec_int(p as int)],
        None => seq![],
    };
    let act: Seq<char> = if m.activate { "activate=1"@ } else { "activate=0"@ };
    let f_part = key_tokens("file="@, m.files);
    let o_part = key_tokens("own="@, m.own);
    assert(ts == seq!["md-preview"@, "1"@] + c_part + p_part + seq![act] + f_part + o_part);
    // every token is NUL-free
    assert forall|i: int| 0 <= i < ts.len() implies no_nul(#[trigger] ts[i]) by {
        let pre = seq!["md-preview"@, "1"@] + c_part + p_part + seq![act];
        if i >= pre.len() + f_part.len() {
            let k = i - pre.len() - f_part.len();
            assert(ts[i] == "own="@ + m.own[k]);
            assert(no_nul(m.own[k]));
            assert forall|j: int| 0 <= j < ts[i].len() implies ts[i][j] != '\0' by {
                if j >= 4 {
                    assert(ts[i][j] == m.own[k][j - 4]);
                }
            }
        } else if i >= pre.len() {
            let k = i - pre.len();
            assert(ts[i] == "file="@ + m.files[k]);
            assert(no_nul(m.files[k]));
            assert forall|j: int| 0 <= j < ts[i].len() implies ts[i][j] != '\0' by {
                if j >= 5 {
                    assert(ts[i][j] == m.files[k][j - 5]);
                }
            }
        } else if i == pre.len() - 1 {
            assert(ts[i] == act);
        } else if i >= 2 + c_part.len() {
            let p = m.sender_pid.unwrap();
            assert(ts[i] == "pid="@ + dec_int(p as int));
            let d = dec_int(p as int);
            lemma_parse_dec_int(p as int);
            if p < 0 {
                crate::text::lemma_dec_digits((-p) as nat);
            } else {
                crate::text::lemma_dec_digits(p as nat);
            }
            assert forall|j: int| 0 <= j < ts[i].len() implies ts[i][j] != '\0' by {
                if j >= 4 {
                    assert(ts[i][j] == d[j - 4]);
                    if p < 0 {
                        if j > 4 {
                            assert(d.drop_first()[j - 5] == d[j - 4]);
                            assert(crate::text::is_digit(d.drop_first()[j - 5]));
                        }
                    } else {
                        assert(crate::text::is_digit(d[j - 4]));
                    }
                }
            }
        } else if i >= 2 {
            let c = m.cwd.unwrap();
            assert(ts[i] == "cwd="@ + c);
            assert forall|j: int| 0 <= j < ts[i].len() implies ts[i][j] != '\0' by {
                if j >= 4 {
                    assert(ts[i][j] == c[j - 4]);
                }
            }
        }
    }
    lemma_texts_of_wire(ts);
    // header
    assert(ts[0] == "md-preview"@);
    assert(ts[1] == "1"@);
    assert(crate::text::all_digits("1"@));
    assert("1"@.drop_last() =~= Seq::<char>::empty());
    assert(crate::text::digits_value(Seq::<char>::empty()) == 0);
    assert(('1' as int) == 49);
    assert(crate::text::digits_value("1"@) == crate::text::digits_value("1"@.drop_last()) * 10 + ("1"@.last() as int - 48));
    assert(crate::text::digits_value("1"@) == 1);
    assert(parse_int_spec(ts[1], false) == Some(1int));
    assert(ts.skip(2) =~= c_part + p_part + seq![act] + f_part + o_part);
    let m0 = empty_message();
    // cwd
    lemma_apply_tokens_concat(m0, c_part, p_part + seq![act] + f_part + o_part);
    let m1 = apply_tokens(m0, c_part);
    match m.cwd {
        Some(c) => {
            lemma_apply_one(m0, "cwd="@ + c);
            lemma_split_keyed("cwd="@, c);
            assert("cwd="@.drop_last() =~= "cwd"@);
            assert("cwd"@[0] != "own"@[0]);
            assert("cwd"@ != "file"@);
            assert(m1 == MessageView { cwd: Some(c), ..m0 });
        },
        None => {
            assert(m1 == m0);
        },
    }
    assert(m1.cwd == m.cwd);
    // pid
    lemma_apply_tokens_concat(m1, p_part, seq![act] + f_part + o_part);
    let m2 = apply_tokens(m1, p_part);
    match m.sender_pid {
        Some(p) => {
            lemma_apply_one(m1, "pid="@ + dec_int(p as int));
            lemma_split_keyed("pid="@, dec_int(p as int));
            assert("pid="@.drop_last() =~= "pid"@);
            lemma_parse_dec_int(p as int);
            assert("pid"@[0] != "own"@[0]);
            assert("pid"@[0] != "cwd"@[0]);
            assert("pid"@ != "file"@);
            assert(m2 == MessageView { sender_pid: Some(p), ..m1 });
        },
        None => {
            assert(m2 == m1);
        },
    }
    // activate
    lemma_apply_tokens_concat(m2, seq![act], f_part + o_part);
    let m3 = apply_tokens(m2, seq![act]);
    lemma_apply_one(m2, act);
    if m.activate {
        lemma_split_keyed("activate="@, "1"@);
        assert("activate=1"@ =~= "activate="@ + "1"@) by {
            reveal_strlit("activate=");
        }
        assert("activate="@.drop_last() =~= "activate"@) by {
            reveal_strlit("activate=");
        }
        assert("1"@ != "0"@);
    } else {
        lemma_split_keyed("activate="@, "0"@);
        assert("activate=0"@ =~= "activate="@ + "0"@) by {
            reveal_strlit("activate=");
        }
        assert("activate="@.drop_last() =~= "activate"@) by {
            reveal_strlit("activate=");
        }
    }
    assert("activate"@ != "file"@);
    assert("activate"@ != "own"@);
    assert("activate"@ != "cwd"@);
    assert("activate"@ != "pid"@);
    assert(m3 == MessageView { activate: m.activate, ..m2 });
    // files and own
    lemma_apply_tokens_concat(m3, f_part, o_part);
    lemma_apply_files(m3, m.files);
    let m4 = apply_tokens(m3, f_part);
    lemma_apply_own(m4, m.own);
    assert(m0.files + m.files =~= m.files);
    assert(m0.own + m.own =~= m.own);
    assert(seq!["md-preview"@, "1"@] + c_part + p_part + seq![act] + f_part + o_part =~= ts);
    assert(c_part + p_part + seq![act] + f_part + o_part =~= c_part + (p_part + seq![act] + f_part + o_part));
    assert(p_part + seq![act] + f_part + o_part =~= p_part + (seq![act] + f_part + o_part));
    assert(seq![act] + f_part + o_part =~= seq![act] + (f_part + o_part));
    assert(apply_tokens(m0, ts.skip(2)) =~= m);
}


// ── the handshake ───────────────────────────────────────────────────────────

/// The tokens of the receiver's greeting: the magic, the version and its pid.
pub open spec fn greeting_tokens(pid: u32) -> Seq<Seq<char>> {
    seq!["md-preview"@, "1"@, "pid="@ + crate::text::dec(pid as nat)]
}

/// The greeting the receiver writes before it reads a request.
pub fn greeting_bytes(pid: u32) -> (r: Vec<u8>)
    ensures
        r@ == wire(greeting_tokens(pid)),
{
    let mut out: Vec<u8> = Vec::new();
    push_token(&mut out, "md-preview");
    push_token(&mut out, "1");
    let mut t = String::new();
    t.append("pid=");
    crate::text::push_u64(&mut t, pid as u64);
    push_token(&mut out, t.as_str());
    proof {
        lemma_wire_push(Seq::<Seq<char>>::empty(), "md-preview"@);
        lemma_wire_push(seq!["md-preview"@], "1"@);
        lemma_wire_push(seq!["md-preview"@, "1"@], t@);
        assert(seq!["md-preview"@, "1"@].push(t@) =~= greeting_tokens(pid));
        assert(Seq::<Seq<char>>::empty().push("md-preview"@) =~= seq!["md-preview"@]);
        assert(seq!["md-preview"@].push("1"@) =~= seq!["md-preview"@, "1"@]);
        assert(wire(Seq::<Seq<char>>::empty()) =~= Seq::<u8>::empty());
    }
    out
}

/// What a greeting says: a receiver of this protocol (with its pid when readable), a newer
/// one, or something that is not `md` at all.
#[derive(Debug, PartialEq, Eq, Structural)]
pub enum Greeting {
    Receiver { pid: Option<i32> },
    Incompatible(u32),
    Stranger,
}

/// Decimal text read as a `u32` (`str::parse::<u32>`).
pub open spec fn u32_of(s: Seq<char>) -> Option<u32> {
    match parse_int_spec(s, false) {
        Some(x) => if x <= u32::MAX { Some(x as u32) } else { None },
        None => None,
    }
}

/// Decimal text read as an `i32` (`str::parse::<i32>`).
pub open spec fn i32_of(s: Seq<char>) -> Option<i32> {
    match parse_int_spec(s, true) {
        Some(x) => if i32::MIN <= x <= i32::MAX { Some(x as i32) } else { None },
        None => None,
    }
}

/// The text after `pid=` in the first token that starts with it.
pub open spec fn first_pid(ts: Seq<Seq<char>>) -> Option<Seq<char>>
    decreases ts.len(),
{
    if ts.len() == 0 {
        None
    } else if ts[0].len() >= 4 && ts[0].take(4) == "pid="@ {
        Some(ts[0].skip(4))
    } else {
        first_pid(ts.drop_first())
    }
}

/// How a greeting is read: the magic first (else a stranger), then a version (a stranger
/// when it is not a number, newer than ours is incompatible), then the pid of the first
/// `pid=` token, when it reads as a number.
pub open spec fn greeting_spec(b: Seq<u8>) -> Greeting {
    let ts = token_texts(b);
    if ts.len() == 0 || ts[0] != "md-preview"@ || ts.len() < 2 || u32_of(ts[1]) is None {
        Greeting::Stranger
    } else if u32_of(ts[1])->Some_0 > VERSION {
        Greeting::Incompatible(u32_of(ts[1])->Some_0)
    } else {
        Greeting::Receiver {
            pid: match first_pid(ts.skip(2)) {
                Some(p) => i32_of(p),
                None => None,
            },
        }
    }
}

fn pid_after(tokens: &Vec<String>, from: usize) -> (r: Option<i32>)
    requires
        from <= tokens@.len(),
    ensures
        r == (match first_pid(strings_view(tokens@).skip(from as int)) {
            Some(p) => i32_of(p),
            None => None,
        }),
    decreases tokens@.len() - from,
{
    let ghost ts = strings_view(tokens@).skip(from as int);
    if from == tokens.len() {
        assert(ts.len() == 0);
        return None;
    }
    assert(ts[0] == tokens@[from as int]@);
    assert(ts.drop_first() =~= strings_view(tokens@).skip(from + 1));
    let t = chars_of(tokens[from].as_str());
    proof {
        reveal_strlit("pid=");
    }
    if t.len() >= 4 && t[0] == 'p' && t[1] == 'i' && t[2] == 'd' && t[3] == '=' {
        assert(t@.take(4) =~= "pid="@);
        let rest = slice_to_vec(t.as_slice(), 4, t.len());
        assert(rest@ =~= t@.skip(4));
        return parse_i32(rest.as_slice());
    }
    proof {
        if t@.len() >= 4 && t@.take(4) == "pid="@ {
            assert(t@.take(4)[0] == 'p' && t@.take(4)[1] == 'i' && t@.take(4)[2] == 'd' && t@.take(4)[3] == '=');
        }
    }
    pid_after(tokens, from + 1)
}

/// Reads a greeting (see [`greeting_spec`]).
pub fn parse_greeting(bytes: &[u8]) -> (r: Greeting)
    ensures
        r == greeting_spec(bytes@),
{
    let tokens = split_tokens(bytes);
    let ghost ts = token_texts(bytes@);
    if tokens.len() == 0 {
        return Greeting::Stranger;
    }
    assert(ts[0] == tokens@[0]@);
    let first = chars_of(tokens[0].as_str());
    if !chars_eq_str(first.as_slice(), "md-preview") || tokens.len() < 2 {
        return Greeting::Stranger;
    }
    assert(ts[1] == tokens@[1]@);
    let v = chars_of(tokens[1].as_str());
    match parse_u32(v.as_slice()) {
        None => Greeting::Stranger,
        Some(version) => {
            if version > VERSION {
                Greeting::Incompatible(version)
            } else {
                Greeting::Receiver { pid: pid_after(&tokens, 2) }
            }
        },
    }
}

/// The receiver's greeting is understood by the sender: the sender reads the receiver's
/// pid back from it (when the pid fits an `i32`), and sees the same protocol version.
pub proof fn greeting_round_trip(pid: u32)
    ensures
        greeting_spec(wire(greeting_tokens(pid))) == (Greeting::Receiver {
            pid: if pid <= i32::MAX { Some(pid as i32) } else { None },
        }),
{
    reveal_strlit("md-preview");
    reveal_strlit("1");
    reveal_strlit("pid=");
    let ts = greeting_tokens(pid);
    let d = crate::text::dec(pid as nat);
    crate::text::lemma_dec_digits(pid as nat);
    lemma_parse_dec_int(pid as int);
    assert forall|i: int| 0 <= i < ts.len() implies no_nul(#[trigger] ts[i]) by {
        if i == 2 {
            assert forall|j: int| 0 <= j < ts[i].len() implies ts[i][j] != '\0' by {
                if j >= 4 {
                    assert(ts[i][j] == d[j - 4]);
                    assert(crate::text::is_digit(d[j - 4]));
                }
            }
        }
    }
    lemma_texts_of_wire(ts);
    assert(crate::text::all_digits("1"@));
    assert("1"@.drop_last() =~= Seq::<char>::empty());
    assert(crate::text::digits_value(Seq::<char>::empty()) == 0);
    assert(crate::text::digits_value("1"@) == crate::text::digits_value("1"@.drop_last()) * 10 + ("1"@.last() as int - 48));
    assert(parse_int_spec(ts[1], false) == Some(1int));
    let rest = ts.skip(2);
    assert(rest =~= seq!["pid="@ + d]);
    assert((("pid="@ + d).take(4)) =~= "pid="@);
    assert((("pid="@ + d).skip(4)) =~= d);
    assert(crate::text::dec_int(pid as int) == d);
}

/// A request as the receiver accepts it: one of [`MAX_MESSAGE`] bytes or more may have been
/// cut short and is dropped (a cut right after a NUL would otherwise open half a path);
/// anything shorter is decoded.
pub fn accept_request(bytes: &[u8]) -> (r: Option<Message>)
    ensures
        bytes@.len() >= MAX_MESSAGE ==> r is None,
        bytes@.len() < MAX_MESSAGE ==> (r matches Some(m) ==> decode_spec(bytes@) == Some(m@)) && (r is None
            ==> decode_spec(bytes@) is None),
{
    if bytes.len() >= MAX_MESSAGE {
        return None;
    }
    Message::decode(bytes)
}

/// How far the reading of a greeting has come: the three tokens are in, more is needed, or
/// the peer has sent more than a greeting can be and is given up on.
#[derive(Debug, PartialEq, Eq, Structural)]
pub enum GreetingRead {
    Complete,
    More,
    Overlong,
}

/// The number of NUL bytes in `b`.
pub open spec fn nul_count(b: Seq<u8>) -> nat
    decreases b.len(),
{
    if b.len() == 0 {
        0
    } else {
        nul_count(b.drop_last()) + if b.last() == 0 { 1nat } else { 0nat }
    }
}

/// After each read: more than 256 bytes is too long, three NULs complete the greeting.
pub fn greeting_read(buf: &[u8]) -> (r: GreetingRead)
    ensures
        r == (if buf@.len() > 256 {
            GreetingRead::Overlong
        } else if nul_count(buf@) >= 3 {
            GreetingRead::Complete
        } else {
            GreetingRead::More
        }),
{
    if buf.len() > 256 {
        return GreetingRead::Overlong;
    }
    let mut n: usize = 0;
    let mut i: usize = 0;
    assert(buf@.take(0) =~= Seq::<u8>::empty());
    while i < buf.len()
        invariant
            i <= buf@.len() <= 256,
            n == nul_count(buf@.take(i as int)),
            n <= i,
        decreases buf@.len() - i,
    {
        assert(buf@.take(i + 1).drop_last() =~= buf@.take(i as int));
        if buf[i] == 0 {
            n = n + 1;
        }
        i = i + 1;
    }
    assert(buf@.take(i as int) =~= buf@);
    if n >= 3 {
        GreetingRead::Complete
    } else {
        GreetingRead::More
    }
}

/// What came of sending one request.
#[derive(Debug, PartialEq, Eq, Structural)]
pub enum Sent {
    /// Written in full; the receiver's pid when its greeting gave one (used to bring it to
    /// the front).
    Delivered { receiver_pid: Option<i32> },
    /// No receiver (or not an `md` one): the sender opens its own window.
    NoReceiver,
    /// The receiver speaks a newer protocol; nothing was written.
    Incompatible { version: u32 },
}

/// Whether to write the request after the greeting, and with which receiver pid, or what
/// to report without writing: a newer protocol is incompatible, a stranger gets nothing
/// written to it, and a greeting that never came (a busy receiver) still gets the request.
pub fn after_greeting(g: Option<Greeting>) -> (r: Result<Option<i32>, Sent>)
    ensures
        r == (match g {
            Some(Greeting::Receiver { pid }) => Ok(pid),
            Some(Greeting::Incompatible(v)) => Err(Sent::Incompatible { version: v }),
            Some(Greeting::Stranger) => Err(Sent::NoReceiver),
            None => Ok(None),
        }),
{
    match g {
        Some(Greeting::Receiver { pid }) => Ok(pid),
        Some(Greeting::Incompatible(v)) => Err(Sent::Incompatible { version: v }),
        Some(Greeting::Stranger) => Err(Sent::NoReceiver),
        None => Ok(None),
    }
}

/// What the socket's owner keeps for cleaning up: the socket path, and the identity
/// (device and inode) of the socket it bound, when it could be read.
pub struct Handle {
    pub socket: String,
    pub ino: Option<(u64, u64)>,
}

impl Handle {
    /// Whether the socket file may be removed, given the identity of what is at the path
    /// now: not when another owner has bound a new socket there since.
    pub fn may_unlink(&self, current: Option<(u64, u64)>) -> (r: bool)
        ensures
            r == !(self.ino is Some && current != self.ino),
    {
        match (self.ino, current) {
            (Some(a), Some(b)) => a.0 == b.0 && a.1 == b.1,
            (Some(_), None) => false,
            (None, _) => true,
        }
    }
}

/// The socket's file name (development builds use their own, so a development window and
/// an installed one never answer each other).
pub open spec fn socket_name(debug: bool) -> Seq<char> {
    if debug {
        "md-preview-dev.sock"@
    } else {
        "md-preview.sock"@
    }
}

/// Where this user's socket lives: the `MD_SOCKET` setting when set and not empty, else in
/// the temporary directory, else (no temporary directory) in `run_dir` (the `run`
/// directory of the settings, none when there is none). The flag says that the socket is
/// in `run_dir`, which must be created (private to the user) first.
pub open spec fn default_socket_spec(socket_env: Option<Seq<char>>, temp_dir: Seq<char>, run_dir: Option<Seq<char>>, debug: bool) -> Option<(Seq<char>, bool)> {
    if socket_env matches Some(e) && e.len() > 0 {
        Some((socket_env->Some_0, false))
    } else if temp_dir.len() > 0 {
        Some((crate::paths::join_spec(temp_dir, socket_name(debug)), false))
    } else {
        match run_dir {
            Some(d) => Some((crate::paths::join_spec(d, socket_name(debug)), true)),
            None => None,
        }
    }
}

/// Where this user's socket lives (see [`default_socket_spec`]).
pub fn default_socket(socket_env: Option<&str>, temp_dir: &str, run_dir: Option<&str>, debug: bool) -> (r: Option<(String, bool)>)
    ensures
        match default_socket_spec(match socket_env { Some(e) => Some(e@), None => None }, temp_dir@, match run_dir {
            Some(d) => Some(d@),
            None => None,
        }, debug) {
            Some((p, f)) => r matches Some(x) && x.0@ == p && x.1 == f,
            None => r is None,
        },
{
    let name = if debug { "md-preview-dev.sock" } else { "md-preview.sock" };
    match socket_env {
        Some(e) => {
            if chars_of(e).len() > 0 {
                return Some((string_of(chars_of(e).as_slice()), false));
            }
        },
        None => {},
    }
    if chars_of(temp_dir).len() > 0 {
        return Some((crate::paths::join(temp_dir, name), false));
    }
    match run_dir {
        Some(d) => Some((crate::paths::join(d, name), true)),
        None => None,
    }
}

impl Endpoint {
    /// This user's endpoint: at [`default_socket`], when its path fits `sun_path`; none
    /// otherwise (the window then opens without looking for a running one).
    pub fn user_default(socket: Option<String>) -> (r: Option<Endpoint>)
        ensures
            match socket {
                Some(p) => if (encode_utf8(p@).len() as usize) < SUN_PATH_MAX {
                    r matches Some(ep) && ep.socket_view() == p@ && ep.lock_view() == p@ + ".lock"@
                } else {
                    r is None
                },
                None => r is None,
            },
    {
        match socket {
            None => None,
            Some(p) => {
                let ep = Endpoint::at(p);
                if ep.is_bindable() {
                    Some(ep)
                } else {
                    None
                }
            },
        }
    }
}

} // verus!
