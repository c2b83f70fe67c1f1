//! Timestamps for the activation probe's log, so that the sender's and the receiver's
//! lines can be matched up. The application reads the clock and writes the log.

use vstd::prelude::*;
use crate::text::{chars_of, dec, push_str, push_u64};

verus! {

broadcast use vstd::string::group_string_axioms;

/// A number below 100 with two digits.
pub open spec fn pad2(n: nat) -> Seq<char> {
    if n < 10 {
        "0"@ + dec(n)
    } else {
        dec(n)
    }
}

/// A number below 1000 with three digits.
pub open spec fn pad3(n: nat) -> Seq<char> {
    if n < 10 {
        "00"@ + dec(n)
    } else if n < 100 {
        "0"@ + dec(n)
    } else {
        dec(n)
    }
}

/// The wall-clock time in Japan (UTC+9) as `hh:mm:ss.mmm`, then the milliseconds since the
/// epoch.
pub open spec fn stamp_spec(ms: nat) -> Seq<char> {
    let jst = (ms / 1000 + 9 * 3600) % 86400;
    pad2(jst / 3600) + ":"@ + pad2((jst % 3600) / 60) + ":"@ + pad2(jst % 60) + "."@ + pad3(ms % 1000) + " "@ + dec(ms)
}

fn push_pad(s: &mut String, n: u64, width: u64)
    requires
        width == 2 ==> n < 100,
        width == 3 ==> n < 1000,
        width == 2 || width == 3,
    ensures
        width == 2 ==> final(s)@ == old(s)@ + pad2(n as nat),
        width == 3 ==> final(s)@ == old(s)@ + pad3(n as nat),
{
    if width == 3 {
        if n < 10 {
            push_str(s, "00");
        } else if n < 100 {
            push_str(s, "0");
        }
    } else if n < 10 {
        push_str(s, "0");
    }
    push_u64(s, n);
}

/// The log timestamp for `ms` milliseconds since the epoch (see [`stamp_spec`]).
pub fn stamp_at(ms: u64) -> (r: String)
    ensures
        r@ == stamp_spec(ms as nat),
{
    let jst = (ms / 1000 + 9 * 3600) % 86400;
    let mut s = String::new();
    push_pad(&mut s, jst / 3600, 2);
    push_str(&mut s, ":");
    push_pad(&mut s, (jst % 3600) / 60, 2);
    push_str(&mut s, ":");
    push_pad(&mut s, jst % 60, 2);
    push_str(&mut s, ".");
    push_pad(&mut s, ms % 1000, 3);
    push_str(&mut s, " ");
    push_u64(&mut s, ms);
    s
}

/// The first whitespace-separated word of `s` and the text after it (`split_whitespace`).
pub open spec fn first_word(s: Seq<char>) -> Option<(Seq<char>, Seq<char>)> {
    let t = crate::markdown::trim_start(s);
    if t.len() == 0 {
        None
    } else {
        let k = word_end(t, 0);
        Some((t.take(k), t.skip(k)))
    }
}

/// The index of the first white space in `t` at or after `i` (its length when none).
pub open spec fn word_end(t: Seq<char>, i: int) -> int
    decreases t.len() - i,
{
    if i >= t.len() || i < 0 {
        t.len() as int
    } else if crate::markdown::is_space(t[i]) {
        i
    } else {
        word_end(t, i + 1)
    }
}

/// The request a sender leaves for the receiver: `<action> <sender pid>`; the action is
/// `none` and the pid 0 when missing or unreadable.
pub open spec fn poke_spec(s: Seq<char>) -> (Seq<char>, i32) {
    match first_word(s) {
        None => ("none"@, 0),
        Some((a, rest)) => (a, match first_word(rest) {
            Some((p, _)) => match crate::instance::i32_of(p) {
                Some(v) => v,
                None => 0,
            },
            None => 0,
        }),
    }
}

fn split_first_word(v: &[char]) -> (r: Option<(Vec<char>, Vec<char>)>)
    ensures
        match first_word(v@) {
            Some((w, rest)) => r matches Some(x) && x.0@ == w && x.1@ == rest,
            None => r is None,
        },
{
    let start = crate::markdown::trim_start_pos(v);
    let t = crate::text::slice_to_vec(v, start, v.len());
    assert(t@ == crate::markdown::trim_start(v@));
    if t.len() == 0 {
        return None;
    }
    let mut k: usize = 0;
    while k < t.len() && !crate::markdown::space_char(t[k])
        invariant
            k <= t@.len(),
            word_end(t@, k as int) == word_end(t@, 0),
        decreases t@.len() - k,
    {
        k = k + 1;
    }
    let w = crate::text::slice_to_vec(t.as_slice(), 0, k);
    let rest = crate::text::slice_to_vec(t.as_slice(), k, t.len());
    assert(w@ =~= t@.take(k as int));
    assert(rest@ =~= t@.skip(k as int));
    Some((w, rest))
}

/// Reads the request left for the receiver (see [`poke_spec`]).
pub fn parse_poke(s: &str) -> (r: (String, i32))
    ensures
        r.0@ == poke_spec(s@).0,
        r.1 == poke_spec(s@).1,
{
    let v = chars_of(s);
    match split_first_word(v.as_slice()) {
        None => {
            let mut a = String::new();
            push_str(&mut a, "none");
            (a, 0)
        },
        Some((a, rest)) => {
            let pid = match split_first_word(rest.as_slice()) {
                Some((p, _)) => match crate::text::parse_i32(p.as_slice()) {
                    Some(x) => x,
                    None => 0,
                },
                None => 0,
            };
            (crate::text::string_of(a.as_slice()), pid)
        },
    }
}

/// The receiver's note that it is up: its pid and the pid it was started from (0 when
/// unknown).
pub fn announce_line(pid: u32, launcher_pid: Option<i32>) -> (r: String)
    ensures
        r@ == "--- 受け側 起動 pid="@ + dec(pid as nat) + " 起動元 pid="@ + crate::text::dec_int(match launcher_pid {
            Some(p) => p as int,
            None => 0,
        }) + " ---"@,
{
    let mut s = String::new();
    push_str(&mut s, "--- 受け側 起動 pid=");
    push_u64(&mut s, pid as u64);
    push_str(&mut s, " 起動元 pid=");
    crate::text::push_i32(&mut s, match launcher_pid {
        Some(p) => p,
        None => 0,
    });
    push_str(&mut s, " ---");
    s
}

} // verus!
