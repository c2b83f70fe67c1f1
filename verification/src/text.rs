//! Character-level helpers shared by the rest of the library: turning `&str` into a
//! character vector, growing `String`s, and decimal / hexadecimal digits.

use vstd::prelude::*;
use vstd::string::*;
use vstd::utf8::*;

verus! {

broadcast use vstd::string::group_string_axioms;

/// The characters of `s`, in order.
pub fn chars_of(s: &str) -> (r: Vec<char>)
    ensures
        r@ == s@,
{
    let mut out: Vec<char> = Vec::new();
    for c in it: s.chars()
        invariant
            out@ == it.seq().take(it.index() as int),
            it.seq() == s@,
    {
        out.push(c);
    }
    out
}


/// Appends one character (`String::push`).
#[verifier::external_body]
pub(crate) fn push_char(s: &mut String, c: char)
    ensures
        final(s)@ == old(s)@.push(c),
{
    s.push(c);
}

/// Appends a string slice.
pub fn push_str(s: &mut String, t: &str)
    ensures
        final(s)@ == old(s)@ + t@,
{
    s.append(t);
}

/// Appends every character of `v`.
pub fn push_chars(s: &mut String, v: &[char])
    ensures
        final(s)@ == old(s)@ + v@,
{
    let ghost s0 = s@;
    let mut i: usize = 0;
    while i < v.len()
        invariant
            i <= v@.len(),
            s@ == s0 + v@.take(i as int),
        decreases v@.len() - i,
    {
        push_char(s, v[i]);
        i = i + 1;
        assert(v@.take(i as int) =~= v@.take(i - 1) .push(v@[i - 1]));
    }
    assert(v@.take(i as int) =~= v@);
}

/// A `String` holding exactly the characters of `v`.
pub fn string_of(v: &[char]) -> (r: String)
    ensures
        r@ == v@,
{
    let mut r = String::new();
    push_chars(&mut r, v);
    r
}

/// Decimal digits of `n`, most significant first, without leading zeros ("0" for zero).
pub open spec fn dec(n: nat) -> Seq<char>
    decreases n,
{
    if n < 10 {
        seq![digit_char(n)]
    } else {
        dec(n / 10).push(digit_char(n % 10))
    }
}

/// The ASCII digit for `d` in `0..=9`.
pub open spec fn digit_char(d: nat) -> char {
    (d + 48) as char
}

/// Appends the decimal representation of `n`.
pub fn push_usize(s: &mut String, n: usize)
    ensures
        final(s)@ == old(s)@ + dec(n as nat),
    decreases n,
{
    if n >= 10 {
        push_usize(s, n / 10);
    }
    let d = (n % 10) as u32;
    let c: char = char_from_digit(d);
    push_char(s, c);
}

/// Appends the decimal representation of `n`.
pub fn push_u64(s: &mut String, n: u64)
    ensures
        final(s)@ == old(s)@ + dec(n as nat),
    decreases n,
{
    if n >= 10 {
        push_u64(s, n / 10);
    }
    let d = (n % 10) as u32;
    let c: char = char_from_digit(d);
    push_char(s, c);
}

/// The character `'0' + d` for a decimal digit.
pub fn char_from_digit(d: u32) -> (c: char)
    requires
        d < 10,
    ensures
        c == digit_char(d as nat),
{
    match d {
        0 => '0',
        1 => '1',
        2 => '2',
        3 => '3',
        4 => '4',
        5 => '5',
        6 => '6',
        7 => '7',
        8 => '8',
        _ => '9',
    }
}

/// The decimal representation of `n` as a `String`.
pub fn usize_to_string(n: usize) -> (r: String)
    ensures
        r@ == dec(n as nat),
{
    let mut r = String::new();
    push_usize(&mut r, n);
    r
}


/// Whether `c` is an ASCII decimal digit.
pub open spec fn is_digit(c: char) -> bool {
    '0' <= c && c <= '9'
}

/// Value of a run of decimal digits (most significant first).
pub open spec fn digits_value(s: Seq<char>) -> int
    decreases s.len(),
{
    if s.len() == 0 {
        0
    } else {
        digits_value(s.drop_last()) * 10 + (s.last() as int - 48)
    }
}

/// Whether `s` is a non-empty run of ASCII digits.
pub open spec fn all_digits(s: Seq<char>) -> bool {
    s.len() > 0 && forall|i: int| 0 <= i < s.len() ==> is_digit(#[trigger] s[i])
}

/// The integer that Rust's `str::parse` reads from `s` for an integer type that
/// accepts a leading `-` when `signed` holds: an optional sign followed by at least
/// one digit, nothing else. Range limits are applied by the callers.
pub open spec fn parse_int_spec(s: Seq<char>, signed: bool) -> Option<int> {
    if s.len() > 0 && s[0] == '+' {
        if all_digits(s.drop_first()) { Some(digits_value(s.drop_first())) } else { None }
    } else if s.len() > 0 && s[0] == '-' {
        if signed && all_digits(s.drop_first()) { Some(-digits_value(s.drop_first())) } else { None }
    } else if all_digits(s) {
        Some(digits_value(s))
    } else {
        None
    }
}

proof fn lemma_digits_value_nonneg(s: Seq<char>)
    requires
        forall|i: int| 0 <= i < s.len() ==> is_digit(#[trigger] s[i]),
    ensures
        digits_value(s) >= 0,
    decreases s.len(),
{
    if s.len() > 0 {
        lemma_digits_value_nonneg(s.drop_last());
        assert(is_digit(s[s.len() - 1]));
    }
}

proof fn lemma_digits_value_mono(s: Seq<char>, k: int)
    requires
        0 <= k <= s.len(),
        forall|i: int| 0 <= i < s.len() ==> is_digit(#[trigger] s[i]),
    ensures
        digits_value(s.take(k)) <= digits_value(s),
    decreases s.len(),
{
    if k < s.len() {
        assert(s.drop_last().take(k) =~= s.take(k));
        lemma_digits_value_mono(s.drop_last(), k);
        lemma_digits_value_nonneg(s.drop_last());
        assert(is_digit(s[s.len() - 1]));
    } else {
        assert(s.take(k) =~= s);
    }
}

/// Reads the unsigned value of `v[start..]`, which must be all digits, if it is at most `bound`.
fn digits_up_to(v: &[char], start: usize, bound: u128) -> (r: Option<u128>)
    requires
        start < v@.len(),
        all_digits(v@.skip(start as int)),
        bound <= u64::MAX,
    ensures
        r matches Some(x) ==> x == digits_value(v@.skip(start as int)) && x <= bound,
        r is None ==> digits_value(v@.skip(start as int)) > bound,
{
    let ghost d = v@.skip(start as int);
    let mut acc: u128 = 0;
    let mut i: usize = start;
    while i < v.len()
        invariant
            start <= i <= v@.len(),
            d == v@.skip(start as int),
            all_digits(d),
            acc as int == digits_value(d.take(i - start)),
            acc <= bound,
            bound <= u64::MAX,
        decreases v@.len() - i,
    {
        let c = v[i];
        assert(c == d[i - start]);
        assert(is_digit(d[i - start]));
        assert(d.take(i - start + 1).drop_last() =~= d.take(i - start));
        let digit = (c as u32 - 48) as u128;
        let next = acc * 10 + digit;
        i = i + 1;
        if next > bound {
            proof {
                lemma_digits_value_mono(d, i - start);
            }
            return None;
        }
        acc = next;
    }
    assert(d.take(i - start) =~= d);
    Some(acc)
}

/// Whether every character of `v[start..]` is a digit (and there is at least one).
fn all_digits_from(v: &[char], start: usize) -> (r: bool)
    requires
        start <= v@.len(),
    ensures
        r == all_digits(v@.skip(start as int)),
{
    if start >= v.len() {
        return false;
    }
    let mut i = start;
    while i < v.len()
        invariant
            start <= i <= v@.len(),
            forall|j: int| start <= j < i ==> is_digit(#[trigger] v@[j]),
        decreases v@.len() - i,
    {
        if !('0' <= v[i] && v[i] <= '9') {
            assert(!is_digit(v@.skip(start as int)[i - start]));
            return false;
        }
        i = i + 1;
    }
    assert forall|j: int| 0 <= j < v@.skip(start as int).len() implies is_digit(
        #[trigger] v@.skip(start as int)[j],
    ) by {
        assert(v@.skip(start as int)[j] == v@[start + j]);
    }
    true
}

/// `str::parse::<u32>`: an optional `+` and digits, at most `u32::MAX`.
pub fn parse_u32(v: &[char]) -> (r: Option<u32>)
    ensures
        r == (match parse_int_spec(v@, false) {
            Some(x) => if x <= u32::MAX { Some(x as u32) } else { None },
            None => None,
        }),
        r matches Some(x) ==> parse_int_spec(v@, false) == Some(x as int),
{
    let start: usize = if v.len() > 0 && v[0] == '+' { 1 } else { 0 };
    if v.len() > 0 && v[0] == '-' {
        return None;
    }
    if !all_digits_from(v, start) {
        proof {
            if start == 0 {
                assert(v@.skip(0) =~= v@);
            } else {
                assert(v@.skip(1) =~= v@.drop_first());
            }
        }
        return None;
    }
    proof {
        if start == 0 {
            assert(v@.skip(0) =~= v@);
        } else {
            assert(v@.skip(1) =~= v@.drop_first());
        }
    }
    match digits_up_to(v, start, u32::MAX as u128) {
        Some(x) => Some(x as u32),
        None => None,
    }
}

/// `str::parse::<usize>`: an optional `+` and digits, at most `usize::MAX`.
/// `str::parse::<usize>` of `s`.
pub open spec fn parse_usize_spec(s: Seq<char>) -> Option<usize> {
    match parse_int_spec(s, false) {
        Some(x) => if x <= usize::MAX { Some(x as usize) } else { None },
        None => None,
    }
}

pub fn parse_usize(v: &[char]) -> (r: Option<usize>)
    ensures
        r == parse_usize_spec(v@),
{
    let start: usize = if v.len() > 0 && v[0] == '+' { 1 } else { 0 };
    if v.len() > 0 && v[0] == '-' {
        return None;
    }
    proof {
        if start == 0 {
            assert(v@.skip(0) =~= v@);
        } else {
            assert(v@.skip(1) =~= v@.drop_first());
        }
    }
    if !all_digits_from(v, start) {
        return None;
    }
    match digits_up_to(v, start, usize::MAX as u128) {
        Some(x) => Some(x as usize),
        None => None,
    }
}

/// `str::parse::<i32>`: an optional sign and digits, within the range of `i32`.
pub fn parse_i32(v: &[char]) -> (r: Option<i32>)
    ensures
        r == (match parse_int_spec(v@, true) {
            Some(x) => if i32::MIN <= x <= i32::MAX { Some(x as i32) } else { None },
            None => None,
        }),
{
    if v.len() > 0 && v[0] == '-' {
        if !all_digits_from(v, 1) {
            assert(v@.skip(1) =~= v@.drop_first());
            return None;
        }
        assert(v@.skip(1) =~= v@.drop_first());
        match digits_up_to(v, 1, 0x8000_0000u128) {
            Some(x) => {
                let neg: i128 = -(x as i128);
                Some(neg as i32)
            },
            None => None,
        }
    } else {
        let start: usize = if v.len() > 0 && v[0] == '+' { 1 } else { 0 };
        if !all_digits_from(v, start) {
            proof {
                if start == 0 {
                    assert(v@.skip(0) =~= v@);
                } else {
                    assert(v@.skip(1) =~= v@.drop_first());
                }
            }
            return None;
        }
        proof {
            if start == 0 {
                assert(v@.skip(0) =~= v@);
            } else {
                assert(v@.skip(1) =~= v@.drop_first());
            }
        }
        match digits_up_to(v, start, 0x7fff_ffffu128) {
            Some(x) => Some(x as i32),
            None => None,
        }
    }
}


/// Whether two character slices are equal.
pub fn chars_eq(a: &[char], b: &[char]) -> (r: bool)
    ensures
        r == (a@ == b@),
{
    if a.len() != b.len() {
        return false;
    }
    let mut i: usize = 0;
    while i < a.len()
        invariant
            a@.len() == b@.len(),
            i <= a@.len(),
            forall|j: int| 0 <= j < i ==> a@[j] == b@[j],
        decreases a@.len() - i,
    {
        if a[i] != b[i] {
            return false;
        }
        i = i + 1;
    }
    assert(a@ =~= b@);
    true
}

/// Whether the characters of `a` spell out `b`.
pub fn chars_eq_str(a: &[char], b: &str) -> (r: bool)
    ensures
        r == (a@ == b@),
{
    let bv = chars_of(b);
    chars_eq(a, bv.as_slice())
}

/// Index of the first occurrence of `c`, if any.
pub open spec fn first_index_of(s: Seq<char>, c: char) -> Option<int>
    decreases s.len(),
{
    if s.len() == 0 {
        None
    } else if s[0] == c {
        Some(0)
    } else {
        match first_index_of(s.drop_first(), c) {
            Some(i) => Some(i + 1),
            None => None,
        }
    }
}

/// The first `c` of `k`, `c` and `v` is the one after `k` when `k` holds none.
pub proof fn lemma_first_index_after(k: Seq<char>, c: char, v: Seq<char>)
    requires
        !k.contains(c),
    ensures
        first_index_of(k + seq![c] + v, c) == Some(k.len() as int),
        (k + seq![c] + v).subrange(0, k.len() as int) == k,
        (k + seq![c] + v).subrange(k.len() + 1int, (k + seq![c] + v).len() as int) == v,
    decreases k.len(),
{
    let s = k + seq![c] + v;
    if k.len() > 0 {
        assert(k[0] != c) by {
            if k[0] == c {
                assert(k.contains(c));
            }
        }
        assert(!k.drop_first().contains(c)) by {
            if k.drop_first().contains(c) {
                let j = choose|j: int| 0 <= j < k.drop_first().len() && k.drop_first()[j] == c;
                assert(k[j + 1] == c);
            }
        }
        lemma_first_index_after(k.drop_first(), c, v);
        assert(s.drop_first() =~= k.drop_first() + seq![c] + v);
    }
    assert(s.subrange(0, k.len() as int) =~= k);
    assert(s.subrange(k.len() + 1int, s.len() as int) =~= v);
}

pub proof fn lemma_first_index_of(s: Seq<char>, c: char)
    ensures
        first_index_of(s, c) matches Some(i) ==> 0 <= i < s.len() && s[i] == c && forall|j: int|
            0 <= j < i ==> s[j] != c,
        first_index_of(s, c) is None ==> forall|j: int| 0 <= j < s.len() ==> s[j] != c,
    decreases s.len(),
{
    if s.len() > 0 {
        lemma_first_index_of(s.drop_first(), c);
        if s[0] != c {
            assert forall|j: int| 1 <= j < s.len() implies s[j] == s.drop_first()[j - 1] by {}
        }
    }
}

pub proof fn lemma_first_index_of_unique(s: Seq<char>, c: char, i: int)
    requires
        0 <= i < s.len(),
        s[i] == c,
        forall|j: int| 0 <= j < i ==> s[j] != c,
    ensures
        first_index_of(s, c) == Some(i),
{
    lemma_first_index_of(s, c);
    match first_index_of(s, c) {
        Some(k) => {
            if k < i {
                assert(s[k] != c);
            } else if k > i {
            }
        },
        None => {
            assert(s[i] != c);
        },
    }
}

/// Index of the first `c` in `v`, if any.
pub fn find_char(v: &[char], c: char) -> (r: Option<usize>)
    ensures
        r matches Some(i) ==> first_index_of(v@, c) == Some(i as int) && i < v@.len() && v@[i as int] == c,
        r is None ==> first_index_of(v@, c) is None,
{
    let mut i: usize = 0;
    while i < v.len()
        invariant
            i <= v@.len(),
            forall|j: int| 0 <= j < i ==> v@[j] != c,
        decreases v@.len() - i,
    {
        if v[i] == c {
            proof {
                lemma_first_index_of_unique(v@, c, i as int);
            }
            return Some(i);
        }
        i = i + 1;
    }
    proof {
        lemma_first_index_of(v@, c);
        if first_index_of(v@, c) is Some {
            let k = first_index_of(v@, c).unwrap();
            assert(v@[k] != c);
        }
    }
    None
}

/// A new vector holding `v[from..to]`.
pub fn slice_to_vec(v: &[char], from: usize, to: usize) -> (r: Vec<char>)
    requires
        from <= to <= v@.len(),
    ensures
        r@ == v@.subrange(from as int, to as int),
{
    let mut r: Vec<char> = Vec::new();
    let mut i = from;
    while i < to
        invariant
            from <= i <= to,
            to <= v@.len(),
            r@ == v@.subrange(from as int, i as int),
        decreases to - i,
    {
        r.push(v[i]);
        i = i + 1;
        assert(r@ =~= v@.subrange(from as int, i as int));
    }
    r
}

/// Decimal text of a signed integer, with a leading `-` when negative.
pub open spec fn dec_int(n: int) -> Seq<char> {
    if n < 0 {
        seq!['-'] + dec((-n) as nat)
    } else {
        dec(n as nat)
    }
}

/// Appends the decimal representation of `n`.
pub fn push_i32(s: &mut String, n: i32)
    ensures
        final(s)@ == old(s)@ + dec_int(n as int),
{
    if n < 0 {
        push_char(s, '-');
        let m: i64 = -(n as i64);
        let ghost s1 = s@;
        push_usize(s, m as usize);
        assert(s@ == s1 + dec((-(n as int)) as nat));
        assert(s@ =~= old(s)@ + dec_int(n as int));
    } else {
        push_usize(s, n as usize);
    }
}

pub proof fn lemma_dec_digits(n: nat)
    ensures
        all_digits(dec(n)),
        digits_value(dec(n)) == n,
    decreases n,
{
    if n >= 10 {
        lemma_dec_digits(n / 10);
        let d = dec(n / 10);
        let e = dec(n);
        assert(e.drop_last() =~= d);
        assert(e.last() == digit_char(n % 10));
        assert((digit_char(n % 10) as int) == (n % 10) + 48);
        assert(n == (n / 10) * 10 + n % 10) by (nonlinear_arith);
        assert(digits_value(e) == digits_value(d) * 10 + (e.last() as int - 48));
        assert forall|i: int| 0 <= i < e.len() implies is_digit(#[trigger] e[i]) by {
            if i < d.len() {
                assert(e[i] == d[i]);
            }
        }
    } else {
        assert(dec(n).drop_last() =~= Seq::<char>::empty());
        assert((digit_char(n) as int) == n + 48);
        assert(digits_value(Seq::<char>::empty()) == 0);
        assert(digits_value(dec(n)) == digits_value(dec(n).drop_last()) * 10 + (dec(n).last() as int - 48));
    }
}

/// Parsing what `dec_int` writes gives the number back.
pub proof fn lemma_parse_dec_int(n: int)
    ensures
        parse_int_spec(dec_int(n), true) == Some(n),
        n >= 0 ==> parse_int_spec(dec_int(n), false) == Some(n),
{
    if n < 0 {
        let d = dec((-n) as nat);
        lemma_dec_digits((-n) as nat);
        assert((seq!['-'] + d).drop_first() =~= d);
    } else {
        lemma_dec_digits(n as nat);
        assert(is_digit(dec(n as nat)[0]));
    }
}


/// What `String::from_utf8_lossy` makes of `bytes`: invalid sequences become U+FFFD.
pub uninterp spec fn utf8_lossy(bytes: Seq<u8>) -> Seq<char>;

/// `String::from_utf8_lossy(b).into_owned()`. The contract states the result by name; the
/// replacement rule for invalid sequences is not written out.
#[verifier::external_body]
pub(crate) fn string_from_utf8_lossy(b: &[u8]) -> (r: String)
    ensures
        r@ == utf8_lossy(b@),
{
    String::from_utf8_lossy(b).into_owned()
}

/// Whether `s` holds no NUL character.
pub open spec fn no_nul(s: Seq<char>) -> bool {
    forall|i: int| 0 <= i < s.len() ==> s[i] != '\0'
}

/// Whether `b` holds no zero byte.
pub open spec fn no_zero(b: Seq<u8>) -> bool {
    forall|i: int| 0 <= i < b.len() ==> b[i] != 0
}

proof fn lemma_scalar_bytes_nonzero(c: char)
    requires
        c != '\0',
    ensures
        no_zero(encode_scalar(c as u32)),
{
    let v = c as u32;
    assert(v != 0);
    if has_width_1_encoding(v) {
        assert(v <= 0x7f && v != 0 ==> (v & 0x7F) as u8 != 0) by (bit_vector);
    } else if has_width_2_encoding(v) {
        assert(forall|x: u32| (0xC0u8 | ((x >> 6) & 0x1F) as u8) != 0) by (bit_vector);
        assert(forall|x: u32| (0x80u8 | (x & 0x3F) as u8) != 0) by (bit_vector);
    } else if has_width_3_encoding(v) {
        assert(forall|x: u32| (0xE0u8 | ((x >> 12) & 0x0F) as u8) != 0) by (bit_vector);
        assert(forall|x: u32| (0x80u8 | ((x >> 6) & 0x3F) as u8) != 0) by (bit_vector);
        assert(forall|x: u32| (0x80u8 | (x & 0x3F) as u8) != 0) by (bit_vector);
    } else {
        assert(forall|x: u32| (0xF0u8 | ((x >> 18) & 0x7) as u8) != 0) by (bit_vector);
        assert(forall|x: u32| (0x80u8 | ((x >> 12) & 0x3F) as u8) != 0) by (bit_vector);
        assert(forall|x: u32| (0x80u8 | ((x >> 6) & 0x3F) as u8) != 0) by (bit_vector);
        assert(forall|x: u32| (0x80u8 | (x & 0x3F) as u8) != 0) by (bit_vector);
    }
}

/// The UTF-8 encoding of NUL-free text holds no zero byte.
pub proof fn lemma_encode_no_zero(t: Seq<char>)
    requires
        no_nul(t),
    ensures
        no_zero(encode_utf8(t)),
    decreases t.len(),
{
    if t.len() > 0 {
        assert(no_nul(t.drop_first()));
        lemma_encode_no_zero(t.drop_first());
        lemma_scalar_bytes_nonzero(t[0]);
        let a = encode_scalar(t[0] as u32);
        let b = encode_utf8(t.drop_first());
        assert forall|i: int| 0 <= i < (a + b).len() implies (a + b)[i] != 0 by {
            if i >= a.len() {
                assert((a + b)[i] == b[i - a.len()]);
            }
        }
    }
}


/// `<[u8]>::len`. A slice never spans more than `isize::MAX` bytes (std's documentation of
/// `slice::from_raw_parts`: the total size of a slice is no larger than `isize::MAX`), so
/// its length is at most that.
#[verifier::external_body]
pub(crate) fn byte_len(b: &[u8]) -> (r: usize)
    ensures
        r == b@.len(),
        r <= isize::MAX,
{
    b.len()
}

/// `std::str::from_utf8`: the text when `b` is valid UTF-8, `None` otherwise.
#[verifier::external_body]
pub(crate) fn str_from_utf8(b: &[u8]) -> (r: Option<&str>)
    ensures
        r is Some <==> valid_utf8(b@),
        r matches Some(s) ==> s.spec_bytes() == b@,
{
    std::str::from_utf8(b).ok()
}

/// Text read from bytes: decoded when they are valid UTF-8, lossily otherwise.
pub open spec fn bytes_text(b: Seq<u8>) -> Seq<char> {
    if valid_utf8(b) {
        decode_utf8(b)
    } else {
        utf8_lossy(b)
    }
}

/// `String::from_utf8_lossy(b).into_owned()`, with the valid case proved rather than trusted.
pub fn text_from_bytes(b: &[u8]) -> (r: String)
    ensures
        r@ == bytes_text(b@),
{
    match str_from_utf8(b) {
        Some(s) => {
            proof {
                encode_utf8_decode_utf8(s@);
            }
            s.to_owned()
        },
        None => string_from_utf8_lossy(b),
    }
}

/// The text of UTF-8 that was produced by encoding `t` is `t` again.
pub proof fn lemma_bytes_text_encode(t: Seq<char>)
    ensures
        bytes_text(encode_utf8(t)) == t,
{
    encode_utf8_valid_utf8(t);
    encode_utf8_decode_utf8(t);
}


/// A new vector holding the bytes of `v`.
pub fn slice_to_vec_u8(v: &[u8]) -> (r: Vec<u8>)
    ensures
        r@ == v@,
{
    let mut r: Vec<u8> = Vec::new();
    let mut i: usize = 0;
    while i < v.len()
        invariant
            i <= v@.len(),
            r@ == v@.take(i as int),
        decreases v@.len() - i,
    {
        r.push(v[i]);
        assert(v@.take(i + 1) =~= v@.take(i as int).push(v@[i as int]));
        i = i + 1;
    }
    assert(v@.take(i as int) =~= v@);
    r
}

} // verus!
