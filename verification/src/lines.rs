//! Splitting text into lines the way `str::lines` does.

use vstd::prelude::*;

verus! {

/// A line with the `\r` of a `\r\n` ending removed.
pub open spec fn strip_cr(c: Seq<char>) -> Seq<char> {
    if c.len() > 0 && c.last() == '\r' {
        c.drop_last()
    } else {
        c
    }
}

/// Scanning `s` from the front: the lines finished by a `\n`, and the unfinished rest.
pub open spec fn line_state(s: Seq<char>) -> (Seq<Seq<char>>, Seq<char>)
    decreases s.len(),
{
    if s.len() == 0 {
        (seq![], seq![])
    } else {
        let (d, c) = line_state(s.drop_last());
        if s.last() == '\n' {
            (d.push(strip_cr(c)), seq![])
        } else {
            (d, c.push(s.last()))
        }
    }
}

/// The lines of `s`: split at `\n`, a `\r` right before a `\n` dropped, and no empty last
/// line after a final `\n`.
pub open spec fn lines_spec(s: Seq<char>) -> Seq<Seq<char>> {
    let (d, c) = line_state(s);
    if c.len() == 0 {
        d
    } else {
        d.push(c)
    }
}

/// `s.lines()` collected.
pub fn split_lines(s: &[char]) -> (r: Vec<Vec<char>>)
    ensures
        r@.len() == lines_spec(s@).len(),
        forall|i: int| 0 <= i < r@.len() ==> (#[trigger] r@[i])@ == lines_spec(s@)[i],
{
    let ghost v = s@;
    let mut done: Vec<Vec<char>> = Vec::new();
    let mut cur: Vec<char> = Vec::new();
    let mut i: usize = 0;
    while i < s.len()
        invariant
            i <= v.len(),
            v == s@,
            cur@ == line_state(v.take(i as int)).1,
            done@.len() == line_state(v.take(i as int)).0.len(),
            forall|k: int| 0 <= k < done@.len() ==> (#[trigger] done@[k])@ == line_state(v.take(i as int)).0[k],
        decreases v.len() - i,
    {
        assert(v.take(i + 1).drop_last() =~= v.take(i as int));
        assert(v.take(i + 1).last() == v[i as int]);
        if s[i] == '\n' {
            let l = cur.len();
            if l > 0 && cur[l - 1] == '\r' {
                cur.pop();
            }
            assert(cur@ == strip_cr(line_state(v.take(i as int)).1));
            done.push(cur);
            cur = Vec::new();
        } else {
            cur.push(s[i]);
        }
        i = i + 1;
    }
    assert(v.take(i as int) =~= v);
    if cur.len() > 0 {
        done.push(cur);
    }
    done
}

} // verus!
