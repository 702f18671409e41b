//! Splitting the pasted text into lines.

use vstd::prelude::*;
use crate::text::{chars_of, string_of};

verus! {

/// The no-break space, which the pasted text uses in places of ordinary spaces.
pub const NO_BREAK_SPACE: char = '\u{a0}';

/// A character with no-break spaces read as spaces.
pub open spec fn plain_char(c: char) -> char {
    if c == NO_BREAK_SPACE { ' ' } else { c }
}

/// A line without its carriage return, where it ended in one before a newline.
pub open spec fn strip_cr(l: Seq<char>) -> Seq<char> {
    if l.len() > 0 && l.last() == '\r' { l.drop_last() } else { l }
}

/// The complete lines read from `s`, and the line begun but not yet ended.
pub open spec fn split_state(s: Seq<char>) -> (Seq<Seq<char>>, Seq<char>)
    decreases s.len(),
{
    if s.len() == 0 {
        (Seq::empty(), Seq::empty())
    } else {
        let (done, cur) = split_state(s.drop_last());
        if s.last() == '\n' {
            (done.push(strip_cr(cur)), Seq::empty())
        } else {
            (done, cur.push(plain_char(s.last())))
        }
    }
}

/// The lines of `s`: split at `\n` or `\r\n`, the last line ending being optional,
/// with no-break spaces read as spaces.
pub open spec fn lines_of(s: Seq<char>) -> Seq<Seq<char>> {
    let (done, cur) = split_state(s);
    if cur.len() == 0 { done } else { done.push(cur) }
}

/// The views of a sequence of strings.
pub open spec fn views(v: Seq<String>) -> Seq<Seq<char>> {
    v.map_values(|l: String| l@)
}

/// Splits `raw` into lines, reading no-break spaces as spaces.
pub fn split_lines(raw: &str) -> (r: Vec<String>)
    ensures
        views(r@) == lines_of(raw@),
{
    let src = chars_of(raw);
    let ghost s = src@;
    let mut done: Vec<String> = Vec::new();
    let mut cur: Vec<char> = Vec::new();
    let mut i: usize = 0;
    assert(s.take(0) =~= Seq::<char>::empty());
    while i < src.len()
        invariant
            i <= src.len(),
            src@ == s,
            s == raw@,
            (views(done@), cur@) == split_state(s.take(i as int)),
        decreases src.len() - i,
    {
        let c = src[i];
        assert(s.take(i + 1).drop_last() =~= s.take(i as int));
        assert(s.take(i + 1).last() == c);
        if c == '\n' {
            let ghost before = cur@;
            if cur.len() > 0 && cur[cur.len() - 1] == '\r' {
                cur.pop();
            }
            assert(cur@ == strip_cr(before));
            let ghost prev = views(done@);
            done.push(string_of(&cur));
            assert(views(done@) =~= prev.push(strip_cr(before)));
            cur = Vec::new();
        } else {
            cur.push(if c == NO_BREAK_SPACE { ' ' } else { c });
        }
        i = i + 1;
    }
    assert(s.take(i as int) =~= s);
    if cur.len() > 0 {
        let ghost prev = views(done@);
        done.push(string_of(&cur));
        assert(views(done@) =~= prev.push(cur@));
    }
    done
}

} // verus!
