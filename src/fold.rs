//! Line folding and line-ending normalisation of finished calendar documents.

use vstd::prelude::*;
use crate::text::{chars_of, string_of};

verus! {

/// Number of counted characters at which a line is broken.
pub const FOLD_AT: usize = 74;

/// Folding of `s` when `count` characters of the current line have been counted:
/// a newline resets the count; the character that brings the count to the limit
/// is preceded by a newline and one space, and the count restarts from zero.
pub open spec fn fold_from(s: Seq<char>, count: nat) -> Seq<char>
    decreases s.len(),
{
    if s.len() == 0 {
        Seq::empty()
    } else if s[0] == '\n' {
        seq!['\n'] + fold_from(s.drop_first(), 0)
    } else if count + 1 >= FOLD_AT {
        seq!['\n', ' ', s[0]] + fold_from(s.drop_first(), 0)
    } else {
        seq![s[0]] + fold_from(s.drop_first(), count + 1)
    }
}

/// The folded form of a whole document.
pub open spec fn folded(s: Seq<char>) -> Seq<char> {
    fold_from(s, 0)
}

/// `t` with every newline-plus-space continuation removed.
pub open spec fn unfolded(t: Seq<char>) -> Seq<char>
    decreases t.len(),
{
    if t.len() == 0 {
        Seq::empty()
    } else if t.len() >= 2 && t[0] == '\n' && t[1] == ' ' {
        unfolded(t.skip(2))
    } else {
        seq![t[0]] + unfolded(t.drop_first())
    }
}

/// No newline of `s` is directly followed by a space.
pub open spec fn no_continuations(s: Seq<char>) -> bool {
    forall|i: int| 0 <= i < s.len() - 1 && #[trigger] s[i] == '\n' ==> s[i + 1] != ' '
}

/// Every line of `t` (the text between newlines) holds at most `limit` characters,
/// the first of them continuing a line of `run` characters.
pub open spec fn lines_within(t: Seq<char>, run: nat, limit: nat) -> bool
    decreases t.len(),
{
    if t.len() == 0 {
        true
    } else if t[0] == '\n' {
        lines_within(t.drop_first(), 0, limit)
    } else {
        run + 1 <= limit && lines_within(t.drop_first(), run + 1, limit)
    }
}

/// `s` with every newline written as carriage return and newline.
pub open spec fn crlf(s: Seq<char>) -> Seq<char>
    decreases s.len(),
{
    if s.len() == 0 {
        Seq::empty()
    } else if s[0] == '\n' {
        seq!['\r', '\n'] + crlf(s.drop_first())
    } else {
        seq![s[0]] + crlf(s.drop_first())
    }
}

proof fn lemma_fold_first(s: Seq<char>)
    requires
        s.len() > 0,
    ensures
        fold_from(s, 0).len() > 0,
        fold_from(s, 0)[0] == s[0],
{
    let t = fold_from(s, 0);
    if s[0] == '\n' {
        assert(t == seq!['\n'] + fold_from(s.drop_first(), 0));
    } else {
        assert(t == seq![s[0]] + fold_from(s.drop_first(), 1));
    }
}

proof fn lemma_unfold_fold_from(s: Seq<char>, count: nat)
    requires
        no_continuations(s),
    ensures
        unfolded(fold_from(s, count)) == s,
    decreases s.len(),
{
    if s.len() > 0 {
        let rest = s.drop_first();
        assert(no_continuations(rest)) by {
            assert forall|i: int| 0 <= i < rest.len() - 1 && #[trigger] rest[i] == '\n' implies rest[i + 1] != ' ' by {
                assert(rest[i] == s[i + 1] && rest[i + 1] == s[i + 2]);
            }
        }
        if s[0] == '\n' {
            lemma_unfold_fold_from(rest, 0);
            let f = fold_from(rest, 0);
            let t = seq!['\n'] + f;
            assert(fold_from(s, count) == t);
            if f.len() > 0 {
                lemma_fold_first(rest);
                assert(s[1] != ' ');
                assert(t[1] == s[1]);
            }
            assert(t.drop_first() =~= f);
            assert(unfolded(t) == seq!['\n'] + unfolded(f));
            assert(seq!['\n'] + rest =~= s);
        } else if count + 1 >= FOLD_AT {
            lemma_unfold_fold_from(rest, 0);
            let f = fold_from(rest, 0);
            let t = seq!['\n', ' ', s[0]] + f;
            assert(t.skip(2) =~= seq![s[0]] + f);
            assert((seq![s[0]] + f).drop_first() =~= f);
            assert(unfolded(seq![s[0]] + f) == seq![s[0]] + unfolded(f));
            assert(seq![s[0]] + rest =~= s);
        } else {
            lemma_unfold_fold_from(rest, count + 1);
            let f = fold_from(rest, count + 1);
            let t = seq![s[0]] + f;
            assert(t.drop_first() =~= f);
            assert(seq![s[0]] + rest =~= s);
        }
    } else {
        assert(s =~= Seq::<char>::empty());
    }
}

/// Removing every continuation inserted by folding gives back the document,
/// provided no line of the document itself starts with a space.
pub proof fn lemma_unfold_folded(s: Seq<char>)
    requires
        no_continuations(s),
    ensures
        unfolded(folded(s)) == s,
{
    lemma_unfold_fold_from(s, 0);
}

proof fn lemma_fold_from_within(s: Seq<char>, count: nat, run: nat)
    requires
        count < FOLD_AT,
        run <= count + 2,
    ensures
        lines_within(fold_from(s, count), run, (FOLD_AT + 1) as nat),
    decreases s.len(),
{
    if s.len() > 0 {
        let rest = s.drop_first();
        if s[0] == '\n' {
            lemma_fold_from_within(rest, 0, 0);
            let f = fold_from(rest, 0);
            assert((seq!['\n'] + f).drop_first() =~= f);
        } else if count + 1 >= FOLD_AT {
            lemma_fold_from_within(rest, 0, 2);
            let f = fold_from(rest, 0);
            let t = seq!['\n', ' ', s[0]] + f;
            assert(t.drop_first() =~= seq![' ', s[0]] + f);
            assert(t.drop_first().drop_first() =~= seq![s[0]] + f);
            assert((seq![s[0]] + f).drop_first() =~= f);
            assert(lines_within(seq![s[0]] + f, 1, (FOLD_AT + 1) as nat));
            assert(lines_within(t.drop_first(), 0, (FOLD_AT + 1) as nat));
        } else {
            lemma_fold_from_within(rest, count + 1, run + 1);
            let f = fold_from(rest, count + 1);
            assert((seq![s[0]] + f).drop_first() =~= f);
        }
    }
}

/// After folding, no line holds more than the limit of counted characters plus
/// its one continuation space.
pub proof fn lemma_folded_line_length(s: Seq<char>)
    ensures
        lines_within(folded(s), 0, (FOLD_AT + 1) as nat),
{
    lemma_fold_from_within(s, 0, 0);
}

/// Every line of `t` holds at most the limit plus one characters, and a line that
/// reaches the limit starts with a space: it continues a broken line. The first
/// line of `t` continues one of `run` characters, which starts with a space when
/// `cont` holds.
pub open spec fn lines_folded(t: Seq<char>, run: nat, cont: bool) -> bool
    decreases t.len(),
{
    if t.len() == 0 {
        true
    } else if t[0] == '\n' {
        lines_folded(t.drop_first(), 0, t.len() > 1 && t[1] == ' ')
    } else {
        &&& run + 1 <= FOLD_AT + 1
        &&& run + 1 >= FOLD_AT ==> cont
        &&& lines_folded(t.drop_first(), run + 1, cont)
    }
}

proof fn lemma_fold_from_folded(s: Seq<char>, count: nat, run: nat, cont: bool)
    requires
        count < FOLD_AT,
        cont ==> run <= count + 2,
        !cont ==> run == count,
    ensures
        lines_folded(fold_from(s, count), run, cont),
    decreases s.len(),
{
    if s.len() > 0 {
        let rest = s.drop_first();
        if s[0] == '\n' {
            let f = fold_from(rest, 0);
            let t = seq!['\n'] + f;
            assert(t.drop_first() =~= f);
            if rest.len() > 0 {
                lemma_fold_first(rest);
                assert(t[1] == f[0]);
            }
            lemma_fold_from_folded(rest, 0, 0, t.len() > 1 && t[1] == ' ');
        } else if count + 1 >= FOLD_AT {
            lemma_fold_from_folded(rest, 0, 2, true);
            let f = fold_from(rest, 0);
            let t = seq!['\n', ' ', s[0]] + f;
            assert(t.drop_first() =~= seq![' ', s[0]] + f);
            assert(t.drop_first().drop_first() =~= seq![s[0]] + f);
            assert((seq![s[0]] + f).drop_first() =~= f);
            assert(lines_folded(seq![s[0]] + f, 1, true));
            assert(lines_folded(t.drop_first(), 0, true));
        } else {
            lemma_fold_from_folded(rest, count + 1, run + 1, cont);
            let f = fold_from(rest, count + 1);
            assert((seq![s[0]] + f).drop_first() =~= f);
        }
    }
}

/// After folding, a line holds at most the limit of counted characters plus its
/// continuation space, and only a continuation line, which starts with that space,
/// reaches the limit: the first line of a broken line keeps one character less.
pub proof fn lemma_folded_lines_are_continued(s: Seq<char>)
    ensures
        lines_folded(folded(s), 0, false),
{
    lemma_fold_from_folded(s, 0, 0, false);
}

/// Breaks every line of `calendar` that reaches the length limit, continuing it
/// on the next line after one space.
pub fn fold_calendar(calendar: &mut String)
    ensures
        final(calendar)@ == folded(old(calendar)@),
{
    let src = chars_of(calendar.as_str());
    let ghost s = src@;
    let mut out: Vec<char> = Vec::new();
    let mut count: usize = 0;
    let mut i: usize = 0;
    assert(s.skip(0) =~= s);
    assert(out@ + fold_from(s.skip(0), 0) =~= folded(s));
    while i < src.len()
        invariant
            i <= src.len(),
            src@ == s,
            count < FOLD_AT,
            out@ + fold_from(s.skip(i as int), count as nat) == folded(s),
        decreases src.len() - i,
    {
        let c = src[i];
        let ghost rest = s.skip(i as int);
        assert(rest[0] == c);
        assert(rest.drop_first() =~= s.skip(i + 1));
        if c == '\n' {
            out.push(c);
            count = 0;
            assert(out@ + fold_from(s.skip(i + 1), 0) =~= folded(s));
        } else if count + 1 >= FOLD_AT {
            out.push('\n');
            out.push(' ');
            out.push(c);
            count = 0;
            assert(out@ + fold_from(s.skip(i + 1), 0) =~= folded(s));
        } else {
            out.push(c);
            count = count + 1;
            assert(out@ + fold_from(s.skip(i + 1), count as nat) =~= folded(s));
        }
        i = i + 1;
    }
    assert(s.skip(i as int) =~= Seq::<char>::empty());
    assert(out@ =~= folded(s));
    *calendar = string_of(&out);
}

/// `s` with every newline written as carriage return and newline.
pub fn to_crlf(s: &str) -> (r: String)
    ensures
        r@ == crlf(s@),
{
    let src = chars_of(s);
    let ghost t = src@;
    let mut out: Vec<char> = Vec::new();
    let mut i: usize = 0;
    assert(t.skip(0) =~= t);
    assert(out@ + crlf(t.skip(0)) =~= crlf(t));
    while i < src.len()
        invariant
            i <= src.len(),
            src@ == t,
            t == s@,
            out@ + crlf(t.skip(i as int)) == crlf(t),
        decreases src.len() - i,
    {
        let c = src[i];
        let ghost rest = t.skip(i as int);
        assert(rest[0] == c);
        assert(rest.drop_first() =~= t.skip(i + 1));
        if c == '\n' {
            out.push('\r');
        }
        out.push(c);
        i = i + 1;
        assert(out@ + crlf(t.skip(i as int)) =~= crlf(t));
    }
    assert(t.skip(i as int) =~= Seq::<char>::empty());
    assert(out@ =~= crlf(t));
    string_of(&out)
}

} // verus!
