//! Tables as text: a text is cut into lines, and a line into the fields
//! that a separator keeps apart.

use crate::text::{prefix_string, texts, word_string, word_views};
use vstd::prelude::*;
use vstd::std_specs::iter::IteratorSpec;

verus! {

/// Length of the longest prefix of `s` that does not hold `sep`.
pub open spec fn until(s: Seq<char>, sep: char) -> nat
    decreases s.len(),
{
    if s.len() == 0 || s[0] == sep {
        0
    } else {
        1 + until(s.skip(1), sep)
    }
}

/// The pieces that `sep` cuts `s` into, in order. There is one piece more
/// than there are separators, and a piece may be empty.
pub open spec fn split(s: Seq<char>, sep: char) -> Seq<Seq<char>>
    decreases s.len(),
{
    let n = until(s, sep) as int;
    if n >= s.len() {
        seq![s]
    } else {
        seq![s.take(n)] + split(s.skip(n + 1), sep)
    }
}

/// A piece of text without the carriage return at its end, if it has one.
pub open spec fn strip_cr(p: Seq<char>) -> Seq<char> {
    if p.len() > 0 && p.last() == '\r' {
        p.drop_last()
    } else {
        p
    }
}

/// The lines of a text. A line ends with a line feed, or with a carriage
/// return and a line feed, neither of which belongs to it. What follows the
/// last line feed is a line too, unless it is empty.
pub open spec fn lines(s: Seq<char>) -> Seq<Seq<char>> {
    let parts = split(s, '\n');
    let ended = Seq::new((parts.len() - 1) as nat, |i: int| strip_cr(parts[i]));
    if parts.last().len() > 0 {
        ended.push(parts.last())
    } else {
        ended
    }
}

/// A piece without separator, followed by nothing or by a separator, is cut
/// off whole.
pub proof fn lemma_until_prefix(w: Seq<char>, r: Seq<char>, sep: char)
    requires
        forall|i: int| 0 <= i < w.len() ==> #[trigger] w[i] != sep,
        r.len() == 0 || r[0] == sep,
    ensures
        until(w + r, sep) == w.len(),
    decreases w.len(),
{
    if w.len() == 0 {
        assert(w + r =~= r);
    } else {
        let s = w + r;
        assert(s[0] == w[0]);
        assert(s.skip(1) =~= w.skip(1) + r);
        lemma_until_prefix(w.skip(1), r, sep);
    }
}

/// A text is cut into at least one piece.
pub proof fn lemma_split_is_not_empty(s: Seq<char>, sep: char)
    ensures
        split(s, sep).len() >= 1,
    decreases s.len(),
{
    let n = until(s, sep) as int;
    if n < s.len() {
        lemma_split_is_not_empty(s.skip(n + 1), sep);
    }
}

/// The characters of a text.
pub fn chars_of(text: &str) -> (chars: Vec<char>)
    ensures
        chars@ == text@,
{
    let ghost s = text@;
    let mut chars: Vec<char> = Vec::new();
    let mut it = text.chars();
    let ghost mut i: int = 0;
    loop
        invariant
            s == text@,
            0 <= i <= s.len(),
            it.obeys_prophetic_iter_laws(),
            it.remaining() == s.skip(i),
            chars@ == s.take(i),
        decreases s.len() - i,
    {
        match it.next() {
            Some(c) => {
                chars.push(c);
                proof {
                    assert(s.skip(i).drop_first() =~= s.skip(i + 1));
                    assert(s.take(i + 1) =~= s.take(i).push(s[i]));
                    i = i + 1;
                }
            },
            None => {
                assert(s.take(i) =~= s);
                return chars;
            },
        }
    }
}

/// Cuts a text at every `sep`.
pub fn split_at(text: &Vec<char>, sep: char) -> (pieces: Vec<Vec<char>>)
    ensures
        word_views(pieces@) == split(text@, sep),
{
    let ghost s = text@;
    let mut done: Vec<Vec<char>> = Vec::new();
    let mut cur: Vec<char> = Vec::new();
    let mut i: usize = 0;
    assert(word_views(done@) =~= Seq::<Seq<char>>::empty());
    assert(cur@ + s.skip(0) =~= s);
    while i < text.len()
        invariant
            s == text@,
            i <= text.len(),
            forall|k: int| 0 <= k < cur@.len() ==> #[trigger] cur@[k] != sep,
            split(s, sep) == word_views(done@) + split(cur@ + s.skip(i as int), sep),
        decreases text.len() - i,
    {
        let ghost before = word_views(done@);
        let ghost rest = s.skip(i as int);
        let ghost whole = cur@ + rest;
        let c: char = text[i];
        assert(rest[0] == c);
        if c == sep {
            proof {
                lemma_until_prefix(cur@, rest, sep);
                assert(whole.take(cur@.len() as int) =~= cur@);
                assert(whole.skip(cur@.len() as int + 1) =~= s.skip(i + 1));
            }
            let ghost piece = cur@;
            done.push(cur);
            cur = Vec::new();
            proof {
                assert(word_views(done@) =~= before + seq![piece]);
                assert(cur@ + s.skip(i + 1) =~= s.skip(i + 1));
                assert(before + (seq![piece] + split(s.skip(i + 1), sep)) =~= (before
                    + seq![piece]) + split(s.skip(i + 1), sep));
            }
        } else {
            let ghost old_cur = cur@;
            cur.push(c);
            proof {
                assert(cur@ + s.skip(i + 1) =~= old_cur + rest);
            }
        }
        i = i + 1;
    }
    let ghost before = word_views(done@);
    let ghost piece = cur@;
    proof {
        assert(s.skip(i as int) =~= Seq::<char>::empty());
        assert(cur@ + s.skip(i as int) =~= cur@);
        lemma_until_prefix(cur@, Seq::<char>::empty(), sep);
        assert(cur@ + Seq::<char>::empty() =~= cur@);
    }
    done.push(cur);
    assert(word_views(done@) =~= before + seq![piece]);
    done
}

/// Cuts a text into its lines.
pub fn split_lines(text: &str) -> (rows: Vec<String>)
    ensures
        texts(rows@) == lines(text@),
{
    let chars = chars_of(text);
    let parts = split_at(&chars, '\n');
    let ghost pieces = word_views(parts@);
    proof {
        lemma_split_is_not_empty(text@, '\n');
    }
    let last: usize = parts.len() - 1;
    let ghost ended = Seq::new(last as nat, |i: int| strip_cr(pieces[i]));
    let mut rows: Vec<String> = Vec::new();
    let mut k: usize = 0;
    assert(texts(rows@) =~= ended.take(0));
    while k < last
        invariant
            k <= last,
            last == parts.len() - 1,
            pieces == word_views(parts@),
            ended == Seq::new(last as nat, |i: int| strip_cr(pieces[i])),
            texts(rows@) == ended.take(k as int),
        decreases last - k,
    {
        let piece = &parts[k];
        assert(pieces[k as int] == piece@);
        let n: usize = piece.len();
        let row = if n > 0 && piece[n - 1] == '\r' {
            prefix_string(piece, n - 1)
        } else {
            assert(piece@.take(n as int) =~= piece@);
            prefix_string(piece, n)
        };
        assert(row@ == strip_cr(piece@));
        let ghost before = texts(rows@);
        rows.push(row);
        assert(texts(rows@) =~= before.push(ended[k as int]));
        assert(ended.take(k + 1) =~= ended.take(k as int).push(ended[k as int]));
        k = k + 1;
    }
    assert(ended.take(k as int) =~= ended);
    assert(pieces.last() == parts@[last as int]@);
    if parts[last].len() > 0 {
        let row = word_string(&parts[last]);
        let ghost before = texts(rows@);
        rows.push(row);
        assert(texts(rows@) =~= before.push(pieces.last()));
    }
    rows
}

} // verus!
