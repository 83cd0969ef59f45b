//! Lexical layer of the engine protocol: lines are cut into words at runs of
//! whitespace, and words are compared with the protocol's keywords.

use vstd::prelude::*;
use vstd::std_specs::iter::IteratorSpec;

verus! {

/// `String::push` of the standard library: appends one character to the end
/// of the string and leaves what was there before untouched.
pub assume_specification[ String::push ](s: &mut String, c: char)
    ensures
        final(s)@ == old(s)@.push(c),
;

/// The characters that separate words: the code points with the Unicode
/// property `White_Space`.
pub open spec fn is_space(c: char) -> bool {
    let n = c as u32;
    ||| 0x09 <= n <= 0x0D
    ||| n == 0x20
    ||| n == 0x85
    ||| n == 0xA0
    ||| n == 0x1680
    ||| 0x2000 <= n <= 0x200A
    ||| n == 0x2028
    ||| n == 0x2029
    ||| n == 0x202F
    ||| n == 0x205F
    ||| n == 0x3000
}

/// A word is a non-empty run of characters none of which is whitespace.
pub open spec fn is_word(w: Seq<char>) -> bool {
    &&& w.len() > 0
    &&& forall|i: int| 0 <= i < w.len() ==> !is_space(#[trigger] w[i])
}

/// Length of the longest prefix of `s` that holds no whitespace.
pub open spec fn word_len(s: Seq<char>) -> nat
    decreases s.len(),
{
    if s.len() == 0 || is_space(s[0]) {
        0
    } else {
        1 + word_len(s.skip(1))
    }
}

/// The words of a line, in order: leading whitespace is dropped, the longest
/// whitespace-free run is one word, and the rest is cut the same way.
pub open spec fn tokens(s: Seq<char>) -> Seq<Seq<char>>
    decreases s.len(),
{
    if s.len() == 0 {
        Seq::empty()
    } else if is_space(s[0]) {
        tokens(s.skip(1))
    } else {
        proof {
            lemma_word_len_bounds(s);
        }
        seq![s.take(word_len(s) as int)] + tokens(s.skip(word_len(s) as int))
    }
}

/// The words of `words` with `sep` between each two of them.
pub open spec fn join(words: Seq<Seq<char>>, sep: Seq<char>) -> Seq<char>
    decreases words.len(),
{
    if words.len() == 0 {
        Seq::empty()
    } else if words.len() == 1 {
        words[0]
    } else {
        join(words.drop_last(), sep) + sep + words.last()
    }
}

/// The texts held by a vector of words.
pub open spec fn word_views(v: Seq<Vec<char>>) -> Seq<Seq<char>> {
    Seq::new(v.len(), |i: int| v[i]@)
}

/// The texts held by a vector of strings.
pub open spec fn texts(v: Seq<String>) -> Seq<Seq<char>> {
    Seq::new(v.len(), |i: int| v[i]@)
}

/// The text held by an optional string.
pub open spec fn opt_text(o: Option<String>) -> Option<Seq<char>> {
    match o {
        Some(s) => Some(s@),
        None => None,
    }
}

/// The longest whitespace-free prefix ends at the end of the text or at
/// a whitespace character, and holds none.
pub proof fn lemma_word_len_bounds(s: Seq<char>)
    ensures
        word_len(s) <= s.len(),
        s.len() > 0 && !is_space(s[0]) ==> word_len(s) >= 1,
        forall|i: int| 0 <= i < word_len(s) ==> !is_space(#[trigger] s[i]),
        word_len(s) < s.len() ==> is_space(s[word_len(s) as int]),
    decreases s.len(),
{
    if s.len() == 0 || is_space(s[0]) {
    } else {
        let t = s.skip(1);
        lemma_word_len_bounds(t);
        assert forall|i: int| 0 <= i < word_len(s) implies !is_space(#[trigger] s[i]) by {
            if i > 0 {
                assert(s[i] == t[i - 1]);
            }
        }
        if word_len(s) < s.len() {
            assert(s[word_len(s) as int] == t[word_len(t) as int]);
        }
    }
}

/// A word followed by nothing, or by whitespace, is cut off whole.
pub proof fn lemma_word_len_prefix(w: Seq<char>, r: Seq<char>)
    requires
        forall|i: int| 0 <= i < w.len() ==> !is_space(#[trigger] w[i]),
        r.len() == 0 || is_space(r[0]),
    ensures
        word_len(w + r) == w.len(),
    decreases w.len(),
{
    if w.len() == 0 {
        assert(w + r =~= r);
    } else {
        let s = w + r;
        assert(s[0] == w[0]);
        assert(s.skip(1) =~= w.skip(1) + r);
        lemma_word_len_prefix(w.skip(1), r);
    }
}

/// The first word of a line that starts with a word.
pub proof fn lemma_tokens_word_first(w: Seq<char>, r: Seq<char>)
    requires
        is_word(w),
        r.len() == 0 || is_space(r[0]),
    ensures
        tokens(w + r) == seq![w] + tokens(r),
{
    let s = w + r;
    lemma_word_len_prefix(w, r);
    assert(s[0] == w[0]);
    assert(s.take(w.len() as int) =~= w);
    assert(s.skip(w.len() as int) =~= r);
}

/// Every word that `tokens` gives is a word.
pub proof fn lemma_tokens_are_words(s: Seq<char>)
    ensures
        forall|k: int| 0 <= k < tokens(s).len() ==> is_word(#[trigger] tokens(s)[k]),
    decreases s.len(),
{
    if s.len() == 0 {
        assert(tokens(s).len() == 0);
    } else if is_space(s[0]) {
        lemma_tokens_are_words(s.skip(1));
        assert(tokens(s) == tokens(s.skip(1)));
    } else {
        lemma_word_len_bounds(s);
        let n = word_len(s) as int;
        lemma_tokens_are_words(s.skip(n));
        let first = s.take(n);
        let rest = tokens(s.skip(n));
        assert(is_word(first)) by {
            assert forall|i: int| 0 <= i < first.len() implies !is_space(#[trigger] first[i]) by {
                assert(first[i] == s[i]);
            }
        }
        assert(tokens(s) == seq![first] + rest);
        assert forall|k: int| 0 <= k < tokens(s).len() implies is_word(
            #[trigger] tokens(s)[k],
        ) by {
            if k == 0 {
                assert(tokens(s)[0] == first);
            } else {
                assert(tokens(s)[k] == rest[k - 1]);
            }
        }
    }
}

/// A line made of two parts with one whitespace character between them has
/// the words of the first part, then those of the second.
pub proof fn lemma_tokens_concat(a: Seq<char>, sep: char, b: Seq<char>)
    requires
        is_space(sep),
    ensures
        tokens(a + seq![sep] + b) == tokens(a) + tokens(b),
    decreases a.len(),
{
    let s = a + seq![sep] + b;
    if a.len() == 0 {
        assert(s[0] == sep);
        assert(s.skip(1) =~= b);
        assert(tokens(a) + tokens(b) =~= tokens(b));
    } else if is_space(a[0]) {
        assert(s[0] == a[0]);
        assert(s.skip(1) =~= a.skip(1) + seq![sep] + b);
        lemma_tokens_concat(a.skip(1), sep, b);
    } else {
        lemma_word_len_bounds(a);
        let n = word_len(a) as int;
        let word = a.take(n);
        let rest = a.skip(n) + seq![sep] + b;
        assert(s =~= word + rest);
        assert(is_space(rest[0])) by {
            if n < a.len() {
                assert(rest[0] == a[n]);
            } else {
                assert(rest[0] == sep);
            }
        }
        assert forall|i: int| 0 <= i < word.len() implies !is_space(#[trigger] word[i]) by {
            assert(word[i] == a[i]);
        }
        lemma_word_len_prefix(word, rest);
        assert(s[0] == a[0]);
        assert(s.take(n) =~= word);
        assert(s.skip(n) =~= rest);
        lemma_tokens_concat(a.skip(n), sep, b);
        assert(tokens(s) == seq![word] + tokens(rest));
        assert(tokens(a) == seq![word] + tokens(a.skip(n)));
        assert(seq![word] + (tokens(a.skip(n)) + tokens(b)) =~= (seq![word] + tokens(a.skip(n)))
            + tokens(b));
    }
}

/// Words joined by single spaces are cut into the same words again.
pub proof fn lemma_tokens_of_joined(words: Seq<Seq<char>>)
    requires
        forall|k: int| 0 <= k < words.len() ==> is_word(#[trigger] words[k]),
    ensures
        tokens(join(words, " "@)) == words,
    decreases words.len(),
{
    reveal_strlit(" ");
    assert(" "@ =~= seq![' ']);
    if words.len() == 0 {
        assert(words =~= Seq::<Seq<char>>::empty());
    } else if words.len() == 1 {
        assert(is_word(words[0]));
        lemma_tokens_word_first(words[0], Seq::<char>::empty());
        assert(words[0] + Seq::<char>::empty() =~= words[0]);
        assert(seq![words[0]] + tokens(Seq::<char>::empty()) =~= words);
    } else {
        let head = words.drop_last();
        let last = words.last();
        assert forall|k: int| 0 <= k < head.len() implies is_word(#[trigger] head[k]) by {
            assert(head[k] == words[k]);
        }
        lemma_tokens_of_joined(head);
        lemma_tokens_concat(join(head, " "@), ' ', last);
        assert(is_word(last));
        lemma_tokens_word_first(last, Seq::<char>::empty());
        assert(last + Seq::<char>::empty() =~= last);
        assert(tokens(last) =~= seq![last]);
        assert(head + seq![last] =~= words);
    }
}

/// Whether `c` separates words.
pub fn space(c: char) -> (b: bool)
    ensures
        b == is_space(c),
{
    let n: u32 = c as u32;
    (0x09 <= n && n <= 0x0D) || n == 0x20 || n == 0x85 || n == 0xA0 || n == 0x1680 || (0x2000 <= n
        && n <= 0x200A) || n == 0x2028 || n == 0x2029 || n == 0x202F || n == 0x205F || n == 0x3000
}

/// Cuts a line into its words.
pub fn split_words(line: &str) -> (words: Vec<Vec<char>>)
    ensures
        word_views(words@) == tokens(line@),
{
    let ghost s = line@;
    let mut done: Vec<Vec<char>> = Vec::new();
    let mut cur: Vec<char> = Vec::new();
    let mut it = line.chars();
    let ghost mut i: int = 0;
    assert(word_views(done@) =~= Seq::<Seq<char>>::empty());
    assert(cur@ + s.skip(0) =~= s);
    loop
        invariant
            s == line@,
            0 <= i <= s.len(),
            it.obeys_prophetic_iter_laws(),
            it.remaining() == s.skip(i),
            forall|k: int| 0 <= k < cur@.len() ==> !is_space(#[trigger] cur@[k]),
            tokens(s) == word_views(done@) + tokens(cur@ + s.skip(i)),
        decreases s.len() - i,
    {
        let ghost before = word_views(done@);
        let ghost rest = s.skip(i);
        match it.next() {
            Some(c) => {
                assert(c == s[i]);
                assert(rest.drop_first() =~= s.skip(i + 1));
                if space(c) {
                    if cur.len() > 0 {
                        proof {
                            lemma_tokens_word_first(cur@, rest);
                            assert(rest.skip(1) =~= s.skip(i + 1));
                            assert(tokens(rest) == tokens(s.skip(i + 1)));
                        }
                        let ghost word = cur@;
                        done.push(cur);
                        cur = Vec::new();
                        proof {
                            assert(word_views(done@) =~= before + seq![word]);
                            assert(cur@ + s.skip(i + 1) =~= s.skip(i + 1));
                            assert(before + (seq![word] + tokens(s.skip(i + 1))) =~= (before
                                + seq![word]) + tokens(s.skip(i + 1)));
                        }
                    } else {
                        proof {
                            assert(cur@ + rest =~= rest);
                            assert(rest.skip(1) =~= s.skip(i + 1));
                            assert(cur@ + s.skip(i + 1) =~= s.skip(i + 1));
                        }
                    }
                } else {
                    let ghost old_cur = cur@;
                    cur.push(c);
                    proof {
                        assert(cur@ + s.skip(i + 1) =~= old_cur + rest);
                    }
                }
                proof {
                    i = i + 1;
                }
            },
            None => {
                proof {
                    assert(rest =~= Seq::<char>::empty());
                }
                if cur.len() > 0 {
                    proof {
                        lemma_tokens_word_first(cur@, rest);
                    }
                    let ghost word = cur@;
                    done.push(cur);
                    proof {
                        assert(word_views(done@) =~= before + seq![word]);
                        assert(tokens(rest) =~= Seq::<Seq<char>>::empty());
                        assert(before + (seq![word] + tokens(rest)) =~= before + seq![word]);
                    }
                } else {
                    proof {
                        assert(cur@ + rest =~= Seq::<char>::empty());
                        assert(before + tokens(Seq::<char>::empty()) =~= before);
                    }
                }
                return done;
            },
        }
    }
}

/// Whether two texts hold the same characters.
pub fn same_text(a: &str, b: &str) -> (same: bool)
    ensures
        same == (a@ == b@),
{
    let ghost s = a@;
    let ghost t = b@;
    let mut ia = a.chars();
    let mut ib = b.chars();
    let ghost mut k: int = 0;
    loop
        invariant
            s == a@,
            t == b@,
            0 <= k <= s.len(),
            k <= t.len(),
            ia.obeys_prophetic_iter_laws(),
            ib.obeys_prophetic_iter_laws(),
            ia.remaining() == s.skip(k),
            ib.remaining() == t.skip(k),
            s.take(k) == t.take(k),
        decreases s.len() - k,
    {
        let x = ia.next();
        let y = ib.next();
        match x {
            Some(c) => {
                match y {
                    Some(d) => {
                        assert(c == s[k]);
                        assert(d == t[k]);
                        if c != d {
                            return false;
                        }
                        proof {
                            assert(s.skip(k).drop_first() =~= s.skip(k + 1));
                            assert(t.skip(k).drop_first() =~= t.skip(k + 1));
                            assert(s.take(k + 1) =~= s.take(k).push(s[k]));
                            assert(t.take(k + 1) =~= t.take(k).push(t[k]));
                            k = k + 1;
                        }
                    },
                    None => {
                        assert(t.len() == k);
                        return false;
                    },
                }
            },
            None => {
                assert(s.take(k) =~= s);
                match y {
                    Some(_) => {
                        return false;
                    },
                    None => {
                        assert(t.take(k) =~= t);
                        return true;
                    },
                }
            },
        }
    }
}

/// Whether a word is the given text.
pub fn word_is(w: &Vec<char>, text: &str) -> (same: bool)
    ensures
        same == (w@ == text@),
{
    let ghost t = text@;
    let mut it = text.chars();
    let mut k: usize = 0;
    loop
        invariant
            t == text@,
            k <= w.len(),
            k <= t.len(),
            it.obeys_prophetic_iter_laws(),
            it.remaining() == t.skip(k as int),
            w@.take(k as int) == t.take(k as int),
        decreases t.len() - k,
    {
        match it.next() {
            Some(c) => {
                assert(c == t[k as int]);
                assert(t.skip(k as int).drop_first() =~= t.skip(k + 1));
                if k >= w.len() {
                    return false;
                }
                if w[k] != c {
                    return false;
                }
                assert(w@.take(k + 1) =~= w@.take(k as int).push(w@[k as int]));
                assert(t.take(k + 1) =~= t.take(k as int).push(t[k as int]));
                k = k + 1;
            },
            None => {
                assert(t.take(k as int) =~= t);
                if k == w.len() {
                    assert(w@.take(k as int) =~= w@);
                    return true;
                }
                return false;
            },
        }
    }
}

/// The string that holds the first `n` characters of a word.
pub fn prefix_string(w: &Vec<char>, n: usize) -> (s: String)
    requires
        n <= w.len(),
    ensures
        s@ == w@.take(n as int),
{
    let mut s = String::new();
    let mut k: usize = 0;
    while k < n
        invariant
            k <= n <= w.len(),
            s@ == w@.take(k as int),
        decreases n - k,
    {
        s.push(w[k]);
        assert(w@.take(k + 1) =~= w@.take(k as int).push(w@[k as int]));
        k = k + 1;
    }
    s
}

/// The string that holds the characters of a word.
pub fn word_string(w: &Vec<char>) -> (s: String)
    ensures
        s@ == w@,
{
    assert(w@.take(w@.len() as int) =~= w@);
    prefix_string(w, w.len())
}

} // verus!
