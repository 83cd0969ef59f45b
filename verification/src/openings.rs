//! The book of openings: named lines of play, found again by the position
//! that they lead to.

use crate::notation::{fen_after_san, is_san, play_san, san_ok};
use crate::table::{chars_of, lines, split, split_at, split_lines};
use crate::text::{opt_text, same_text, split_words, texts, tokens, word_string, word_views};
use vstd::prelude::*;

verus! {

/// The initial position of chess.
pub const START_FEN: &'static str = "rnbqkbnr/pppppppp/8/8/8/8/PPPPPPPP/RNBQKBNR w KQkq - 0 1";

/// A named opening.
#[derive(Debug, PartialEq, Eq)]
pub struct Opening {
    /// The opening's code in the Encyclopaedia of Chess Openings.
    pub eco: String,
    /// The opening's name.
    pub name: String,
    /// The moves of the opening, numbered, in short notation.
    pub pgn: String,
    /// The position after those moves.
    pub fen: String,
}

/// What an [`Opening`] holds, as plain texts.
pub struct OpeningView {
    pub eco: Seq<char>,
    pub name: Seq<char>,
    pub pgn: Seq<char>,
    pub fen: Seq<char>,
}

impl View for Opening {
    type V = OpeningView;

    open spec fn view(&self) -> OpeningView {
        OpeningView { eco: self.eco@, name: self.name@, pgn: self.pgn@, fen: self.fen@ }
    }
}

/// What a vector of openings holds.
pub open spec fn book_views(book: Seq<Opening>) -> Seq<OpeningView> {
    Seq::new(book.len(), |i: int| book[i]@)
}

/// The position reached from `fen` by the moves among `words`. A word that
/// does not look like a move, such as a move number, is passed over. A word
/// that looks like a move and cannot be played leaves no position.
pub open spec fn final_position(fen: Seq<char>, words: Seq<Seq<char>>) -> Option<Seq<char>>
    decreases words.len(),
{
    if words.len() == 0 {
        Some(fen)
    } else if !is_san(words[0]) {
        final_position(fen, words.skip(1))
    } else {
        match fen_after_san(fen, words[0]) {
            Some(next) => final_position(next, words.skip(1)),
            None => None,
        }
    }
}

/// The opening that a row of the book stands for: code, name and moves,
/// with a tabulator between each two, and the position that the moves lead
/// to from the initial position. A row with fewer than three fields, or
/// with a move that cannot be played, stands for none.
pub open spec fn opening_of(row: Seq<char>) -> Option<OpeningView> {
    let fields = split(row, '\t');
    if fields.len() < 3 {
        None
    } else {
        match final_position(START_FEN@, tokens(fields[2])) {
            Some(fen) => Some(OpeningView { eco: fields[0], name: fields[1], pgn: fields[2], fen }),
            None => None,
        }
    }
}

/// The openings that rows stand for, if every row stands for one.
pub open spec fn openings_of(rows: Seq<Seq<char>>) -> Option<Seq<OpeningView>>
    decreases rows.len(),
{
    if rows.len() == 0 {
        Some(Seq::empty())
    } else {
        match (openings_of(rows.drop_last()), opening_of(rows.last())) {
            (Some(head), Some(last)) => Some(head.push(last)),
            _ => None,
        }
    }
}

/// The book that a table stands for: one opening for each line but the
/// first, which holds the headings.
pub open spec fn book_of(table: Seq<char>) -> Option<Seq<OpeningView>> {
    let rows = lines(table);
    if rows.len() == 0 {
        Some(Seq::empty())
    } else {
        openings_of(rows.skip(1))
    }
}

/// Whether the opening at index `i` is the first of the book that leads to
/// the position `fen`.
pub open spec fn is_first_with(book: Seq<Opening>, fen: Seq<char>, i: int) -> bool {
    &&& 0 <= i < book.len()
    &&& book[i]@.fen == fen
    &&& forall|j: int| 0 <= j < i ==> (#[trigger] book[j])@.fen != fen
}

/// What the result of [`Opening::from_tsv`] holds.
pub open spec fn opening_outcome(r: Option<Opening>) -> Option<OpeningView> {
    match r {
        Some(o) => Some(o@),
        None => None,
    }
}

/// What the result of [`gather_openings`] holds.
pub open spec fn book_outcome(r: Option<Vec<Opening>>) -> Option<Seq<OpeningView>> {
    match r {
        Some(book) => Some(book_views(book@)),
        None => None,
    }
}

/// Plays the moves among the words of `pgn` from the initial position.
fn play_through(pgn: &str) -> (fen: Option<String>)
    ensures
        opt_text(fen) == final_position(START_FEN@, tokens(pgn@)),
{
    let words = split_words(pgn);
    let ghost toks = word_views(words@);
    let mut fen: String = START_FEN.to_owned();
    let mut k: usize = 0;
    assert(toks.skip(0) =~= toks);
    while k < words.len()
        invariant
            k <= words.len(),
            toks == word_views(words@),
            toks == tokens(pgn@),
            final_position(START_FEN@, toks) == final_position(fen@, toks.skip(k as int)),
        decreases words.len() - k,
    {
        let ghost rest = toks.skip(k as int);
        assert(rest[0] == words@[k as int]@);
        assert(rest.skip(1) =~= toks.skip(k + 1));
        let word = word_string(&words[k]);
        if san_ok(word.as_str()) {
            match play_san(fen.as_str(), word.as_str()) {
                Some(next) => {
                    fen = next;
                },
                None => {
                    return None;
                },
            }
        }
        k = k + 1;
    }
    assert(toks.skip(k as int) =~= Seq::<Seq<char>>::empty());
    Some(fen)
}

impl Opening {
    /// Reads one row of the book: code, name and moves, with a tabulator
    /// between each two. Fields after the third are passed over.
    ///
    /// Returns nothing for a row with fewer than three fields and for a row
    /// one of whose moves cannot be played.
    pub fn from_tsv(line: &str) -> (r: Option<Opening>)
        ensures
            opening_outcome(r) == opening_of(line@),
    {
        let chars = chars_of(line);
        let fields = split_at(&chars, '\t');
        let ghost parts = word_views(fields@);
        if fields.len() < 3 {
            return None;
        }
        assert(parts[0] == fields@[0]@);
        assert(parts[1] == fields@[1]@);
        assert(parts[2] == fields@[2]@);
        let pgn = word_string(&fields[2]);
        match play_through(pgn.as_str()) {
            Some(fen) => Some(
                Opening {
                    eco: word_string(&fields[0]),
                    name: word_string(&fields[1]),
                    pgn,
                    fen,
                },
            ),
            None => None,
        }
    }
}

/// Reads a book: a table whose first line holds the headings and each of
/// whose other lines is a row as [`Opening::from_tsv`] reads it.
///
/// Returns the openings in the order of their rows, or nothing if some row
/// stands for no opening.
pub fn gather_openings(table: &str) -> (r: Option<Vec<Opening>>)
    ensures
        book_outcome(r) == book_of(table@),
{
    let rows = split_lines(table);
    let ghost all = texts(rows@);
    let mut book: Vec<Opening> = Vec::new();
    if rows.len() == 0 {
        assert(book_views(book@) =~= Seq::<OpeningView>::empty());
        return Some(book);
    }
    let ghost body = all.skip(1);
    let mut k: usize = 1;
    assert(body.take(0) =~= Seq::<Seq<char>>::empty());
    assert(book_views(book@) =~= Seq::<OpeningView>::empty());
    while k < rows.len()
        invariant
            1 <= k <= rows.len(),
            all == texts(rows@),
            all == lines(table@),
            body == all.skip(1),
            openings_of(body.take(k - 1)) == Some(book_views(book@)),
        decreases rows.len() - k,
    {
        let ghost head = body.take(k - 1);
        let ghost next = body.take(k as int);
        assert(next.drop_last() =~= head);
        assert(next.last() == rows@[k as int]@);
        match Opening::from_tsv(rows[k].as_str()) {
            Some(opening) => {
                let ghost before = book_views(book@);
                let ghost view = opening@;
                book.push(opening);
                assert(book_views(book@) =~= before.push(view));
            },
            None => {
                proof {
                    assert(opening_of(next.last()) is None);
                    assert(openings_of(next) is None);
                    lemma_bad_row_spoils_the_book(body, k as int);
                }
                return None;
            },
        }
        k = k + 1;
    }
    assert(body.take(k - 1) =~= body);
    Some(book)
}

/// A row that stands for no opening leaves no book, whatever follows it.
proof fn lemma_bad_row_spoils_the_book(rows: Seq<Seq<char>>, k: int)
    requires
        1 <= k <= rows.len(),
        openings_of(rows.take(k)) is None,
    ensures
        openings_of(rows) is None,
    decreases rows.len() - k,
{
    if k == rows.len() {
        assert(rows.take(k) =~= rows);
    } else {
        assert(rows.take(k + 1).drop_last() =~= rows.take(k));
        lemma_bad_row_spoils_the_book(rows, k + 1);
    }
}

/// The first opening of the book that leads to the position `fen`, given as
/// the position is written in the book.
pub fn find_opening<'a>(book: &'a Vec<Opening>, fen: &str) -> (r: Option<&'a Opening>)
    ensures
        match r {
            Some(o) => exists|i: int| is_first_with(book@, fen@, i) && *o == book@[i],
            None => forall|j: int| 0 <= j < book.len() ==> (#[trigger] book@[j])@.fen != fen@,
        },
{
    let mut i: usize = 0;
    while i < book.len()
        invariant
            i <= book.len(),
            forall|j: int| 0 <= j < i ==> (#[trigger] book@[j])@.fen != fen@,
        decreases book.len() - i,
    {
        if same_text(book[i].fen.as_str(), fen) {
            assert(is_first_with(book@, fen@, i as int));
            return Some(&book[i]);
        }
        i = i + 1;
    }
    None
}

} // verus!
