//! Rewriting a line of play from the engine's long notation (`g1f3`) into
//! the short notation of chess books (`Nf3`).
//!
//! The rules of chess are not this library's: whether a text is a position,
//! whether a move can be played in it, how the move is written and what
//! position it leads to is asked of `shakmaty`. Positions go in and out as
//! texts in Forsyth-Edwards notation.

use crate::records::{Info, InfoView};
use crate::text::{opt_text, texts};
use shakmaty::fen::Fen;
use shakmaty::san::San;
use shakmaty::uci::UciMove;
use shakmaty::{CastlingMode, Chess, EnPassantMode, Position};
use vstd::pervasive::VecAdditionalExecFns;
use vstd::prelude::*;

verus! {

/// Whether `fen` is a position of standard chess, as `shakmaty` reads it.
pub uninterp spec fn is_position(fen: Seq<char>) -> bool;

/// The move `uci`, given in long notation, written in short notation for
/// the position `fen`; nothing where `fen` is no position or `uci` is no
/// legal move in it.
pub uninterp spec fn san_of_move(fen: Seq<char>, uci: Seq<char>) -> Option<Seq<char>>;

/// The position that the move `uci` leads to from the position `fen`;
/// nothing where `fen` is no position or `uci` is no legal move in it.
pub uninterp spec fn fen_after_move(fen: Seq<char>, uci: Seq<char>) -> Option<Seq<char>>;

/// Whether `word` is a move in short notation by its looks alone, whatever
/// the position.
pub uninterp spec fn is_san(word: Seq<char>) -> bool;

/// The position that the move `word`, given in short notation, leads to
/// from the position `fen`; nothing where `fen` is no position or `word`
/// does not stand for exactly one legal move in it.
pub uninterp spec fn fen_after_san(fen: Seq<char>, word: Seq<char>) -> Option<Seq<char>>;

/// Why a line of play could not be rewritten.
#[derive(Debug, Clone, Copy, PartialEq, Eq, Structural)]
pub enum NotationError {
    /// The text given as the starting position is none.
    Position,
    /// A move of the line cannot be played where it stands.
    Move,
}

/// Asks `shakmaty` whether a text is a position: `Fen::from_str` has to
/// read it, and `Fen::into_position` has to accept what was read as a
/// position of standard chess. The answer depends on the text alone.
#[verifier::external_body]
fn position_ok(fen: &str) -> (ok: bool)
    ensures
        ok == is_position(fen@),
{
    match fen.parse::<Fen>() {
        Ok(setup) => setup.into_position::<Chess>(CastlingMode::Standard).is_ok(),
        Err(_) => false,
    }
}

/// Asks `shakmaty` for the short notation of a move: the position is set up
/// from the text, `UciMove::to_move` finds the legal move that the long
/// notation means, and `San::from_move` writes it. The answer depends on
/// the two texts alone.
#[verifier::external_body]
fn san(fen: &str, uci: &str) -> (r: Option<String>)
    ensures
        opt_text(r) == san_of_move(fen@, uci@),
{
    let pos: Chess = fen.parse::<Fen>().ok()?.into_position(CastlingMode::Standard).ok()?;
    let m = uci.parse::<UciMove>().ok()?.to_move(&pos).ok()?;
    Some(San::from_move(&pos, m).to_string())
}

/// Asks `shakmaty` for the position after a move: the position is set up
/// from the text, `UciMove::to_move` finds the legal move that the long
/// notation means, `Position::play_unchecked` plays it, and
/// `Fen::from_position` writes the position reached. The answer depends on
/// the two texts alone.
#[verifier::external_body]
fn play(fen: &str, uci: &str) -> (r: Option<String>)
    ensures
        opt_text(r) == fen_after_move(fen@, uci@),
{
    let mut pos: Chess = fen.parse::<Fen>().ok()?.into_position(CastlingMode::Standard).ok()?;
    let m = uci.parse::<UciMove>().ok()?.to_move(&pos).ok()?;
    pos.play_unchecked(m);
    Some(Fen::from_position(&pos, EnPassantMode::Legal).to_string())
}

/// Asks `shakmaty` whether a word looks like a move in short notation:
/// `San::from_str` has to read it. The answer depends on the word alone.
#[verifier::external_body]
pub(crate) fn san_ok(word: &str) -> (ok: bool)
    ensures
        ok == is_san(word@),
{
    word.parse::<San>().is_ok()
}

/// Asks `shakmaty` for the position after a move in short notation: the
/// position is set up from the text, `San::to_move` finds the one legal
/// move that the word stands for, `Position::play_unchecked` plays it, and
/// `Fen::from_position` writes the position reached. The answer depends on
/// the two texts alone.
#[verifier::external_body]
pub(crate) fn play_san(fen: &str, word: &str) -> (r: Option<String>)
    ensures
        opt_text(r) == fen_after_san(fen@, word@),
{
    let mut pos: Chess = fen.parse::<Fen>().ok()?.into_position(CastlingMode::Standard).ok()?;
    let m = word.parse::<San>().ok()?.to_move(&pos).ok()?;
    pos.play_unchecked(m);
    Some(Fen::from_position(&pos, EnPassantMode::Legal).to_string())
}

/// A line of play rewritten move by move from the position `fen`, and
/// whether all of it was rewritten. Each move is written for the position
/// that the moves before it lead to. From the first move that cannot be
/// played on, the line is left as it was.
pub open spec fn rewrite(fen: Seq<char>, pv: Seq<Seq<char>>) -> (Seq<Seq<char>>, bool)
    decreases pv.len(),
{
    if pv.len() == 0 {
        (pv, true)
    } else {
        match (san_of_move(fen, pv[0]), fen_after_move(fen, pv[0])) {
            (Some(short), Some(next)) => {
                let (rest, whole) = rewrite(next, pv.skip(1));
                (seq![short] + rest, whole)
            },
            _ => (pv, false),
        }
    }
}

/// What [`prettyfy`] makes of a line of play, and what it returns.
pub open spec fn prettyfy_spec(fen: Seq<char>, pv: Seq<Seq<char>>) -> (
    Seq<Seq<char>>,
    Result<(), NotationError>,
) {
    if !is_position(fen) {
        (pv, Err(NotationError::Position))
    } else if rewrite(fen, pv).1 {
        (rewrite(fen, pv).0, Ok(()))
    } else {
        (rewrite(fen, pv).0, Err(NotationError::Move))
    }
}

/// Rewrites the line of play of a report into short notation. `fen` is the
/// position that the search started from.
///
/// Nothing but the line of play changes. Where `fen` is no position the
/// line stays as it is; where a move cannot be played, the moves before it
/// are rewritten and the line stays as it is from that move on. Both are
/// errors.
pub fn prettyfy(fen: &str, info: &mut Info) -> (r: Result<(), NotationError>)
    ensures
        final(info)@ == (InfoView { pv: prettyfy_spec(fen@, old(info)@.pv).0, ..old(info)@ }),
        r == prettyfy_spec(fen@, old(info)@.pv).1,
{
    let ghost start = info@;
    let ghost line = start.pv;
    if !position_ok(fen) {
        assert(info@.pv =~= line);
        return Err(NotationError::Position);
    }
    let mut cur: String = fen.to_owned();
    let mut k: usize = 0;
    assert(texts(info.pv@).take(0) + line.skip(0) =~= line);
    assert(line.skip(0) =~= line);
    assert(texts(info.pv@).take(0) + rewrite(cur@, line.skip(0)).0 =~= rewrite(fen@, line).0);
    while k < info.pv.len()
        invariant
            k <= info.pv.len(),
            is_position(fen@),
            start == old(info)@,
            line == start.pv,
            info.pv@.len() == line.len(),
            info@ == (InfoView { pv: texts(info.pv@), ..start }),
            texts(info.pv@).skip(k as int) == line.skip(k as int),
            rewrite(fen@, line).0 == texts(info.pv@).take(k as int) + rewrite(
                cur@,
                line.skip(k as int),
            ).0,
            rewrite(fen@, line).1 == rewrite(cur@, line.skip(k as int)).1,
        decreases info.pv.len() - k,
    {
        let ghost now = texts(info.pv@);
        let ghost tail = line.skip(k as int);
        assert(tail[0] == now[k as int]);
        assert(now[k as int] == info.pv@[k as int]@);
        let short = san(cur.as_str(), info.pv[k].as_str());
        let next = play(cur.as_str(), info.pv[k].as_str());
        match (short, next) {
            (Some(short), Some(next)) => {
                let ghost word = short@;
                info.pv.set(k, short);
                cur = next;
                proof {
                    let after = texts(info.pv@);
                    assert(after =~= now.update(k as int, word));
                    assert forall|j: int| k < j < line.len() implies after[j] == line[j] by {
                        assert(now.skip(k as int)[j - k] == now[j]);
                        assert(line.skip(k as int)[j - k] == line[j]);
                    }
                    assert(after.skip(k + 1) =~= line.skip(k + 1));
                    assert(tail.skip(1) =~= line.skip(k + 1));
                    assert(after.take(k + 1) =~= now.take(k as int) + seq![word]);
                    assert(now.take(k as int) + (seq![word] + rewrite(cur@, tail.skip(1)).0)
                        =~= after.take(k + 1) + rewrite(cur@, line.skip(k + 1)).0);
                }
                k = k + 1;
            },
            _ => {
                proof {
                    assert(now.take(k as int) + now.skip(k as int) =~= now);
                }
                return Err(NotationError::Move);
            },
        }
    }
    proof {
        let now = texts(info.pv@);
        assert(line.skip(k as int) =~= Seq::<Seq<char>>::empty());
        assert(now.take(k as int) =~= now);
        assert(now + Seq::<Seq<char>>::empty() =~= now);
    }
    Ok(())
}

} // verus!
