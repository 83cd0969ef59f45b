//! The records that the engine reports while it searches.

use crate::text::texts;
use vstd::prelude::*;

verus! {

/// An engine evaluation, from the point of view of the side to move.
#[derive(Debug, Clone, Copy, PartialEq, Eq, Structural)]
pub enum Score {
    /// Advantage in hundredths of a pawn.
    Cp(i32),
    /// Forced mate: the sign tells which side mates, the magnitude how far
    /// away the mate is.
    Mate(i32),
}

impl Default for Score {
    fn default() -> (score: Self)
        ensures
            score == Score::Cp(0),
    {
        Score::Cp(0)
    }
}

impl Score {
    /// Whether the evaluation announces a forced mate.
    pub fn is_checkmate(&self) -> (mate: bool)
        ensures
            mate == (*self is Mate),
    {
        match self {
            Score::Mate(_) => true,
            Score::Cp(_) => false,
        }
    }
}

/// One progress report of a running search. A key that the engine leaves out
/// keeps its zero or empty value.
#[derive(Debug, PartialEq, Eq)]
pub struct Info {
    /// Number of half-moves the search looks ahead.
    pub depth: u32,
    /// Deepest point that the search has reached in some line.
    pub seldepth: u32,
    /// Rank of this line among the principal variations reported.
    pub multipv: u32,
    /// Evaluation of the position.
    pub score: Score,
    /// Chances of win, draw and loss in permille, for the side to move.
    pub wdl: (u64, u64, u64),
    /// Positions evaluated so far.
    pub nodes: u64,
    /// Positions evaluated per second.
    pub nps: u64,
    /// Fill of the hash table in permille.
    pub hashfull: u32,
    /// Positions found in the endgame tablebases.
    pub tbhits: u64,
    /// Milliseconds spent on this search.
    pub time: u64,
    /// The line of play that the engine considers best.
    pub pv: Vec<String>,
}

/// What an [`Info`] holds, with the moves of its line as plain texts.
pub struct InfoView {
    pub depth: u32,
    pub seldepth: u32,
    pub multipv: u32,
    pub score: Score,
    pub wdl: (u64, u64, u64),
    pub nodes: u64,
    pub nps: u64,
    pub hashfull: u32,
    pub tbhits: u64,
    pub time: u64,
    pub pv: Seq<Seq<char>>,
}

/// The report in which no key has been seen yet.
pub open spec fn blank_info() -> InfoView {
    InfoView {
        depth: 0,
        seldepth: 0,
        multipv: 0,
        score: Score::Cp(0),
        wdl: (0, 0, 0),
        nodes: 0,
        nps: 0,
        hashfull: 0,
        tbhits: 0,
        time: 0,
        pv: Seq::empty(),
    }
}

impl View for Info {
    type V = InfoView;

    open spec fn view(&self) -> InfoView {
        InfoView {
            depth: self.depth,
            seldepth: self.seldepth,
            multipv: self.multipv,
            score: self.score,
            wdl: self.wdl,
            nodes: self.nodes,
            nps: self.nps,
            hashfull: self.hashfull,
            tbhits: self.tbhits,
            time: self.time,
            pv: texts(self.pv@),
        }
    }
}

impl Default for Info {
    fn default() -> (info: Self)
        ensures
            info@ == blank_info(),
    {
        let info = Info {
            depth: 0,
            seldepth: 0,
            multipv: 0,
            score: Score::Cp(0),
            wdl: (0, 0, 0),
            nodes: 0,
            nps: 0,
            hashfull: 0,
            tbhits: 0,
            time: 0,
            pv: Vec::new(),
        };
        assert(texts(info.pv@) =~= Seq::<Seq<char>>::empty());
        info
    }
}

/// The engine's final answer to a search.
#[derive(Debug, PartialEq, Eq)]
pub struct BestMove {
    /// The move to play.
    pub best: String,
    /// The reply that the engine expects, if it named one.
    pub ponder: Option<String>,
}

/// What a [`BestMove`] holds, as plain texts.
pub struct BestMoveView {
    pub best: Seq<char>,
    pub ponder: Option<Seq<char>>,
}

impl View for BestMove {
    type V = BestMoveView;

    open spec fn view(&self) -> BestMoveView {
        BestMoveView {
            best: self.best@,
            ponder: match self.ponder {
                Some(p) => Some(p@),
                None => None,
            },
        }
    }
}

impl Default for BestMove {
    fn default() -> (best: Self)
        ensures
            best@ == (BestMoveView { best: Seq::empty(), ponder: None }),
    {
        BestMove { best: String::new(), ponder: None }
    }
}

/// A record of a search: a progress report, or the final answer.
#[derive(Debug, PartialEq, Eq)]
pub enum Search {
    Info(Info),
    BestMove(BestMove),
}

/// What a [`Search`] record holds.
pub enum SearchView {
    Info(InfoView),
    BestMove(BestMoveView),
}

impl View for Search {
    type V = SearchView;

    open spec fn view(&self) -> SearchView {
        match self {
            Search::Info(info) => SearchView::Info(info@),
            Search::BestMove(best) => SearchView::BestMove(best@),
        }
    }
}

/// Receiver of the records of a search, in the order in which the engine
/// emits them.
pub trait Visitor {
    /// Called with each progress report.
    fn info(&mut self, info: Info);

    /// Called with the final answer, after the last progress report.
    fn best(&mut self, best: BestMove);
}

/// Hands a record to the visitor and tells whether it ended the search.
pub fn visit<V: Visitor>(visitor: &mut V, record: Search) -> (ended: bool)
    ensures
        ended == (record is BestMove),
{
    match record {
        Search::Info(info) => {
            visitor.info(info);
            false
        },
        Search::BestMove(best) => {
            visitor.best(best);
            true
        },
    }
}

} // verus!
