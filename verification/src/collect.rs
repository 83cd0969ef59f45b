//! One search from its first line to its answer, for a caller that wants
//! the last report and the answer and nothing in between.

use crate::parser::{search, search_spec, ParseError};
use crate::records::{BestMove, BestMoveView, Info, InfoView, Search, SearchView};
use vstd::prelude::*;

verus! {

/// What a finished search can lack.
#[derive(Debug, Clone, Copy, PartialEq, Eq, Structural)]
pub enum Incomplete {
    /// The engine's output ended before any report.
    NoInfo,
    /// The engine's output ended before the answer.
    NoBestMove,
}

/// What an [`Incomplete`] says of itself.
pub open spec fn incomplete_message(e: Incomplete) -> Seq<char> {
    match e {
        Incomplete::NoInfo => "failed to search for info"@,
        Incomplete::NoBestMove => "failed to search for best move"@,
    }
}

impl Incomplete {
    /// The error in words.
    pub fn message(&self) -> (text: &'static str)
        ensures
            text@ == incomplete_message(*self),
    {
        match self {
            Incomplete::NoInfo => "failed to search for info",
            Incomplete::NoBestMove => "failed to search for best move",
        }
    }
}

/// The latest report and the answer of a search, as far as they have come.
#[derive(Debug)]
pub struct Gather {
    info: Option<Info>,
    best: Option<BestMove>,
}

/// What a [`Gather`] holds.
pub struct GatherView {
    pub info: Option<InfoView>,
    pub best: Option<BestMoveView>,
}

impl View for Gather {
    type V = GatherView;

    closed spec fn view(&self) -> GatherView {
        GatherView {
            info: match self.info {
                Some(i) => Some(i@),
                None => None,
            },
            best: match self.best {
                Some(b) => Some(b@),
                None => None,
            },
        }
    }
}

/// What a line adds to what has been gathered, and whether it was the
/// answer. A line that cannot be read adds nothing.
pub open spec fn feed_spec(g: GatherView, line: Seq<char>) -> (GatherView, Result<bool, ParseError>) {
    match search_spec(line) {
        Ok(Some(SearchView::Info(info))) => (GatherView { info: Some(info), ..g }, Ok(false)),
        Ok(Some(SearchView::BestMove(best))) => (GatherView { best: Some(best), ..g }, Ok(true)),
        Ok(None) => (g, Ok(false)),
        Err(e) => (g, Err(e)),
    }
}

/// What a search that ended with the given gatherings has to show.
pub open spec fn finish_spec(g: GatherView) -> Result<(InfoView, BestMoveView), Incomplete> {
    match g.info {
        None => Err(Incomplete::NoInfo),
        Some(info) => match g.best {
            None => Err(Incomplete::NoBestMove),
            Some(best) => Ok((info, best)),
        },
    }
}

/// What the result of [`Gather::finish`] holds.
pub open spec fn finish_outcome(r: Result<(Info, BestMove), Incomplete>) -> Result<
    (InfoView, BestMoveView),
    Incomplete,
> {
    match r {
        Ok((info, best)) => Ok((info@, best@)),
        Err(e) => Err(e),
    }
}

impl Gather {
    /// Nothing gathered yet.
    pub fn new() -> (g: Self)
        ensures
            g@ == (GatherView { info: None, best: None }),
    {
        Gather { info: None, best: None }
    }

    /// Takes the next line of engine output. A report replaces the one
    /// before it; the answer is kept and `true` returned: the search is
    /// over. A line that cannot be read is an error and changes nothing.
    pub fn feed(&mut self, line: &str) -> (done: Result<bool, ParseError>)
        ensures
            (final(self)@, done) == feed_spec(old(self)@, line@),
    {
        match search(line) {
            Ok(Some(Search::Info(info))) => {
                self.info = Some(info);
                Ok(false)
            },
            Ok(Some(Search::BestMove(best))) => {
                self.best = Some(best);
                Ok(true)
            },
            Ok(None) => Ok(false),
            Err(e) => Err(e),
        }
    }

    /// The last report and the answer, if both have been seen.
    pub fn finish(self) -> (r: Result<(Info, BestMove), Incomplete>)
        ensures
            finish_outcome(r) == finish_spec(self@),
    {
        match self.info {
            None => Err(Incomplete::NoInfo),
            Some(info) => match self.best {
                None => Err(Incomplete::NoBestMove),
                Some(best) => Ok((info, best)),
            },
        }
    }
}

} // verus!
