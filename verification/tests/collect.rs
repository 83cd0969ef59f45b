use escacs::collect::{Gather, Incomplete};
use escacs::parser::ParseError;
use escacs::records::{BestMove, Info, Score, Search};
use escacs::records::{visit, Visitor};

#[test]
fn last_report_and_answer() {
    let mut run = Gather::new();
    assert_eq!(run.feed("info depth 1 score cp 10 pv e2e4"), Ok(false));
    assert_eq!(run.feed("readyok"), Ok(false));
    assert_eq!(run.feed("info depth 2 score cp 20 pv d2d4"), Ok(false));
    assert_eq!(run.feed("bestmove d2d4 ponder d7d5"), Ok(true));
    let (info, best) = run.finish().unwrap();
    assert_eq!(
        info,
        Info { depth: 2, score: Score::Cp(20), pv: vec!["d2d4".to_string()], ..Info::default() }
    );
    assert_eq!(
        best,
        BestMove { best: "d2d4".to_string(), ponder: Some("d7d5".to_string()) }
    );
}

#[test]
fn answer_without_report() {
    let mut run = Gather::new();
    assert_eq!(run.feed("bestmove e2e4"), Ok(true));
    assert_eq!(run.finish(), Err(Incomplete::NoInfo));
}

#[test]
fn report_without_answer() {
    let mut run = Gather::new();
    assert_eq!(run.feed("info depth 1"), Ok(false));
    assert_eq!(run.finish(), Err(Incomplete::NoBestMove));
}

#[test]
fn nothing_at_all() {
    assert_eq!(Gather::new().finish(), Err(Incomplete::NoInfo));
}

#[test]
fn unreadable_line_changes_nothing() {
    let mut run = Gather::new();
    run.feed("info depth 3").unwrap();
    assert_eq!(run.feed("info score weird 1"), Err(ParseError::UnknownScore));
    run.feed("bestmove a1a2").unwrap();
    let (info, _) = run.finish().unwrap();
    assert_eq!(info.depth, 3);
}

#[derive(Default)]
struct Recorder {
    depths: Vec<u32>,
    best: Option<String>,
}

impl Visitor for Recorder {
    fn info(&mut self, info: Info) {
        self.depths.push(info.depth);
    }

    fn best(&mut self, best: BestMove) {
        self.best = Some(best.best);
    }
}

#[test]
fn visitor_sees_every_record() {
    let mut seen = Recorder::default();
    let first = Info { depth: 1, ..Info::default() };
    let second = Info { depth: 2, ..Info::default() };
    assert!(!visit(&mut seen, Search::Info(first)));
    assert!(!visit(&mut seen, Search::Info(second)));
    let best = BestMove { best: "e2e4".to_string(), ponder: None };
    assert!(visit(&mut seen, Search::BestMove(best)));
    assert_eq!(seen.depths, vec![1, 2]);
    assert_eq!(seen.best.as_deref(), Some("e2e4"));
}

#[test]
fn incomplete_searches_in_words() {
    assert_eq!(Incomplete::NoInfo.message(), "failed to search for info");
    assert_eq!(Incomplete::NoBestMove.message(), "failed to search for best move");
}
