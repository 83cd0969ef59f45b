use escacs::command::{frame, Go};
use escacs::parser::{Field, ParseError};
use escacs::records::{BestMove, Info, Score};
use escacs::notation::NotationError;
use escacs::session::{
    startup_command, Action, Event, Failure, Notation, Op, Phase, Session, Wanted,
};

fn line(text: &str) -> Event {
    Event::Line(text.to_string())
}

fn go(job: Go) -> Event {
    Event::Request(Op::Go(job))
}

fn ready() -> Session {
    let mut session = Session::new();
    assert_eq!(session.step(Event::Request(Op::Start)), Action::Write("uci".to_string()));
    assert!(matches!(session.step(line("uciok")), Action::Write(_)));
    assert_eq!(session.step(line("readyok")), Action::Nothing);
    assert_eq!(session.phase(), Phase::Idle);
    session
}

fn searching() -> Session {
    let mut session = ready();
    assert!(matches!(session.step(go(Go::new())), Action::Write(_)));
    assert_eq!(session.phase(), Phase::Searching);
    session
}

fn delivered(actions: &[Action]) -> Vec<&Info> {
    actions
        .iter()
        .filter_map(|a| match a {
            Action::Deliver(info) => Some(info),
            _ => None,
        })
        .collect()
}

#[test]
fn new_session_is_fresh() {
    let session = Session::new();
    assert_eq!(session.phase(), Phase::Fresh);
    assert!(!session.is_searching());
    assert!(session.origin().is_none());
}

#[test]
fn handshake_bytes() {
    let mut session = Session::new();
    let mut wire = String::new();
    match session.step(Event::Request(Op::Start)) {
        Action::Write(cmd) => wire.push_str(&frame(cmd)),
        other => panic!("{other:?}"),
    }
    assert_eq!(wire, "uci\n");
    assert_eq!(session.phase(), Phase::Greeting);
    assert_eq!(session.step(line("id name Stockfish 17")), Action::Nothing);
    assert_eq!(session.step(line("id author the Stockfish developers")), Action::Nothing);
    assert_eq!(
        session.step(line("option name Threads type spin default 1 min 1 max 1024")),
        Action::Nothing
    );
    assert_eq!(session.phase(), Phase::Greeting);
    let after = match session.step(line("uciok")) {
        Action::Write(cmd) => frame(cmd),
        other => panic!("{other:?}"),
    };
    assert_eq!(
        after,
        "setoption name Threads value 8\nsetoption name UCI_ShowWDL value true\nsetoption name MultiPV value 3\nisready\n"
    );
    assert_eq!(session.phase(), Phase::Configuring);
    assert_eq!(session.step(line("uciok")), Action::Nothing);
    assert_eq!(session.phase(), Phase::Configuring);
    assert_eq!(session.step(line("readyok")), Action::Nothing);
    assert_eq!(session.phase(), Phase::Idle);
}

#[test]
fn startup_command_text() {
    assert_eq!(
        startup_command(),
        "setoption name Threads value 8\nsetoption name UCI_ShowWDL value true\nsetoption name MultiPV value 3\nisready"
    );
}

#[test]
fn keyword_lines_are_matched_whole() {
    let mut session = Session::new();
    session.step(Event::Request(Op::Start));
    for text in ["uciok ", " uciok", "UCIOK", "uciok\n", "readyok"] {
        assert_eq!(session.step(line(text)), Action::Nothing);
        assert_eq!(session.phase(), Phase::Greeting);
    }
}

#[test]
fn start_is_taken_once() {
    let mut session = Session::new();
    assert_eq!(session.step(Event::Request(Op::Start)), Action::Write("uci".to_string()));
    assert_eq!(session.step(Event::Request(Op::Start)), Action::Nothing);
    assert_eq!(session.phase(), Phase::Greeting);
    let mut idle = ready();
    assert_eq!(idle.step(Event::Request(Op::Start)), Action::Nothing);
    assert_eq!(idle.phase(), Phase::Idle);
    let mut busy = searching();
    assert_eq!(busy.step(Event::Request(Op::Start)), Action::Nothing);
    assert_eq!(busy.phase(), Phase::Searching);
}

#[test]
fn handshake_fails_at_end_of_output() {
    let mut session = Session::new();
    session.step(Event::Request(Op::Start));
    assert_eq!(session.step(Event::Eof), Action::Nothing);
    assert_eq!(session.phase(), Phase::Dead);
    let mut later = Session::new();
    later.step(Event::Request(Op::Start));
    later.step(line("uciok"));
    assert_eq!(later.step(Event::Eof), Action::Nothing);
    assert_eq!(later.phase(), Phase::Dead);
}

#[test]
fn requests_before_the_handshake_are_refused() {
    let mut session = Session::new();
    assert_eq!(session.step(go(Go::new())), Action::Refuse);
    assert_eq!(session.step(Event::Request(Op::NewGame)), Action::Refuse);
    assert_eq!(session.step(Event::Cancel), Action::Refuse);
    assert_eq!(session.phase(), Phase::Fresh);
    session.step(Event::Request(Op::Start));
    assert_eq!(session.step(go(Go::new())), Action::Refuse);
    assert_eq!(session.step(Event::Request(Op::NewGame)), Action::Refuse);
    assert_eq!(session.step(Event::Cancel), Action::Refuse);
    assert_eq!(session.phase(), Phase::Greeting);
}

#[test]
fn basic_search() {
    let mut session = ready();
    let mut actions = Vec::new();
    actions.push(session.step(go(Go::new().depth(1))));
    assert_eq!(actions[0], Action::Write("position startpos\ngo depth 1\n".to_string()));
    assert!(session.is_searching());
    actions.push(session.step(line("info depth 1 score cp 34 pv e2e4")));
    assert!(session.is_searching());
    actions.push(session.step(line("bestmove e2e4")));
    assert!(!session.is_searching());
    assert_eq!(session.phase(), Phase::Idle);
    let reports = delivered(&actions);
    assert_eq!(reports.len(), 1);
    assert_eq!(
        *reports[0],
        Info {
            depth: 1,
            score: Score::Cp(34),
            pv: vec!["e2e4".to_string()],
            ..Info::default()
        }
    );
    assert_eq!(
        actions[2],
        Action::Complete(BestMove { best: "e2e4".to_string(), ponder: None })
    );
}

#[test]
fn preemption() {
    let mut session = ready();
    let mut actions = Vec::new();
    actions.push(session.step(go(Go::new().fen("8/8/8/8/8/8/8/K1k5 w - - 0 1").depth(20))));
    actions.push(session.step(line("info depth 1 score cp 10 pv a1a2")));
    actions.push(session.step(line("info depth 2 score cp 11 pv a1a2")));
    actions.push(session.step(line("info depth 3 score cp 12 pv a1a2")));
    assert_eq!(delivered(&actions).len(), 3);
    assert_eq!(session.step(Event::Cancel), Action::Write("stop\nisready".to_string()));
    assert_eq!(session.phase(), Phase::Stopping);
    assert!(session.is_searching());
    assert_eq!(session.step(go(Go::new().depth(1))), Action::Refuse);
    assert_eq!(session.step(line("info depth 4 score cp 13 pv a1a2")), Action::Nothing);
    assert_eq!(session.step(line("bestmove a1a2")), Action::Nothing);
    assert!(session.is_searching());
    assert_eq!(session.step(line("readyok")), Action::Acknowledge);
    assert!(!session.is_searching());
    assert_eq!(session.phase(), Phase::Idle);
    actions.push(session.step(go(Go::new().depth(1))));
    actions.push(session.step(line("info depth 1 score cp -7 pv e2e4")));
    actions.push(session.step(line("bestmove e2e4")));
    let reports = delivered(&actions);
    assert_eq!(reports.len(), 4);
    assert_eq!(
        reports.iter().map(|i| i.depth).collect::<Vec<_>>(),
        vec![1, 2, 3, 1]
    );
    assert_eq!(reports[3].score, Score::Cp(-7));
    assert_eq!(session.phase(), Phase::Idle);
}

#[test]
fn unreadable_line_while_stopping_is_dropped() {
    let mut session = searching();
    session.step(Event::Cancel);
    assert_eq!(session.step(line("info depth 1 score weird 0")), Action::Nothing);
    assert_eq!(session.step(line("info depth")), Action::Nothing);
    assert_eq!(session.phase(), Phase::Stopping);
}

#[test]
fn end_of_output_mid_search() {
    let mut session = ready();
    session.step(go(Go::new()));
    assert!(matches!(
        session.step(line("info depth 1 score cp 34 pv e2e4")),
        Action::Deliver(_)
    ));
    assert_eq!(session.step(Event::Eof), Action::Nothing);
    assert_eq!(session.phase(), Phase::Dead);
    assert!(!session.is_searching());
    assert_eq!(session.step(go(Go::new())), Action::Refuse);
    assert_eq!(session.step(Event::Request(Op::NewGame)), Action::Refuse);
    assert_eq!(session.step(Event::Cancel), Action::Refuse);
    assert_eq!(session.step(line("bestmove e2e4")), Action::Nothing);
    assert_eq!(session.phase(), Phase::Dead);
}

#[test]
fn end_of_output_in_every_phase() {
    let mut fresh = Session::new();
    fresh.step(Event::Eof);
    assert_eq!(fresh.phase(), Phase::Dead);
    let mut idle = ready();
    idle.step(Event::Eof);
    assert_eq!(idle.phase(), Phase::Dead);
    let mut stopping = searching();
    stopping.step(Event::Cancel);
    assert_eq!(stopping.step(Event::Eof), Action::Nothing);
    assert_eq!(stopping.phase(), Phase::Dead);
    let mut syncing = ready();
    syncing.step(Event::Request(Op::NewGame));
    syncing.step(Event::Eof);
    assert_eq!(syncing.phase(), Phase::Dead);
    let mut dead = ready();
    dead.step(Event::Eof);
    dead.step(Event::Eof);
    assert_eq!(dead.phase(), Phase::Dead);
}

#[test]
fn fault_ends_the_session() {
    let mut session = searching();
    assert_eq!(session.step(Event::Fault), Action::Nothing);
    assert_eq!(session.phase(), Phase::Dead);
    assert!(session.origin().is_none());
    let mut idle = ready();
    idle.step(Event::Fault);
    assert_eq!(idle.phase(), Phase::Dead);
}

#[test]
fn unreadable_line_ends_the_session() {
    let mut session = searching();
    assert_eq!(
        session.step(line("info depth 1 score weird 0 pv e2e4")),
        Action::Fail(Failure::Line(ParseError::UnknownScore))
    );
    assert_eq!(session.phase(), Phase::Dead);
    assert!(!session.is_searching());
    let mut other = searching();
    assert_eq!(
        other.step(line("info depth")),
        Action::Fail(Failure::Line(ParseError::Missing(Field::Depth)))
    );
    assert!(!other.is_searching());
    let mut third = searching();
    assert_eq!(
        third.step(line("bestmove")),
        Action::Fail(Failure::Line(ParseError::Missing(Field::BestMove)))
    );
    assert_eq!(third.phase(), Phase::Dead);
}

#[test]
fn new_game_barrier() {
    let mut session = ready();
    let wire = match session.step(Event::Request(Op::NewGame)) {
        Action::Write(cmd) => frame(cmd),
        other => panic!("{other:?}"),
    };
    assert_eq!(wire, "ucinewgame\nisready\n");
    assert_eq!(session.phase(), Phase::Syncing);
    assert!(!session.is_searching());
    assert_eq!(session.step(go(Go::new())), Action::Refuse);
    assert_eq!(session.step(line("info depth 1 pv e2e4")), Action::Nothing);
    assert_eq!(session.step(line("readyok")), Action::Nothing);
    assert_eq!(session.phase(), Phase::Idle);
    assert_eq!(
        session.step(go(Go::new())),
        Action::Write("position startpos\ngo depth 10\n".to_string())
    );
    assert_eq!(session.phase(), Phase::Searching);
}

#[test]
fn other_lines_are_dropped_while_searching() {
    let mut session = searching();
    for text in ["", "readyok", "uciok", "id name x", "Info depth 3", "   "] {
        assert_eq!(session.step(line(text)), Action::Nothing);
        assert_eq!(session.phase(), Phase::Searching);
    }
}

#[test]
fn any_info_line_is_delivered() {
    let mut session = searching();
    assert_eq!(
        session.step(line("info string NNUE evaluation enabled")),
        Action::Deliver(Info::default())
    );
    assert_eq!(
        session.step(line("info currmove e2e4 currmovenumber 1")),
        Action::Deliver(Info::default())
    );
}

#[test]
fn cancel_when_idle_is_acknowledged_at_once() {
    let mut session = ready();
    assert_eq!(session.step(Event::Cancel), Action::Acknowledge);
    assert_eq!(session.phase(), Phase::Idle);
}

#[test]
fn second_cancel_is_refused() {
    let mut session = searching();
    session.step(Event::Cancel);
    assert_eq!(session.step(Event::Cancel), Action::Refuse);
    assert_eq!(session.phase(), Phase::Stopping);
}

#[test]
fn busy_session_refuses_requests() {
    let mut session = searching();
    assert_eq!(session.step(go(Go::new().depth(3))), Action::Refuse);
    assert_eq!(session.step(Event::Request(Op::NewGame)), Action::Refuse);
    assert_eq!(session.phase(), Phase::Searching);
}

#[test]
fn origin_is_the_fen_of_the_running_job() {
    let mut session = ready();
    session.step(go(Go::new().fen("8/8/8/8/8/8/8/K1k5 w - - 0 1")));
    assert_eq!(session.origin().map(|s| s.as_str()), Some("8/8/8/8/8/8/8/K1k5 w - - 0 1"));
    session.step(line("info depth 1"));
    assert_eq!(session.origin().map(|s| s.as_str()), Some("8/8/8/8/8/8/8/K1k5 w - - 0 1"));
    session.step(line("bestmove a1a2"));
    assert!(session.origin().is_none());
    session.step(go(Go::new()));
    assert!(session.origin().is_none());
    session.step(line("bestmove e2e4"));
    session.step(go(Go::new().fen("x")));
    session.step(Event::Cancel);
    assert!(session.origin().is_none());
}

#[test]
fn lines_are_dropped_when_idle() {
    let mut session = ready();
    assert_eq!(session.step(line("info depth 1 pv e2e4")), Action::Nothing);
    assert_eq!(session.step(line("bestmove e2e4")), Action::Nothing);
    assert_eq!(session.step(line("info depth")), Action::Nothing);
    assert_eq!(session.phase(), Phase::Idle);
}

#[test]
fn one_job_at_a_time_over_a_long_run() {
    let mut session = ready();
    let mut taken = 0;
    let mut ended = 0;
    let mut tags = Vec::new();
    let script: Vec<Event> = vec![
        go(Go::new()),
        go(Go::new()),
        line("info depth 1"),
        Event::Cancel,
        go(Go::new()),
        line("info depth 2"),
        line("readyok"),
        Event::Cancel,
        go(Go::new()),
        line("info depth 3"),
        line("info depth 4"),
        line("bestmove e2e4 ponder e7e5"),
        line("info depth 5"),
        Event::Request(Op::NewGame),
        go(Go::new()),
        line("readyok"),
        go(Go::new()),
        line("info depth 6"),
        Event::Eof,
        go(Go::new()),
    ];
    for event in script {
        let was = session.is_searching();
        let idle = session.phase() == Phase::Idle;
        let is_go = matches!(event, Event::Request(Op::Go(_)));
        let action = session.step(event);
        if is_go && idle {
            taken += 1;
            assert!(matches!(action, Action::Write(_)));
        } else if is_go {
            assert_eq!(action, Action::Refuse);
        }
        if was && !session.is_searching() {
            ended += 1;
        }
        if let Action::Deliver(info) = &action {
            tags.push((taken, info.depth));
        }
        assert_eq!(taken, ended + usize::from(session.is_searching()));
    }
    assert_eq!(taken, 3);
    assert_eq!(ended, 3);
    assert_eq!(tags, vec![(1, 1), (2, 3), (2, 4), (3, 6)]);
}

fn ready_with(notation: Notation) -> Session {
    let mut session = Session::with_notation(notation);
    session.step(Event::Request(Op::Start));
    session.step(line("uciok"));
    session.step(line("readyok"));
    assert_eq!(session.phase(), Phase::Idle);
    session
}

const START: &str = "rnbqkbnr/pppppppp/8/8/8/8/PPPPPPPP/RNBQKBNR w KQkq - 0 1";

#[test]
fn moves_are_written_short_on_request() {
    let mut session = ready_with(Notation::Short);
    session.step(go(Go::new().fen(START).depth(3)));
    match session.step(line("info depth 3 score cp 20 pv e2e4 e7e5 g1f3")) {
        Action::Deliver(info) => {
            assert_eq!(info.pv, vec!["e4", "e5", "Nf3"]);
            assert_eq!(info.depth, 3);
            assert_eq!(info.score, Score::Cp(20));
        }
        other => panic!("{other:?}"),
    }
    assert_eq!(session.phase(), Phase::Searching);
    match session.step(line("info depth 4 pv d2d4")) {
        Action::Deliver(info) => assert_eq!(info.pv, vec!["d4"]),
        other => panic!("{other:?}"),
    }
    assert!(matches!(session.step(line("bestmove e2e4")), Action::Complete(_)));
}

#[test]
fn moves_stay_long_by_default() {
    let mut session = ready_with(Notation::Long);
    session.step(go(Go::new().fen(START)));
    match session.step(line("info depth 3 pv e2e4 e7e5")) {
        Action::Deliver(info) => assert_eq!(info.pv, vec!["e2e4", "e7e5"]),
        other => panic!("{other:?}"),
    }
    let mut plain = ready();
    plain.step(go(Go::new().fen(START)));
    match plain.step(line("info depth 3 pv e2e4 e7e5")) {
        Action::Deliver(info) => assert_eq!(info.pv, vec!["e2e4", "e7e5"]),
        other => panic!("{other:?}"),
    }
}

#[test]
fn moves_stay_long_without_a_starting_position() {
    let mut session = ready_with(Notation::Short);
    session.step(go(Go::new().moves(&["e2e4"])));
    match session.step(line("info depth 3 pv e7e5 g1f3")) {
        Action::Deliver(info) => assert_eq!(info.pv, vec!["e7e5", "g1f3"]),
        other => panic!("{other:?}"),
    }
    assert_eq!(session.phase(), Phase::Searching);
}

#[test]
fn report_that_cannot_be_rewritten_ends_the_session() {
    let mut session = ready_with(Notation::Short);
    session.step(go(Go::new().fen(START)));
    assert_eq!(
        session.step(line("info depth 3 pv e2e4 e2e4")),
        Action::Fail(Failure::Moves(NotationError::Move))
    );
    assert_eq!(session.phase(), Phase::Dead);
    assert!(!session.is_searching());
    let mut other = ready_with(Notation::Short);
    other.step(go(Go::new().fen("no position at all")));
    assert_eq!(
        other.step(line("info depth 1")),
        Action::Fail(Failure::Moves(NotationError::Position))
    );
    assert_eq!(other.phase(), Phase::Dead);
}

#[test]
fn session_waits_for_the_right_side() {
    let mut session = Session::new();
    assert_eq!(session.wants(), Wanted::Requests);
    session.step(Event::Request(Op::Start));
    assert_eq!(session.wants(), Wanted::Lines);
    session.step(line("uciok"));
    assert_eq!(session.wants(), Wanted::Lines);
    session.step(line("readyok"));
    assert_eq!(session.wants(), Wanted::Requests);
    session.step(Event::Request(Op::NewGame));
    assert_eq!(session.wants(), Wanted::Lines);
    session.step(line("readyok"));
    session.step(go(Go::new()));
    assert_eq!(session.wants(), Wanted::LinesOrCancel);
    session.step(Event::Cancel);
    assert_eq!(session.wants(), Wanted::Lines);
    session.step(Event::Eof);
    assert_eq!(session.wants(), Wanted::Nothing);
}
