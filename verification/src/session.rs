//! The session with one engine: what to do next, given what has happened.
//!
//! A session is a state machine. Whoever runs it hands it each event (a
//! request of the caller, a cancellation, a line of engine output, the end
//! of that output) and carries out the action that it answers with. The
//! session never touches the engine itself.

use crate::command::{options_text, opts, payload, prepare, Go, GoView};
use crate::notation::{prettyfy, prettyfy_spec, NotationError};
use crate::parser::{search, search_spec, ParseError};
use crate::records::{BestMove, BestMoveView, Info, InfoView, Search, SearchView};
use crate::text::{opt_text, same_text};
use vstd::prelude::*;
use vstd::string::StringExecFns;

verus! {

/// How the moves of a report are written when it is passed on.
#[derive(Debug, Clone, Copy, PartialEq, Eq, Structural)]
pub enum Notation {
    /// As the engine writes them.
    Long,
    /// In the short notation of chess books, for a search whose job named
    /// its starting position.
    Short,
}

/// Why a session gave up.
#[derive(Debug, Clone, Copy, PartialEq, Eq, Structural)]
pub enum Failure {
    /// The engine wrote a line that cannot be read.
    Line(ParseError),
    /// The moves of a report could not be rewritten.
    Moves(NotationError),
}

/// Where a session stands.
#[derive(Debug, Clone, Copy, PartialEq, Eq, Structural)]
pub enum Phase {
    /// Nothing has been sent to the engine yet.
    Fresh,
    /// `uci` has been sent; the engine has not answered `uciok` yet.
    Greeting,
    /// The options and `isready` have been sent; `readyok` is awaited.
    Configuring,
    /// The engine is ready and no search is running.
    Idle,
    /// A search is running.
    Searching,
    /// The search was told to stop; `readyok` is awaited, and what the engine
    /// still says of the search is dropped.
    Stopping,
    /// A new game was announced; `readyok` is awaited.
    Syncing,
    /// The engine is gone, or its output could not be read.
    Dead,
}

/// What the caller can ask of a session.
#[derive(Debug)]
pub enum Op {
    /// Bring the engine up.
    Start,
    /// Search a position.
    Go(Go),
    /// Forget the game played so far.
    NewGame,
}

/// What an [`Op`] holds.
pub enum OpView {
    Start,
    Go(GoView),
    NewGame,
}

impl View for Op {
    type V = OpView;

    open spec fn view(&self) -> OpView {
        match self {
            Op::Start => OpView::Start,
            Op::Go(job) => OpView::Go(job@),
            Op::NewGame => OpView::NewGame,
        }
    }
}

/// What can happen to a session.
#[derive(Debug)]
pub enum Event {
    /// The next request of the caller.
    Request(Op),
    /// The caller wants the running search stopped and waits for the
    /// acknowledgement.
    Cancel,
    /// The engine has written a line.
    Line(String),
    /// The engine's output has ended.
    Eof,
    /// Something outside the session failed for good: a command could not be
    /// written, or a report could not be passed on.
    Fault,
}

/// What an [`Event`] holds.
pub enum EventView {
    Request(OpView),
    Cancel,
    Line(Seq<char>),
    Eof,
    Fault,
}

impl View for Event {
    type V = EventView;

    open spec fn view(&self) -> EventView {
        match self {
            Event::Request(op) => EventView::Request(op@),
            Event::Cancel => EventView::Cancel,
            Event::Line(line) => EventView::Line(line@),
            Event::Eof => EventView::Eof,
            Event::Fault => EventView::Fault,
        }
    }
}

/// What a session asks to be done after an event.
#[derive(Debug, PartialEq, Eq)]
pub enum Action {
    /// Nothing.
    Nothing,
    /// Queue this command for the engine.
    Write(String),
    /// Pass this report on to the subscriber.
    Deliver(Info),
    /// The search has ended with this answer. It is not passed on.
    Complete(BestMove),
    /// Tell the caller that the search it cancelled has stopped.
    Acknowledge,
    /// Give up.
    Fail(Failure),
    /// Turn the request down: the session cannot take it now.
    Refuse,
}

/// What an [`Action`] holds.
pub enum ActionView {
    Nothing,
    Write(Seq<char>),
    Deliver(InfoView),
    Complete(BestMoveView),
    Acknowledge,
    Fail(Failure),
    Refuse,
}

impl View for Action {
    type V = ActionView;

    open spec fn view(&self) -> ActionView {
        match self {
            Action::Nothing => ActionView::Nothing,
            Action::Write(cmd) => ActionView::Write(cmd@),
            Action::Deliver(info) => ActionView::Deliver(info@),
            Action::Complete(best) => ActionView::Complete(best@),
            Action::Acknowledge => ActionView::Acknowledge,
            Action::Fail(e) => ActionView::Fail(*e),
            Action::Refuse => ActionView::Refuse,
        }
    }
}

/// The state of a session.
pub struct Session {
    phase: Phase,
    origin: Option<String>,
    notation: Notation,
}

/// What a [`Session`] holds.
pub struct SessionView {
    pub phase: Phase,
    /// The starting position of the search that is running, where its job
    /// named one.
    pub origin: Option<Seq<char>>,
    /// How moves are written when a report is passed on.
    pub notation: Notation,
}

impl View for Session {
    type V = SessionView;

    closed spec fn view(&self) -> SessionView {
        SessionView {
            phase: self.phase,
            origin: opt_text(self.origin),
            notation: self.notation,
        }
    }
}

/// A session that has not spoken to its engine.
pub open spec fn fresh(notation: Notation) -> SessionView {
    SessionView { phase: Phase::Fresh, origin: None, notation }
}

/// The session in the given phase with no search running.
pub open spec fn at(s: SessionView, phase: Phase) -> SessionView {
    SessionView { phase, origin: None, ..s }
}

/// What a session waits for.
#[derive(Debug, Clone, Copy, PartialEq, Eq, Structural)]
pub enum Wanted {
    /// The caller's next request, or a cancellation.
    Requests,
    /// The engine's next line.
    Lines,
    /// The engine's next line, or a cancellation, whichever comes first.
    LinesOrCancel,
    /// Nothing any more.
    Nothing,
}

/// What a session waits for in each phase: for the caller while it is
/// fresh or idle, for the engine otherwise, and for a cancellation as well
/// while a search runs.
pub open spec fn wanted(s: SessionView) -> Wanted {
    match s.phase {
        Phase::Fresh | Phase::Idle => Wanted::Requests,
        Phase::Greeting | Phase::Configuring | Phase::Stopping | Phase::Syncing => Wanted::Lines,
        Phase::Searching => Wanted::LinesOrCancel,
        Phase::Dead => Wanted::Nothing,
    }
}

/// Whether an event comes from where the session is waiting.
pub open spec fn awaited(s: SessionView, e: EventView) -> bool {
    match wanted(s) {
        Wanted::Requests => e is Request || e is Cancel,
        Wanted::Lines => e is Line || e is Eof,
        Wanted::LinesOrCancel => e is Line || e is Eof || e is Cancel,
        Wanted::Nothing => false,
    }
}

/// Whether a search is in flight: from the moment its job is taken until its
/// answer, or the acknowledgement of its cancellation, has been seen.
pub open spec fn searching(s: SessionView) -> bool {
    s.phase is Searching || s.phase is Stopping
}

/// The options that every engine is started with.
pub open spec fn startup_options() -> Seq<(&'static str, &'static str)> {
    seq![("Threads", "8"), ("UCI_ShowWDL", "true"), ("MultiPV", "3")]
}

/// The command that follows `uciok`: the options, then `isready`.
pub open spec fn startup_text() -> Seq<char> {
    options_text(startup_options()) + "\n"@ + "isready"@
}

/// What a session does with a report of the running search: it is passed
/// on, with its moves rewritten where the session writes moves short and
/// the job named its starting position. A report whose moves cannot be
/// rewritten ends the session.
pub open spec fn on_report(s: SessionView, info: InfoView) -> (SessionView, ActionView) {
    match s.origin {
        Some(fen) if s.notation is Short => match prettyfy_spec(fen, info.pv).1 {
            Ok(_) => (s, ActionView::Deliver(InfoView { pv: prettyfy_spec(fen, info.pv).0, ..info })),
            Err(e) => (at(s, Phase::Dead), ActionView::Fail(Failure::Moves(e))),
        },
        _ => (s, ActionView::Deliver(info)),
    }
}

/// What a session does with a line of engine output.
pub open spec fn on_line(s: SessionView, line: Seq<char>) -> (SessionView, ActionView) {
    match s.phase {
        Phase::Greeting => if line == "uciok"@ {
            (at(s, Phase::Configuring), ActionView::Write(startup_text()))
        } else {
            (s, ActionView::Nothing)
        },
        Phase::Configuring => if line == "readyok"@ {
            (at(s, Phase::Idle), ActionView::Nothing)
        } else {
            (s, ActionView::Nothing)
        },
        Phase::Searching => match search_spec(line) {
            Ok(Some(SearchView::Info(info))) => on_report(s, info),
            Ok(Some(SearchView::BestMove(best))) => (
                at(s, Phase::Idle),
                ActionView::Complete(best),
            ),
            Ok(None) => (s, ActionView::Nothing),
            Err(e) => (at(s, Phase::Dead), ActionView::Fail(Failure::Line(e))),
        },
        Phase::Stopping => if line == "readyok"@ {
            (at(s, Phase::Idle), ActionView::Acknowledge)
        } else {
            (s, ActionView::Nothing)
        },
        Phase::Syncing => if line == "readyok"@ {
            (at(s, Phase::Idle), ActionView::Nothing)
        } else {
            (s, ActionView::Nothing)
        },
        Phase::Fresh | Phase::Idle | Phase::Dead => (s, ActionView::Nothing),
    }
}

/// What a session does with a request of the caller.
pub open spec fn on_request(s: SessionView, op: OpView) -> (SessionView, ActionView) {
    match op {
        OpView::Start => if s.phase is Fresh {
            (at(s, Phase::Greeting), ActionView::Write("uci"@))
        } else {
            (s, ActionView::Nothing)
        },
        OpView::Go(job) => if s.phase is Idle {
            (
                SessionView { phase: Phase::Searching, origin: job.fen, ..s },
                ActionView::Write(payload(job)),
            )
        } else {
            (s, ActionView::Refuse)
        },
        OpView::NewGame => if s.phase is Idle {
            (at(s, Phase::Syncing), ActionView::Write("ucinewgame\nisready"@))
        } else {
            (s, ActionView::Refuse)
        },
    }
}

/// The state that follows an event, and the action that the event calls for.
pub open spec fn step_spec(s: SessionView, e: EventView) -> (SessionView, ActionView) {
    match e {
        EventView::Request(op) => on_request(s, op),
        EventView::Cancel => match s.phase {
            Phase::Searching => (at(s, Phase::Stopping), ActionView::Write("stop\nisready"@)),
            Phase::Idle => (s, ActionView::Acknowledge),
            _ => (s, ActionView::Refuse),
        },
        EventView::Line(line) => on_line(s, line),
        EventView::Eof => (at(s, Phase::Dead), ActionView::Nothing),
        EventView::Fault => (at(s, Phase::Dead), ActionView::Nothing),
    }
}

impl Session {
    /// A session with an engine that has not been spoken to. Reports are
    /// passed on with their moves as the engine writes them.
    pub fn new() -> (session: Self)
        ensures
            session@ == fresh(Notation::Long),
    {
        Session { phase: Phase::Fresh, origin: None, notation: Notation::Long }
    }

    /// A session with an engine that has not been spoken to, which passes
    /// reports on with their moves in the given notation.
    pub fn with_notation(notation: Notation) -> (session: Self)
        ensures
            session@ == fresh(notation),
    {
        Session { phase: Phase::Fresh, origin: None, notation }
    }

    /// Where the session stands.
    pub fn phase(&self) -> (phase: Phase)
        ensures
            phase == self@.phase,
    {
        self.phase
    }

    /// Whether a search is in flight.
    pub fn is_searching(&self) -> (busy: bool)
        ensures
            busy == searching(self@),
    {
        match self.phase {
            Phase::Searching => true,
            Phase::Stopping => true,
            _ => false,
        }
    }

    /// What the session waits for. Whoever runs the session takes the next
    /// event from there.
    pub fn wants(&self) -> (wanted: Wanted)
        ensures
            wanted == self::wanted(self@),
    {
        match self.phase {
            Phase::Fresh => Wanted::Requests,
            Phase::Idle => Wanted::Requests,
            Phase::Searching => Wanted::LinesOrCancel,
            Phase::Dead => Wanted::Nothing,
            _ => Wanted::Lines,
        }
    }

    /// The starting position of the running search, where its job named one.
    pub fn origin(&self) -> (fen: Option<&String>)
        ensures
            match fen {
                Some(f) => self@.origin == Some(f@),
                None => self@.origin is None,
            },
    {
        self.origin.as_ref()
    }

    fn settle(&mut self, phase: Phase)
        ensures
            final(self)@ == at(old(self)@, phase),
    {
        self.phase = phase;
        self.origin = None;
    }

    fn report(&mut self, info: Info) -> (action: Action)
        ensures
            (final(self)@, action@) == on_report(old(self)@, info@),
    {
        let mut info = info;
        let rewritten = match (&self.origin, self.notation) {
            (Some(fen), Notation::Short) => prettyfy(fen.as_str(), &mut info),
            _ => Ok(()),
        };
        match rewritten {
            Ok(_) => Action::Deliver(info),
            Err(e) => {
                self.settle(Phase::Dead);
                Action::Fail(Failure::Moves(e))
            },
        }
    }

    fn line(&mut self, line: String) -> (action: Action)
        ensures
            (final(self)@, action@) == on_line(old(self)@, line@),
    {
        match self.phase {
            Phase::Greeting => {
                if same_text(line.as_str(), "uciok") {
                    self.settle(Phase::Configuring);
                    Action::Write(startup_command())
                } else {
                    Action::Nothing
                }
            },
            Phase::Configuring => {
                if same_text(line.as_str(), "readyok") {
                    self.settle(Phase::Idle);
                }
                Action::Nothing
            },
            Phase::Searching => {
                match search(line.as_str()) {
                    Ok(Some(Search::Info(info))) => self.report(info),
                    Ok(Some(Search::BestMove(best))) => {
                        self.settle(Phase::Idle);
                        Action::Complete(best)
                    },
                    Ok(None) => Action::Nothing,
                    Err(e) => {
                        self.settle(Phase::Dead);
                        Action::Fail(Failure::Line(e))
                    },
                }
            },
            Phase::Stopping => {
                if same_text(line.as_str(), "readyok") {
                    self.settle(Phase::Idle);
                    Action::Acknowledge
                } else {
                    Action::Nothing
                }
            },
            Phase::Syncing => {
                if same_text(line.as_str(), "readyok") {
                    self.settle(Phase::Idle);
                }
                Action::Nothing
            },
            _ => Action::Nothing,
        }
    }

    fn request(&mut self, op: Op) -> (action: Action)
        ensures
            (final(self)@, action@) == on_request(old(self)@, op@),
    {
        match op {
            Op::Start => {
                match self.phase {
                    Phase::Fresh => {
                        self.settle(Phase::Greeting);
                        Action::Write("uci".to_owned())
                    },
                    _ => Action::Nothing,
                }
            },
            Op::Go(job) => {
                match self.phase {
                    Phase::Idle => {
                        let cmd = prepare(&job);
                        self.phase = Phase::Searching;
                        self.origin = job.into_origin();
                        Action::Write(cmd)
                    },
                    _ => Action::Refuse,
                }
            },
            Op::NewGame => {
                match self.phase {
                    Phase::Idle => {
                        self.settle(Phase::Syncing);
                        Action::Write("ucinewgame\nisready".to_owned())
                    },
                    _ => Action::Refuse,
                }
            },
        }
    }

    /// Takes an event and says what is to be done.
    ///
    /// - A request to start is taken once, by a fresh session: `uci` goes
    ///   out, after `uciok` the options and `isready`, and `readyok` makes
    ///   the session idle. Any later request to start changes nothing.
    /// - A job is taken by an idle session only: its command goes out and
    ///   the search is running. So is the announcement of a new game, which
    ///   is followed by `isready`. In any other phase both are refused.
    /// - While a search runs, each `info` line is delivered, a `bestmove`
    ///   line ends the search, and a line that cannot be read ends the
    ///   session. Other lines are dropped. A session that writes moves short
    ///   rewrites the moves of each report before it is delivered, for a job
    ///   that named its starting position; a report whose moves cannot be
    ///   rewritten ends the session.
    /// - A cancellation stops the running search: `stop` and `isready` go
    ///   out, every line up to `readyok` is dropped, and `readyok` is
    ///   acknowledged. An idle session acknowledges at once.
    /// - The end of the engine's output, or a fault, ends the session in
    ///   every phase.
    pub fn step(&mut self, event: Event) -> (action: Action)
        ensures
            (final(self)@, action@) == step_spec(old(self)@, event@),
    {
        match event {
            Event::Request(op) => self.request(op),
            Event::Cancel => {
                match self.phase {
                    Phase::Searching => {
                        self.settle(Phase::Stopping);
                        Action::Write("stop\nisready".to_owned())
                    },
                    Phase::Idle => Action::Acknowledge,
                    _ => Action::Refuse,
                }
            },
            Event::Line(line) => self.line(line),
            Event::Eof => {
                self.settle(Phase::Dead);
                Action::Nothing
            },
            Event::Fault => {
                self.settle(Phase::Dead);
                Action::Nothing
            },
        }
    }
}

/// The command that follows `uciok`: the options that every engine is
/// started with, then `isready`.
pub fn startup_command() -> (cmd: String)
    ensures
        cmd@ == startup_text(),
{
    let options = [("Threads", "8"), ("UCI_ShowWDL", "true"), ("MultiPV", "3")];
    assert(options@ =~= startup_options());
    let mut cmd = opts(options.as_slice());
    cmd.append("\n");
    cmd.append("isready");
    cmd
}

} // verus!
