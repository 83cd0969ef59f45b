//! What the caller holds: the handle that brings the engine up once, turns
//! each request into what the session is to be sent, and takes the engine
//! down again.

use crate::command::{Go, GoView};
use crate::session::{EventView, Op, OpView};
use vstd::prelude::*;

verus! {

/// The depth to which positions are analysed.
pub const ANALYSIS_DEPTH: u32 = 26;

/// The number of requests that can wait for the session. Who submits one
/// more waits until there is room.
pub const QUEUE_CAPACITY: usize = 32;

/// Where a supervisor stands.
#[derive(Debug, Clone, Copy, PartialEq, Eq, Structural)]
pub enum Standing {
    /// No engine has been started.
    New,
    /// The engine is up and a session runs.
    Running,
    /// The engine was shut down. The supervisor is used up.
    Closed,
}

/// A request on its way to the session.
#[derive(Debug)]
pub struct Submission {
    /// Whether the running search is to be cancelled, and the
    /// acknowledgement awaited, before the request is queued.
    pub preempt: bool,
    /// The request.
    pub op: Op,
}

/// What a [`Submission`] holds.
pub struct SubmissionView {
    pub preempt: bool,
    pub op: OpView,
}

impl View for Submission {
    type V = SubmissionView;

    open spec fn view(&self) -> SubmissionView {
        SubmissionView { preempt: self.preempt, op: self.op@ }
    }
}

/// What the session is sent for a submission, in this order. The request
/// follows the cancellation only after the acknowledgement has come back.
pub open spec fn events_of(sub: SubmissionView) -> Seq<EventView> {
    if sub.preempt {
        seq![EventView::Cancel, EventView::Request(sub.op)]
    } else {
        seq![EventView::Request(sub.op)]
    }
}

/// Where a supervisor stands after it was asked to start.
pub open spec fn after_start(standing: Standing) -> Standing {
    if standing is New {
        Standing::Running
    } else {
        standing
    }
}

/// Asking twice for the engine to be up is as good as asking once: the
/// second call finds the supervisor as the first left it, leaves it so, and
/// launches nothing.
pub proof fn lemma_start_is_idempotent(standing: Standing)
    ensures
        after_start(after_start(standing)) == after_start(standing),
        !(after_start(standing) is New),
{
}

/// The job that analyses a position.
pub open spec fn analysis(fen: Seq<char>) -> GoView {
    GoView { fen: Some(fen), moves: Seq::empty(), depth: ANALYSIS_DEPTH }
}

/// The caller's handle on one engine.
#[derive(Debug)]
pub struct Supervisor {
    standing: Standing,
}

impl View for Supervisor {
    type V = Standing;

    closed spec fn view(&self) -> Standing {
        self.standing
    }
}

impl Default for Supervisor {
    fn default() -> (handle: Self)
        ensures
            handle@ == Standing::New,
    {
        Supervisor { standing: Standing::New }
    }
}

impl Supervisor {
    /// A supervisor that has started nothing.
    pub fn new() -> (handle: Self)
        ensures
            handle@ == Standing::New,
    {
        Supervisor { standing: Standing::New }
    }

    /// Where the supervisor stands.
    pub fn standing(&self) -> (standing: Standing)
        ensures
            standing == self@,
    {
        self.standing
    }

    /// Asks for the engine to be up. Returns whether the caller has to
    /// launch it: that is so on the first call only, and every later call
    /// leaves the supervisor as it is.
    pub fn start(&mut self) -> (launch: bool)
        ensures
            launch == (old(self)@ is New),
            final(self)@ == after_start(old(self)@),
    {
        match self.standing {
            Standing::New => {
                self.standing = Standing::Running;
                true
            },
            _ => false,
        }
    }

    /// Asks for the analysis of a position. `searching` says whether a
    /// search is in flight: if so, it is to be cancelled first. A supervisor
    /// that is not running gives nothing to submit.
    pub fn go(&self, fen: &str, searching: bool) -> (sub: Option<Submission>)
        ensures
            sub is Some <==> self@ is Running,
            sub matches Some(s) ==> s@ == (SubmissionView {
                preempt: searching,
                op: OpView::Go(analysis(fen@)),
            }),
    {
        match self.standing {
            Standing::Running => {
                let job = Go::new().fen(fen).depth(ANALYSIS_DEPTH);
                Some(Submission { preempt: searching, op: Op::Go(job) })
            },
            _ => None,
        }
    }

    /// Asks for a new game. `searching` says whether a search is in flight:
    /// if so, it is to be cancelled first. A supervisor that is not running
    /// gives nothing to submit.
    pub fn new_game(&self, searching: bool) -> (sub: Option<Submission>)
        ensures
            sub is Some <==> self@ is Running,
            sub matches Some(s) ==> s@ == (SubmissionView {
                preempt: searching,
                op: OpView::NewGame,
            }),
    {
        match self.standing {
            Standing::Running => Some(Submission { preempt: searching, op: Op::NewGame }),
            _ => None,
        }
    }

    /// Ends the supervisor's life. Returns whether there is an engine to
    /// take down: the request queue is then to be closed, the session's end
    /// awaited and the engine killed.
    pub fn shutdown(&mut self) -> (teardown: bool)
        ensures
            teardown == (old(self)@ is Running),
            final(self)@ == Standing::Closed,
    {
        let teardown = match self.standing {
            Standing::Running => true,
            _ => false,
        };
        self.standing = Standing::Closed;
        teardown
    }
}

} // verus!
