//! What holds of a session over any course of events.

use crate::command::{payload, GoView};
use crate::session::{
    at, awaited, on_request, searching, step_spec, ActionView, EventView, OpView, Phase,
    SessionView,
};
use crate::supervisor::{analysis, events_of, SubmissionView};
use vstd::prelude::*;

verus! {

/// The state of a session after a course of events.
pub open spec fn state_after(s: SessionView, events: Seq<EventView>) -> SessionView
    decreases events.len(),
{
    if events.len() == 0 {
        s
    } else {
        step_spec(state_after(s, events.drop_last()), events.last()).0
    }
}

/// The actions that a course of events calls for, one for each event.
pub open spec fn actions(s: SessionView, events: Seq<EventView>) -> Seq<ActionView>
    decreases events.len(),
{
    if events.len() == 0 {
        Seq::empty()
    } else {
        actions(s, events.drop_last()).push(
            step_spec(state_after(s, events.drop_last()), events.last()).1,
        )
    }
}

/// Whether the event makes the session take a job.
pub open spec fn takes_job(s: SessionView, e: EventView) -> bool {
    s.phase is Idle && e matches EventView::Request(OpView::Go(_))
}

/// Whether the event ends the search that is in flight.
pub open spec fn ends_job(s: SessionView, e: EventView) -> bool {
    searching(s) && !searching(step_spec(s, e).0)
}

/// The number of jobs taken in a course of events.
pub open spec fn jobs_taken(s: SessionView, events: Seq<EventView>) -> nat
    decreases events.len(),
{
    if events.len() == 0 {
        0
    } else {
        jobs_taken(s, events.drop_last()) + (if takes_job(
            state_after(s, events.drop_last()),
            events.last(),
        ) {
            1nat
        } else {
            0nat
        })
    }
}

/// The number of searches ended in a course of events.
pub open spec fn jobs_ended(s: SessionView, events: Seq<EventView>) -> nat
    decreases events.len(),
{
    if events.len() == 0 {
        0
    } else {
        jobs_ended(s, events.drop_last()) + (if ends_job(
            state_after(s, events.drop_last()),
            events.last(),
        ) {
            1nat
        } else {
            0nat
        })
    }
}

/// The number of answers that a course of events brings.
pub open spec fn answers(s: SessionView, events: Seq<EventView>) -> nat
    decreases events.len(),
{
    if events.len() == 0 {
        0
    } else {
        answers(s, events.drop_last()) + (if step_spec(
            state_after(s, events.drop_last()),
            events.last(),
        ).1 is Complete {
            1nat
        } else {
            0nat
        })
    }
}

/// The reports that a course of events delivers, each with the number of
/// the job that was the last to be taken before it.
pub open spec fn reports(s: SessionView, events: Seq<EventView>) -> Seq<(nat, ActionView)>
    decreases events.len(),
{
    if events.len() == 0 {
        Seq::empty()
    } else {
        let before = events.drop_last();
        let action = step_spec(state_after(s, before), events.last()).1;
        if action is Deliver {
            reports(s, before).push((jobs_taken(s, before), action))
        } else {
            reports(s, before)
        }
    }
}

/// The events that the lines of engine output are.
pub open spec fn lines(texts: Seq<Seq<char>>) -> Seq<EventView> {
    Seq::new(texts.len(), |i: int| EventView::Line(texts[i]))
}

/// A course of events can be followed in two legs.
pub proof fn lemma_two_legs(s: SessionView, first: Seq<EventView>, second: Seq<EventView>)
    ensures
        state_after(s, first + second) == state_after(state_after(s, first), second),
        actions(s, first + second) == actions(s, first) + actions(state_after(s, first), second),
    decreases second.len(),
{
    if second.len() == 0 {
        assert(first + second =~= first);
        assert(actions(s, first) + actions(state_after(s, first), second) =~= actions(s, first));
    } else {
        let whole = first + second;
        assert(whole.drop_last() =~= first + second.drop_last());
        assert(whole.last() == second.last());
        lemma_two_legs(s, first, second.drop_last());
        let mid = state_after(s, first);
        assert(actions(s, whole) =~= actions(s, first) + actions(mid, second));
    }
}

/// A single event, as a course of events.
pub proof fn lemma_one_event(s: SessionView, e: EventView)
    ensures
        state_after(s, seq![e]) == step_spec(s, e).0,
        actions(s, seq![e]) == seq![step_spec(s, e).1],
{
    let one = seq![e];
    assert(one.drop_last() =~= Seq::<EventView>::empty());
    assert(one.last() == e);
    assert(state_after(s, one.drop_last()) == s);
    assert(actions(s, one.drop_last()) =~= Seq::<ActionView>::empty());
    assert(actions(s, one) =~= seq![step_spec(s, e).1]);
}

/// At most one search is in flight, whatever happens and in whatever order:
/// of the jobs taken, all but the one in flight have ended.
pub proof fn lemma_one_job_at_a_time(s: SessionView, events: Seq<EventView>)
    requires
        !searching(s),
    ensures
        jobs_taken(s, events) == jobs_ended(s, events) + (if searching(state_after(s, events)) {
            1nat
        } else {
            0nat
        }),
    decreases events.len(),
{
    if events.len() > 0 {
        lemma_one_job_at_a_time(s, events.drop_last());
    }
}

/// Every report that is delivered belongs to exactly one job: the one taken
/// last, which is in flight when the report comes. The event that brings a
/// report neither takes a job nor ends one.
pub proof fn lemma_report_has_one_job(s: SessionView, events: Seq<EventView>, e: EventView)
    requires
        !searching(s),
        step_spec(state_after(s, events), e).1 is Deliver,
    ensures
        state_after(s, events).phase is Searching,
        jobs_taken(s, events) == jobs_ended(s, events) + 1,
        jobs_taken(s, events.push(e)) == jobs_taken(s, events),
        jobs_ended(s, events.push(e)) == jobs_ended(s, events),
        reports(s, events.push(e)).last().0 == jobs_taken(s, events),
{
    lemma_one_job_at_a_time(s, events);
    assert(events.push(e).drop_last() =~= events);
}

/// The reports come in the order of their jobs: the numbers never fall, and
/// none is above the number of jobs taken or below one.
pub proof fn lemma_reports_in_job_order(s: SessionView, events: Seq<EventView>)
    requires
        !searching(s),
    ensures
        forall|i: int|
            0 <= i < reports(s, events).len() ==> 1 <= (#[trigger] reports(s, events)[i]).0
                <= jobs_taken(s, events),
        forall|i: int, j: int|
            0 <= i <= j < reports(s, events).len() ==> (#[trigger] reports(s, events)[i]).0 <= (
            #[trigger] reports(s, events)[j]).0,
    decreases events.len(),
{
    if events.len() > 0 {
        let before = events.drop_last();
        lemma_reports_in_job_order(s, before);
        lemma_one_job_at_a_time(s, before);
        let action = step_spec(state_after(s, before), events.last()).1;
        let all = reports(s, events);
        let head = reports(s, before);
        let taken = jobs_taken(s, before);
        assert(taken <= jobs_taken(s, events));
        if action is Deliver {
            assert(all == head.push((taken, action)));
            assert(taken >= 1);
            assert forall|i: int| 0 <= i < all.len() implies 1 <= (#[trigger] all[i]).0
                <= jobs_taken(s, events) by {
                if i < head.len() {
                    assert(all[i] == head[i]);
                }
            }
            assert forall|i: int, j: int| 0 <= i <= j < all.len() implies (#[trigger] all[i]).0
                <= (#[trigger] all[j]).0 by {
                if j < head.len() {
                    assert(all[i] == head[i]);
                    assert(all[j] == head[j]);
                } else if i < head.len() {
                    assert(all[i] == head[i]);
                }
            }
        } else {
            assert(all == head);
        }
    }
}

/// A job gets at most one answer: every answer ends a search, and no more
/// searches end than jobs were taken.
pub proof fn lemma_at_most_one_answer(s: SessionView, events: Seq<EventView>)
    requires
        !searching(s),
    ensures
        answers(s, events) <= jobs_ended(s, events) <= jobs_taken(s, events),
    decreases events.len(),
{
    lemma_one_job_at_a_time(s, events);
    if events.len() > 0 {
        lemma_at_most_one_answer(s, events.drop_last());
        lemma_one_job_at_a_time(s, events.drop_last());
    }
}

/// An event that the session is not waiting for changes nothing, unless it
/// is the end of the engine's output or a fault: the session stays as it
/// is, and the event is dropped or refused.
pub proof fn lemma_unawaited_event_changes_nothing(s: SessionView, e: EventView)
    requires
        !awaited(s, e),
        !(e is Eof),
        !(e is Fault),
    ensures
        step_spec(s, e).0 == s,
        step_spec(s, e).1 is Nothing || step_spec(s, e).1 is Refuse,
{
}

/// A session takes a job only while it is idle: in every other phase the
/// job is refused and nothing changes.
pub proof fn lemma_job_is_taken_only_when_idle(s: SessionView, job: GoView)
    requires
        !(s.phase is Idle),
    ensures
        step_spec(s, EventView::Request(OpView::Go(job))) == (s, ActionView::Refuse),
{
}

/// While a search is being stopped, nothing that the engine says is passed
/// on: every line but `readyok` is dropped and leaves the session as it is.
pub proof fn lemma_stopping_drops_lines(s: SessionView, drained: Seq<Seq<char>>)
    requires
        s.phase is Stopping,
        forall|i: int| 0 <= i < drained.len() ==> drained[i] != "readyok"@,
    ensures
        state_after(s, lines(drained)) == s,
        actions(s, lines(drained)) == Seq::new(drained.len(), |i: int| ActionView::Nothing),
    decreases drained.len(),
{
    if drained.len() > 0 {
        let head = drained.drop_last();
        lemma_stopping_drops_lines(s, head);
        assert(lines(drained).drop_last() =~= lines(head));
        assert(lines(drained).last() == EventView::Line(drained.last()));
    }
    assert(actions(s, lines(drained)) =~= Seq::new(
        drained.len(),
        |i: int| ActionView::Nothing,
    ));
}

/// A search gives way to the next request in this order and no other: the
/// cancellation sends `stop` and `isready`; whatever the engine still says
/// of the old search is dropped; `readyok` is acknowledged; and only then
/// the request is taken, as an idle session takes it.
pub proof fn lemma_preemption(s: SessionView, drained: Seq<Seq<char>>, sub: SubmissionView)
    requires
        s.phase is Searching,
        sub.preempt,
        forall|i: int| 0 <= i < drained.len() ==> drained[i] != "readyok"@,
    ensures
        ({
            let events = seq![events_of(sub)[0]] + lines(drained) + seq![
                EventView::Line("readyok"@),
                events_of(sub)[1],
            ];
            let idle = at(s, Phase::Idle);
            &&& state_after(s, events) == on_request(idle, sub.op).0
            &&& actions(s, events) == seq![ActionView::Write("stop\nisready"@)] + Seq::new(
                drained.len(),
                |i: int| ActionView::Nothing,
            ) + seq![ActionView::Acknowledge, on_request(idle, sub.op).1]
        }),
{
    let cancel = seq![EventView::Cancel];
    let ready = EventView::Line("readyok"@);
    let ask = EventView::Request(sub.op);
    let tail = seq![ready, ask];
    let stopping = at(s, Phase::Stopping);
    let idle = at(s, Phase::Idle);
    assert(events_of(sub)[0] == EventView::Cancel);
    assert(events_of(sub)[1] == ask);
    assert(at(stopping, Phase::Idle) == idle);
    lemma_one_event(s, EventView::Cancel);
    lemma_stopping_drops_lines(stopping, drained);
    lemma_two_legs(s, cancel, lines(drained));
    lemma_one_event(stopping, ready);
    lemma_one_event(idle, ask);
    assert(tail =~= seq![ready] + seq![ask]);
    lemma_two_legs(stopping, seq![ready], seq![ask]);
    lemma_two_legs(s, cancel + lines(drained), tail);
    assert(actions(stopping, tail) =~= seq![ActionView::Acknowledge, on_request(idle, sub.op).1]);
}

/// A job that is submitted while no search is in flight goes out at once.
pub proof fn lemma_submission_when_idle(s: SessionView, fen: Seq<char>)
    requires
        s.phase is Idle,
    ensures
        ({
            let sub = SubmissionView { preempt: false, op: OpView::Go(analysis(fen)) };
            &&& state_after(s, events_of(sub)) == (SessionView {
                phase: Phase::Searching,
                origin: Some(fen),
                ..s
            })
            &&& actions(s, events_of(sub)) == seq![ActionView::Write(payload(analysis(fen)))]
        }),
{
    let sub = SubmissionView { preempt: false, op: OpView::Go(analysis(fen)) };
    lemma_one_event(s, EventView::Request(sub.op));
    assert(events_of(sub) =~= seq![EventView::Request(sub.op)]);
}

/// Whether the events of `pattern` occur among `events`, in the order of
/// `pattern`, with whatever else between them.
pub open spec fn in_order(events: Seq<EventView>, pattern: Seq<EventView>) -> bool
    decreases events.len(),
{
    if pattern.len() == 0 {
        true
    } else if events.len() == 0 {
        false
    } else {
        in_order(events.drop_last(), pattern) || (events.last() == pattern.last() && in_order(
            events.drop_last(),
            pattern.drop_last(),
        ))
    }
}

/// What has to happen before an engine is ready: the request to start,
/// the engine's `uciok`, and its `readyok`.
pub open spec fn handshake() -> Seq<EventView> {
    seq![
        EventView::Request(OpView::Start),
        EventView::Line("uciok"@),
        EventView::Line("readyok"@),
    ]
}

/// A session is ready for requests only after the handshake: whenever a
/// session that began fresh is idle, searching, stopping or announcing a
/// new game, the request to start, `uciok` and `readyok` have been seen, in
/// this order.
pub proof fn lemma_ready_after_handshake(start: SessionView, events: Seq<EventView>)
    requires
        start.phase is Fresh,
    ensures
        ({
            let s = state_after(start, events);
            &&& s.phase is Greeting ==> in_order(events, handshake().take(1))
            &&& s.phase is Configuring ==> in_order(events, handshake().take(2))
            &&& (s.phase is Idle || s.phase is Searching || s.phase is Stopping || s.phase
                is Syncing) ==> in_order(events, handshake())
        }),
    decreases events.len(),
{
    let full = handshake();
    let one = full.take(1);
    let two = full.take(2);
    assert(one.drop_last() =~= Seq::<EventView>::empty());
    assert(two.drop_last() =~= one);
    assert(full.drop_last() =~= two);
    assert(one.last() == EventView::Request(OpView::Start));
    assert(two.last() == EventView::Line("uciok"@));
    assert(full.last() == EventView::Line("readyok"@));
    assert(full.len() == 3 && two.len() == 2 && one.len() == 1);
    if events.len() > 0 {
        let before = events.drop_last();
        let e = events.last();
        let mid = state_after(start, before);
        let s = step_spec(mid, e).0;
        lemma_ready_after_handshake(start, before);
        assert(in_order(before, Seq::<EventView>::empty()));
        assert(in_order(before, one) ==> in_order(events, one));
        assert(in_order(before, two) ==> in_order(events, two));
        assert(in_order(before, full) ==> in_order(events, full));
        if s.phase is Greeting && !(mid.phase is Greeting) {
            assert(mid.phase is Fresh && e == one.last());
            assert(in_order(events, one));
        }
        if s.phase is Configuring && !(mid.phase is Configuring) {
            assert(mid.phase is Greeting && e == two.last());
            assert(in_order(events, two));
        }
        if mid.phase is Configuring && s.phase is Idle {
            assert(e == full.last());
            assert(in_order(events, full));
        }
    }
}

/// The engine is started once: a second request to start changes nothing
/// and asks for nothing.
pub proof fn lemma_start_twice(s: SessionView)
    ensures
        ({
            let once = step_spec(s, EventView::Request(OpView::Start)).0;
            step_spec(once, EventView::Request(OpView::Start)) == (once, ActionView::Nothing)
        }),
{
}

/// A session that has been started is never fresh again, so no later
/// request to start is taken either.
pub proof fn lemma_never_fresh_again(s: SessionView, events: Seq<EventView>)
    requires
        !(s.phase is Fresh),
    ensures
        !(state_after(s, events).phase is Fresh),
        step_spec(state_after(s, events), EventView::Request(OpView::Start)) == (
            state_after(s, events),
            ActionView::Nothing,
        ),
    decreases events.len(),
{
    if events.len() > 0 {
        lemma_never_fresh_again(s, events.drop_last());
    }
}

} // verus!
