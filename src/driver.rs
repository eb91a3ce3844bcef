use vstd::prelude::*;

verus! {

/// Where the main loop stands within one cycle.
#[derive(Clone, Copy, Debug, PartialEq, Eq, Structural)]
pub enum LoopPhase {
    /// Suspended on readiness of the connection's descriptor.
    Suspended,
    /// Ready: a best-effort flush of outbound data is under way.
    Flushing,
    /// Not ready: one blocking wait on the descriptor is under way.
    Waiting,
    /// A roundtrip (flush, read, dispatch) is under way.
    Dispatching,
    /// A roundtrip failed; the loop is over.
    Aborted,
}

/// What the outside world reports back to the loop.
#[derive(Clone, Copy, Debug, PartialEq, Eq, Structural)]
pub enum LoopEvent {
    /// The scheduler polls the suspension point; `ready` is the descriptor's readiness.
    Attempt { ready: bool },
    /// The best-effort flush finished, successfully or not.
    Flushed { ok: bool },
    /// The blocking wait finished, successfully or not.
    Waited { ok: bool },
    /// The roundtrip finished, successfully or not.
    RoundtripDone { ok: bool },
}

/// What the loop asks the outside world to do next.
#[derive(Clone, Copy, Debug, PartialEq, Eq, Structural)]
pub enum LoopAction {
    /// Flush outbound data without blocking.
    Flush,
    /// Block until the descriptor is readable, with no timeout.
    BlockingWait,
    /// Wake the task again and report "not yet" for this attempt.
    Rearm,
    /// Report completion of the suspension point and run a roundtrip.
    Roundtrip,
    /// Suspend on readiness again: the next cycle begins.
    Suspend,
    /// Stop with a failure status.
    Abort,
    /// Nothing to do: the event does not belong to this phase.
    Idle,
}

/// The loop's transition on `event` in `phase`: the next phase and the action.
pub open spec fn transition(phase: LoopPhase, event: LoopEvent) -> (LoopPhase, LoopAction) {
    match (phase, event) {
        (LoopPhase::Suspended, LoopEvent::Attempt { ready }) => if ready {
            (LoopPhase::Flushing, LoopAction::Flush)
        } else {
            (LoopPhase::Waiting, LoopAction::BlockingWait)
        },
        (LoopPhase::Flushing, LoopEvent::Flushed { ok: _ }) => (
            LoopPhase::Dispatching,
            LoopAction::Roundtrip,
        ),
        (LoopPhase::Waiting, LoopEvent::Waited { ok: _ }) => (LoopPhase::Suspended, LoopAction::Rearm),
        (LoopPhase::Dispatching, LoopEvent::RoundtripDone { ok }) => if ok {
            (LoopPhase::Suspended, LoopAction::Suspend)
        } else {
            (LoopPhase::Aborted, LoopAction::Abort)
        },
        (LoopPhase::Aborted, _) => (LoopPhase::Aborted, LoopAction::Abort),
        _ => (phase, LoopAction::Idle),
    }
}

/// Computes `transition(phase, event)`. Poll and flush failures are absorbed:
/// they lead where a success leads. A roundtrip failure ends the loop.
pub fn next_step(phase: LoopPhase, event: LoopEvent) -> (r: (LoopPhase, LoopAction))
    ensures
        r == transition(phase, event),
{
    match (phase, event) {
        (LoopPhase::Suspended, LoopEvent::Attempt { ready }) => {
            if ready {
                (LoopPhase::Flushing, LoopAction::Flush)
            } else {
                (LoopPhase::Waiting, LoopAction::BlockingWait)
            }
        },
        (LoopPhase::Flushing, LoopEvent::Flushed { ok: _ }) => (
            LoopPhase::Dispatching,
            LoopAction::Roundtrip,
        ),
        (LoopPhase::Waiting, LoopEvent::Waited { ok: _ }) => (LoopPhase::Suspended, LoopAction::Rearm),
        (LoopPhase::Dispatching, LoopEvent::RoundtripDone { ok }) => {
            if ok {
                (LoopPhase::Suspended, LoopAction::Suspend)
            } else {
                (LoopPhase::Aborted, LoopAction::Abort)
            }
        },
        (LoopPhase::Aborted, _) => (LoopPhase::Aborted, LoopAction::Abort),
        _ => (phase, LoopAction::Idle),
    }
}

/// The main loop's decisions, fed with what happened outside.
pub struct Driver {
    phase: LoopPhase,
}

impl Driver {
    pub closed spec fn phase_spec(&self) -> LoopPhase {
        self.phase
    }

    /// A loop suspended on readiness, before its first cycle.
    pub fn new() -> (r: Driver)
        ensures
            r.phase_spec() == LoopPhase::Suspended,
    {
        Driver { phase: LoopPhase::Suspended }
    }

    pub fn phase(&self) -> (r: LoopPhase)
        ensures
            r == self.phase_spec(),
    {
        self.phase
    }

    /// Takes `event` and returns the action to perform.
    pub fn handle(&mut self, event: LoopEvent) -> (r: LoopAction)
        ensures
            (final(self).phase_spec(), r) == transition(old(self).phase_spec(), event),
    {
        let (p, a) = next_step(self.phase, event);
        self.phase = p;
        a
    }
}

/// The phase reached and the actions asked for when `events` arrive in order
/// from `phase`.
pub open spec fn drive(phase: LoopPhase, events: Seq<LoopEvent>) -> (LoopPhase, Seq<LoopAction>)
    decreases events.len(),
{
    if events.len() == 0 {
        (phase, Seq::empty())
    } else {
        let (p, acts) = drive(phase, events.drop_last());
        let (q, a) = transition(p, events.last());
        (q, acts.push(a))
    }
}

/// The suspension point. When the descriptor is ready, the first attempt
/// completes: it flushes, never waits, and the roundtrip follows whatever the
/// flush reported. When it is not ready, the attempt waits exactly once and
/// re-arms, returning to suspension; no event asks for a second wait before
/// the next attempt.
pub proof fn lemma_readiness(ok: bool)
    ensures
        transition(LoopPhase::Suspended, LoopEvent::Attempt { ready: true }) == (
        LoopPhase::Flushing,
        LoopAction::Flush,
        ),
        transition(LoopPhase::Flushing, LoopEvent::Flushed { ok }) == (
        LoopPhase::Dispatching,
        LoopAction::Roundtrip,
        ),
        transition(LoopPhase::Suspended, LoopEvent::Attempt { ready: false }) == (
        LoopPhase::Waiting,
        LoopAction::BlockingWait,
        ),
        transition(LoopPhase::Waiting, LoopEvent::Waited { ok }) == (
        LoopPhase::Suspended,
        LoopAction::Rearm,
        ),
        forall|e: LoopEvent| #[trigger] transition(LoopPhase::Waiting, e).1 != LoopAction::BlockingWait,
        forall|e: LoopEvent| #[trigger] transition(LoopPhase::Flushing, e).1 != LoopAction::BlockingWait,
{
}

/// A failed poll or flush is absorbed: from any phase, any sequence of events
/// that follows it leads where it would have led after a success, and the loop
/// is not ended by it.
pub proof fn lemma_transient_failure_absorbed(
    phase: LoopPhase,
    before: Seq<LoopEvent>,
    after: Seq<LoopEvent>,
)
    ensures
        drive(phase, before.push(LoopEvent::Flushed { ok: false }) + after) == drive(
            phase,
            before.push(LoopEvent::Flushed { ok: true }) + after,
        ),
        drive(phase, before.push(LoopEvent::Waited { ok: false }) + after) == drive(
            phase,
            before.push(LoopEvent::Waited { ok: true }) + after,
        ),
        drive(phase, before).0 != LoopPhase::Aborted ==> drive(
            phase,
            before.push(LoopEvent::Flushed { ok: false }),
        ).0 != LoopPhase::Aborted,
        drive(phase, before).0 != LoopPhase::Aborted ==> drive(
            phase,
            before.push(LoopEvent::Waited { ok: false }),
        ).0 != LoopPhase::Aborted,
    decreases after.len(),
{
    let f0 = before.push(LoopEvent::Flushed { ok: false });
    let f1 = before.push(LoopEvent::Flushed { ok: true });
    let w0 = before.push(LoopEvent::Waited { ok: false });
    let w1 = before.push(LoopEvent::Waited { ok: true });
    assert(f0.drop_last() == before && f1.drop_last() == before);
    assert(w0.drop_last() == before && w1.drop_last() == before);
    if after.len() == 0 {
        assert(f0 + after == f0 && f1 + after == f1);
        assert(w0 + after == w0 && w1 + after == w1);
    } else {
        lemma_transient_failure_absorbed(phase, before, after.drop_last());
        assert((f0 + after).drop_last() == f0 + after.drop_last());
        assert((f1 + after).drop_last() == f1 + after.drop_last());
        assert((w0 + after).drop_last() == w0 + after.drop_last());
        assert((w1 + after).drop_last() == w1 + after.drop_last());
    }
}

/// A failed roundtrip ends the loop: it asks for an abort, and from then on
/// every event leaves the loop aborted and asks for an abort again, so no
/// roundtrip is ever run after it.
pub proof fn lemma_roundtrip_failure_fatal(events: Seq<LoopEvent>)
    ensures
        transition(LoopPhase::Dispatching, LoopEvent::RoundtripDone { ok: false }) == (
        LoopPhase::Aborted,
        LoopAction::Abort,
        ),
        drive(LoopPhase::Aborted, events).0 == LoopPhase::Aborted,
        forall|i: int|
            0 <= i < events.len() ==> #[trigger] drive(LoopPhase::Aborted, events).1[i]
                == LoopAction::Abort,
        drive(LoopPhase::Aborted, events).1.len() == events.len(),
    decreases events.len(),
{
    if events.len() > 0 {
        lemma_roundtrip_failure_fatal(events.drop_last());
    }
}

} // verus!
