//! The check-in cycle: the state machine at the core of the agent.
//!
//! One cooperative loop drives `Collecting`, `Sending` and `Waiting`
//! in turn, forever, with a `Stopping` → `Stopped` terminal path
//! reachable from `Waiting` only: the wait is the sole cancellation
//! point, so an in-flight collection or send always finishes before
//! the next stop check. Collection and transmission failures move to
//! `Waiting` like successes do; each tick is an independent attempt
//! and nothing below the cycle is ever fatal to it.

use vstd::prelude::*;

verus! {

/// The states of the check-in cycle.
#[derive(Clone, Copy, Debug, PartialEq, Eq, Structural)]
pub enum CycleState {
    /// Not yet started.
    Idle,
    /// Querying the facts provider.
    Collecting,
    /// Handing the fresh report to the transmitter.
    Sending,
    /// Sleeping until the next tick, racing the stop signal.
    Waiting,
    /// A stop request won the race in `Waiting`.
    Stopping,
    /// Terminal: the loop has exited.
    Stopped,
}

/// What the cycle observes at one step.
#[derive(Clone, Copy, Debug, PartialEq, Eq, Structural)]
pub enum CycleEvent {
    /// The run begins.
    Started,
    /// The facts provider produced a report.
    CollectSucceeded,
    /// The facts provider failed as a whole; not fatal to the cycle.
    CollectFailed,
    /// The transmitter finished, successfully or not.
    SendCompleted,
    /// The interval timer elapsed first in the wait race.
    TimerElapsed,
    /// The stop signal arrived.
    StopRequested,
}

/// The transition rules of the cycle. An event that does not apply to
/// the current state leaves it unchanged; in particular a stop request
/// outside `Waiting` changes nothing, because the wait is the sole
/// cancellation point. Whether `Collecting` proceeds to `Sending` or
/// straight to `Waiting` depends on an endpoint being configured:
/// collection-only mode is valid and intentional.
pub open spec fn cycle_step(s: CycleState, ev: CycleEvent, endpoint_configured: bool) -> CycleState {
    match (s, ev) {
        (CycleState::Idle, CycleEvent::Started) => CycleState::Collecting,
        (CycleState::Collecting, CycleEvent::CollectSucceeded) => if endpoint_configured {
            CycleState::Sending
        } else {
            CycleState::Waiting
        },
        (CycleState::Collecting, CycleEvent::CollectFailed) => CycleState::Waiting,
        (CycleState::Sending, CycleEvent::SendCompleted) => CycleState::Waiting,
        (CycleState::Waiting, CycleEvent::StopRequested) => CycleState::Stopping,
        (CycleState::Waiting, CycleEvent::TimerElapsed) => CycleState::Collecting,
        (CycleState::Stopping, _) => CycleState::Stopped,
        (_, _) => s,
    }
}

/// Advances the cycle by one observed event.
pub fn step(s: CycleState, ev: CycleEvent, endpoint_configured: bool) -> (r: CycleState)
    ensures
        r == cycle_step(s, ev, endpoint_configured),
{
    match (s, ev) {
        (CycleState::Idle, CycleEvent::Started) => CycleState::Collecting,
        (CycleState::Collecting, CycleEvent::CollectSucceeded) => if endpoint_configured {
            CycleState::Sending
        } else {
            CycleState::Waiting
        },
        (CycleState::Collecting, CycleEvent::CollectFailed) => CycleState::Waiting,
        (CycleState::Sending, CycleEvent::SendCompleted) => CycleState::Waiting,
        (CycleState::Waiting, CycleEvent::StopRequested) => CycleState::Stopping,
        (CycleState::Waiting, CycleEvent::TimerElapsed) => CycleState::Collecting,
        (CycleState::Stopping, _) => CycleState::Stopped,
        (_, _) => s,
    }
}

/// A stop signal that arrives in `Waiting` wins before the next tick:
/// it moves the cycle to `Stopping`, and from `Stopping` or `Stopped`
/// no event ever reaches `Collecting` again.
pub proof fn lemma_stop_in_waiting_terminates(endpoint_configured: bool, ev: CycleEvent)
    ensures
        cycle_step(CycleState::Waiting, CycleEvent::StopRequested, endpoint_configured)
            == CycleState::Stopping,
        cycle_step(CycleState::Stopping, ev, endpoint_configured) == CycleState::Stopped,
        cycle_step(CycleState::Stopped, ev, endpoint_configured) == CycleState::Stopped,
{
}

/// A stop signal that arrives during `Sending` does not abort the
/// send: the state is unchanged, the send completes into `Waiting`,
/// and the stop is honoured at that following wait check.
pub proof fn lemma_stop_during_send_honoured_later(endpoint_configured: bool)
    ensures
        cycle_step(CycleState::Sending, CycleEvent::StopRequested, endpoint_configured)
            == CycleState::Sending,
        cycle_step(CycleState::Sending, CycleEvent::SendCompleted, endpoint_configured)
            == CycleState::Waiting,
        cycle_step(CycleState::Waiting, CycleEvent::StopRequested, endpoint_configured)
            == CycleState::Stopping,
{
}

/// One full tick — timer, collection, send attempt — ends exactly
/// where it began, in `Waiting`, whether the send succeeded or failed
/// and whether collection succeeded or failed: ticks are independent
/// and the cycle state carries nothing over from one to the next.
pub proof fn lemma_tick_returns_to_waiting(collect_ok: bool)
    ensures
        ({
            let collecting = cycle_step(CycleState::Waiting, CycleEvent::TimerElapsed, true);
            let after_collect = cycle_step(
                collecting,
                if collect_ok {
                    CycleEvent::CollectSucceeded
                } else {
                    CycleEvent::CollectFailed
                },
                true,
            );
            let after_send = if after_collect == CycleState::Sending {
                cycle_step(after_collect, CycleEvent::SendCompleted, true)
            } else {
                after_collect
            };
            after_send == CycleState::Waiting
        }),
{
}

} // verus!
