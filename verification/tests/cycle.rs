use inventory_agent::cycle::{step, CycleEvent, CycleState};

#[test]
fn test_stop_in_waiting_terminates_before_next_collect() {
    let s = step(CycleState::Waiting, CycleEvent::StopRequested, true);
    assert_eq!(s, CycleState::Stopping);
    let s = step(s, CycleEvent::TimerElapsed, true);
    assert_eq!(s, CycleState::Stopped);
    let s = step(s, CycleEvent::TimerElapsed, true);
    assert_eq!(s, CycleState::Stopped);
}

#[test]
fn test_stop_during_send_lets_send_finish() {
    let s = step(CycleState::Sending, CycleEvent::StopRequested, true);
    assert_eq!(s, CycleState::Sending);
    let s = step(s, CycleEvent::SendCompleted, true);
    assert_eq!(s, CycleState::Waiting);
    let s = step(s, CycleEvent::StopRequested, true);
    assert_eq!(s, CycleState::Stopping);
}

#[test]
fn test_repeated_failed_ticks_return_to_waiting() {
    let mut s = step(CycleState::Idle, CycleEvent::Started, true);
    assert_eq!(s, CycleState::Collecting);
    s = step(s, CycleEvent::CollectSucceeded, true);
    for _ in 0..3 {
        assert_eq!(s, CycleState::Sending);
        s = step(s, CycleEvent::SendCompleted, true);
        assert_eq!(s, CycleState::Waiting);
        s = step(s, CycleEvent::TimerElapsed, true);
        assert_eq!(s, CycleState::Collecting);
        s = step(s, CycleEvent::CollectSucceeded, true);
    }
    assert_eq!(s, CycleState::Sending);
}

#[test]
fn test_collection_only_mode_skips_sending() {
    let s = step(CycleState::Collecting, CycleEvent::CollectSucceeded, false);
    assert_eq!(s, CycleState::Waiting);
}

#[test]
fn test_collect_failure_is_not_fatal() {
    let s = step(CycleState::Collecting, CycleEvent::CollectFailed, true);
    assert_eq!(s, CycleState::Waiting);
    let s = step(s, CycleEvent::TimerElapsed, true);
    assert_eq!(s, CycleState::Collecting);
}
