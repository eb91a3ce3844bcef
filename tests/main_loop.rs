use toplevel_watch::{next_step, Driver, LoopAction, LoopEvent, LoopPhase};

fn ready_cycle(driver: &mut Driver, flush_ok: bool) -> Vec<LoopAction> {
    vec![
        driver.handle(LoopEvent::Attempt { ready: true }),
        driver.handle(LoopEvent::Flushed { ok: flush_ok }),
        driver.handle(LoopEvent::RoundtripDone { ok: true }),
    ]
}

#[test]
fn flush_failure_between_successes_keeps_looping() {
    let mut driver = Driver::new();
    let expected = vec![LoopAction::Flush, LoopAction::Roundtrip, LoopAction::Suspend];
    assert_eq!(ready_cycle(&mut driver, true), expected);
    assert_eq!(ready_cycle(&mut driver, false), expected);
    assert_eq!(ready_cycle(&mut driver, true), expected);
    assert_eq!(driver.phase(), LoopPhase::Suspended);
}

#[test]
fn ready_attempt_completes_without_waiting() {
    let mut driver = Driver::new();
    assert_eq!(driver.handle(LoopEvent::Attempt { ready: true }), LoopAction::Flush);
    assert_eq!(driver.phase(), LoopPhase::Flushing);
    assert_eq!(driver.handle(LoopEvent::Flushed { ok: true }), LoopAction::Roundtrip);
    assert_eq!(driver.phase(), LoopPhase::Dispatching);
}

#[test]
fn unready_attempt_waits_once_and_rearms() {
    let mut driver = Driver::new();
    assert_eq!(driver.handle(LoopEvent::Attempt { ready: false }), LoopAction::BlockingWait);
    assert_eq!(driver.phase(), LoopPhase::Waiting);
    assert_eq!(driver.handle(LoopEvent::Attempt { ready: false }), LoopAction::Idle);
    assert_eq!(driver.handle(LoopEvent::Waited { ok: true }), LoopAction::Rearm);
    assert_eq!(driver.phase(), LoopPhase::Suspended);
    assert_eq!(driver.handle(LoopEvent::Attempt { ready: true }), LoopAction::Flush);
}

#[test]
fn poll_failure_is_absorbed() {
    let mut driver = Driver::new();
    assert_eq!(driver.handle(LoopEvent::Attempt { ready: false }), LoopAction::BlockingWait);
    assert_eq!(driver.handle(LoopEvent::Waited { ok: false }), LoopAction::Rearm);
    assert_eq!(driver.phase(), LoopPhase::Suspended);
    let expected = vec![LoopAction::Flush, LoopAction::Roundtrip, LoopAction::Suspend];
    assert_eq!(ready_cycle(&mut driver, true), expected);
}

#[test]
fn roundtrip_failure_aborts_for_good() {
    let mut driver = Driver::new();
    driver.handle(LoopEvent::Attempt { ready: true });
    driver.handle(LoopEvent::Flushed { ok: true });
    assert_eq!(driver.handle(LoopEvent::RoundtripDone { ok: false }), LoopAction::Abort);
    assert_eq!(driver.phase(), LoopPhase::Aborted);
    assert_eq!(driver.handle(LoopEvent::Attempt { ready: true }), LoopAction::Abort);
    assert_eq!(driver.handle(LoopEvent::Flushed { ok: true }), LoopAction::Abort);
    assert_eq!(driver.handle(LoopEvent::RoundtripDone { ok: true }), LoopAction::Abort);
    assert_eq!(driver.phase(), LoopPhase::Aborted);
}

#[test]
fn out_of_phase_events_change_nothing() {
    assert_eq!(
        next_step(LoopPhase::Suspended, LoopEvent::RoundtripDone { ok: false }),
        (LoopPhase::Suspended, LoopAction::Idle)
    );
    assert_eq!(
        next_step(LoopPhase::Dispatching, LoopEvent::Flushed { ok: false }),
        (LoopPhase::Dispatching, LoopAction::Idle)
    );
    assert_eq!(
        next_step(LoopPhase::Flushing, LoopEvent::Waited { ok: true }),
        (LoopPhase::Flushing, LoopAction::Idle)
    );
}
