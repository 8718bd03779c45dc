use sync_bridge::watchdog::{
    AvailabilityChecker, LivenessStatus, WatchdogOutcome, WatchdogStep,
};

fn checker() -> AvailabilityChecker {
    AvailabilityChecker::new("10.0.0.7:3316".to_string(), "zone-a".to_string(), 5)
}

#[test]
fn absent_record_terminates_on_first_poll() {
    let mut watchdog = checker();
    let observations = vec![None, Some(LivenessStatus::Alive), Some(LivenessStatus::Alive)];
    let (outcome, polls) = watchdog.run(&observations);
    assert_eq!(outcome, Some(WatchdogOutcome::NotFound));
    assert_eq!(polls, 1);
    assert_eq!(watchdog.not_found_count(), 1);
    assert_eq!(watchdog.found_dead_count(), 0);
}

#[test]
fn dead_record_terminates() {
    let mut watchdog = checker();
    let observations = vec![
        Some(LivenessStatus::Alive),
        Some(LivenessStatus::Dead),
        Some(LivenessStatus::Alive),
    ];
    let (outcome, polls) = watchdog.run(&observations);
    assert_eq!(outcome, Some(WatchdogOutcome::FoundDead));
    assert_eq!(polls, 2);
    assert_eq!(watchdog.not_found_count(), 0);
    assert_eq!(watchdog.found_dead_count(), 1);
}

#[test]
fn alive_record_keeps_polling_until_external_stop() {
    let mut watchdog = checker();
    let observations = vec![Some(LivenessStatus::Alive); 6];
    let (outcome, polls) = watchdog.run(&observations);
    assert_eq!(outcome, None);
    assert_eq!(polls, 6);
    assert_eq!(watchdog.not_found_count(), 0);
    assert_eq!(watchdog.found_dead_count(), 0);
    // Still polling: a later terminal observation still ends it.
    let step = watchdog.observe(None);
    assert_eq!(step, WatchdogStep::Terminate(WatchdogOutcome::NotFound));
}

#[test]
fn single_poll_decisions() {
    let mut watchdog = checker();
    assert_eq!(
        watchdog.observe(Some(LivenessStatus::Alive)),
        WatchdogStep::ContinuePolling
    );
    assert_eq!(
        watchdog.observe(Some(LivenessStatus::Dead)),
        WatchdogStep::Terminate(WatchdogOutcome::FoundDead)
    );
    assert_eq!(watchdog.found_dead_count(), 1);
}

#[test]
fn checker_keeps_its_identity() {
    let watchdog = checker();
    assert_eq!(watchdog.address().as_str(), "10.0.0.7:3316");
    assert_eq!(watchdog.zone().as_str(), "zone-a");
    assert_eq!(watchdog.polling_interval_secs(), 5);
}
