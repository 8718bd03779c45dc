use sync_bridge::orchestrator::{
    shutdown_outcome, step, OrchestratorError, OrchestratorEvent, OrchestratorState, Scope,
    Termination,
};

#[test]
fn startup_reaches_running() {
    let s = step(OrchestratorState::Starting, OrchestratorEvent::Started);
    assert_eq!(s, OrchestratorState::Running);
}

#[test]
fn stop_signal_shuts_down_cleanly() {
    let s = step(OrchestratorState::Running, OrchestratorEvent::StopSignal);
    assert_eq!(s, OrchestratorState::ShuttingDown(Termination::Canceled));
    let s = step(s, OrchestratorEvent::AllTasksDone);
    assert_eq!(s, OrchestratorState::Stopped);
    assert_eq!(shutdown_outcome(Termination::Canceled), Ok(()));
}

#[test]
fn dropped_sender_is_an_implicit_stop() {
    let s = step(OrchestratorState::Running, OrchestratorEvent::SenderDropped);
    assert_eq!(s, OrchestratorState::ShuttingDown(Termination::Canceled));
    let s = step(s, OrchestratorEvent::AllTasksDone);
    assert_eq!(s, OrchestratorState::Stopped);
}

#[test]
fn child_failure_cancels_and_surfaces() {
    let s = step(
        OrchestratorState::Running,
        OrchestratorEvent::TaskFailed(OrchestratorError::Executor),
    );
    assert_eq!(
        s,
        OrchestratorState::ShuttingDown(Termination::Failed(OrchestratorError::Executor))
    );
    let s = step(s, OrchestratorEvent::AllTasksDone);
    assert_eq!(s, OrchestratorState::Failed(OrchestratorError::Executor));
    assert_eq!(
        shutdown_outcome(Termination::Failed(OrchestratorError::Executor)),
        Err(OrchestratorError::Executor)
    );
}

#[test]
fn every_error_kind_surfaces() {
    for err in [
        OrchestratorError::Connection,
        OrchestratorError::Storage,
        OrchestratorError::Executor,
    ] {
        assert_eq!(shutdown_outcome(Termination::Failed(err)), Err(err));
    }
}

#[test]
fn first_termination_cause_wins() {
    let s = OrchestratorState::ShuttingDown(Termination::Canceled);
    let s = step(
        s,
        OrchestratorEvent::TaskFailed(OrchestratorError::Storage),
    );
    assert_eq!(s, OrchestratorState::ShuttingDown(Termination::Canceled));
}

#[test]
fn stop_signal_stops_every_activity_and_returns_clean() {
    // The executor and both listener loops are active under one scope.
    let mut scope = Scope::new();
    let executor = scope.spawn();
    let store_listener = scope.spawn();
    let buffer_listener = scope.spawn();
    let mut state = step(OrchestratorState::Starting, OrchestratorEvent::Started);
    assert_eq!(state, OrchestratorState::Running);

    // The stop signal fires: cancellation propagates to all three.
    state = step(state, OrchestratorEvent::StopSignal);
    assert_eq!(state, OrchestratorState::ShuttingDown(Termination::Canceled));
    scope.cancel();
    assert!(scope.is_cancel_requested());
    assert!(!scope.all_exited());

    // Each child observes cancellation and unwinds; the scope completes only
    // once all of them have.
    for child in [executor, store_listener, buffer_listener] {
        assert!(scope.is_running(child));
        scope.child_exited(child);
    }
    assert!(scope.all_exited());
    state = step(state, OrchestratorEvent::AllTasksDone);
    assert_eq!(state, OrchestratorState::Stopped);
    assert_eq!(shutdown_outcome(Termination::Canceled), Ok(()));
}

#[test]
fn cancellation_is_idempotent() {
    let mut scope = Scope::new();
    let child = scope.spawn();
    scope.cancel();
    scope.cancel();
    assert!(scope.is_cancel_requested());
    assert!(scope.is_running(child));
}

#[test]
fn terminal_states_absorb_events() {
    let stopped = OrchestratorState::Stopped;
    assert_eq!(step(stopped, OrchestratorEvent::StopSignal), stopped);
    assert_eq!(step(stopped, OrchestratorEvent::Started), stopped);
    let failed = OrchestratorState::Failed(OrchestratorError::Connection);
    assert_eq!(step(failed, OrchestratorEvent::AllTasksDone), failed);
}
