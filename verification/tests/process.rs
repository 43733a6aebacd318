//! Starting, signals and shutting down.

use tapo_exporter::record::Level;
use tapo_exporter::shutdown::{
    shutdown_requested, signal, wait_for_startup, Observation, SignalEvent, SignalState, StartupEvent,
};
use tapo_exporter::supervisor::{start, supervise, StartupPhase, TaskExit};

#[test]
fn startup_wait_returns_when_shutdown_is_requested() {
    let event: StartupEvent<(), ()> = StartupEvent::Shutdown;
    assert_eq!(wait_for_startup(event).expect("startup wait failed"), None);
}

#[test]
fn startup_wait_returns_connection_result() {
    let event: StartupEvent<(), ()> = StartupEvent::Connection(Ok(()));
    assert_eq!(wait_for_startup(event).expect("startup wait failed"), Some(()));
    let event: StartupEvent<(), &str> = StartupEvent::Connection(Err("unreachable"));
    assert_eq!(wait_for_startup(event), Err("unreachable"));
}

#[test]
fn a_set_changed_or_orphaned_flag_requests_a_shutdown() {
    assert!(!shutdown_requested(Observation::Current(false)));
    assert!(shutdown_requested(Observation::Current(true)));
    assert!(shutdown_requested(Observation::Changed));
    assert!(shutdown_requested(Observation::SenderGone));
}

#[test]
fn either_signal_ends_the_wait() {
    let (state, record) = signal(SignalState::Installing, SignalEvent::TerminateInstalled);
    assert_eq!(state, SignalState::Waiting { terminate: true });
    assert!(record.is_none());
    for event in [SignalEvent::CtrlC, SignalEvent::Terminate] {
        let (state, record) = signal(state, event);
        assert_eq!(state, SignalState::Received);
        assert!(record.is_none());
    }
}

#[test]
fn signal_failures_are_logged() {
    let (state, record) = signal(SignalState::Installing, SignalEvent::TerminateUnavailable);
    assert_eq!(state, SignalState::Waiting { terminate: false });
    let record = record.expect("the failure should be logged");
    assert_eq!(record.level, Level::Error);
    assert_eq!(record.message, "failed to install SIGTERM handler");

    let (state, record) = signal(state, SignalEvent::CtrlCFailed);
    assert_eq!(state, SignalState::Received);
    let record = record.expect("the failure should be logged");
    assert_eq!(record.level, Level::Error);
    assert_eq!(record.message, "failed to listen for Ctrl-C");
}

#[test]
fn the_hub_comes_last_in_starting() {
    let mut phase = StartupPhase::Configuring;
    let mut messages = Vec::new();
    let mut phases = Vec::new();
    for _ in 0..4 {
        let (next, record) = start(phase, true);
        messages.extend(record.map(|record| (record.level, record.message)));
        phases.push(next);
        phase = next;
    }
    assert_eq!(
        phases,
        [
            StartupPhase::Binding,
            StartupPhase::Addressing,
            StartupPhase::Connecting,
            StartupPhase::Running,
        ]
    );
    assert_eq!(
        messages,
        [
            (Level::Info, "HTTP server listening"),
            (Level::Info, "connected to Tapo hub"),
        ]
    );
}

#[test]
fn a_failure_to_start_is_logged() {
    for (phase, message) in [
        (StartupPhase::Configuring, "invalid configuration"),
        (StartupPhase::Binding, "failed to bind HTTP server"),
        (StartupPhase::Addressing, "failed to determine HTTP server address"),
        (StartupPhase::Connecting, "failed to connect to Tapo hub"),
    ] {
        let (next, record) = start(phase, false);
        assert_eq!(next, StartupPhase::Failed);
        let record = record.expect("the failure should be logged");
        assert_eq!(record.level, Level::Error);
        assert_eq!(record.message, message);
    }
}

#[test]
fn only_a_server_failure_is_fatal() {
    for (exit, level, message, fatal) in [
        (TaskExit::ServerStopped, Level::Info, "HTTP server stopped", false),
        (TaskExit::ServerFailed, Level::Error, "HTTP server failed", true),
        (TaskExit::ServerTaskFailed, Level::Error, "HTTP server task failed", true),
        (
            TaskExit::PollingStopped,
            Level::Error,
            "Tapo polling task exited unexpectedly",
            false,
        ),
        (TaskExit::PollingTaskFailed, Level::Error, "Tapo polling task failed", false),
    ] {
        let verdict = supervise(exit);
        assert_eq!(verdict.record.level, level);
        assert_eq!(verdict.record.message, message);
        assert_eq!(verdict.fatal, fatal);
    }
}
