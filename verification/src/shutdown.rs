//! When the exporter is to shut down.

use vstd::prelude::*;
use crate::record::{Level, Record};

verus! {

/// What was seen of the flag that requests a shutdown.
#[derive(Debug, Clone, Copy, PartialEq, Eq, Structural)]
pub enum Observation {
    /// The flag's value when it was looked at.
    Current(bool),
    /// The flag was set anew.
    Changed,
    /// Nobody is left who could set the flag.
    SenderGone,
}

/// What came first while the exporter was starting.
#[derive(Debug)]
pub enum StartupEvent<T, E> {
    /// The connection was made, or failed.
    Connection(Result<T, E>),
    /// A shutdown was requested.
    Shutdown,
}

/// How far waiting for a signal got.
#[derive(Debug, Clone, Copy, PartialEq, Eq, Structural)]
pub enum SignalState {
    /// The handler for the terminate signal is being installed.
    Installing,
    /// Signals are waited for; the terminate signal only if its handler was
    /// installed.
    Waiting { terminate: bool },
    /// A shutdown is to follow.
    Received,
}

/// What happens while a signal is waited for.
#[derive(Debug, Clone, Copy, PartialEq, Eq, Structural)]
pub enum SignalEvent {
    TerminateInstalled,
    TerminateUnavailable,
    CtrlC,
    CtrlCFailed,
    Terminate,
}

/// Whether an event can happen in a state.
pub open spec fn can_happen(state: SignalState, event: SignalEvent) -> bool {
    match state {
        SignalState::Installing => event == SignalEvent::TerminateInstalled || event
            == SignalEvent::TerminateUnavailable,
        SignalState::Waiting { terminate } => event == SignalEvent::CtrlC || event
            == SignalEvent::CtrlCFailed || (terminate && event == SignalEvent::Terminate),
        SignalState::Received => false,
    }
}

/// The state after an event.
pub open spec fn signal_after(event: SignalEvent) -> SignalState {
    match event {
        SignalEvent::TerminateInstalled => SignalState::Waiting { terminate: true },
        SignalEvent::TerminateUnavailable => SignalState::Waiting { terminate: false },
        _ => SignalState::Received,
    }
}

/// What is logged of an event.
pub open spec fn signal_log(event: SignalEvent) -> Option<(Level, Seq<char>)> {
    match event {
        SignalEvent::TerminateUnavailable => Some(
            (Level::Error, "failed to install SIGTERM handler"@),
        ),
        SignalEvent::CtrlCFailed => Some((Level::Error, "failed to listen for Ctrl-C"@)),
        _ => None,
    }
}

/// Whether an observation means that the exporter is to shut down. A flag that
/// was set anew does, whatever its value, and so does one that nobody can set.
pub fn shutdown_requested(observation: Observation) -> (requested: bool)
    ensures
        requested == (observation != Observation::Current(false)),
{
    match observation {
        Observation::Current(flag) => flag,
        Observation::Changed => true,
        Observation::SenderGone => true,
    }
}

/// What starting comes to: the connection, the reason why there is none, or
/// nothing where a shutdown came first.
pub fn wait_for_startup<T, E>(event: StartupEvent<T, E>) -> (result: Result<Option<T>, E>)
    ensures
        result == (match event {
            StartupEvent::Connection(Ok(connection)) => Ok::<Option<T>, E>(Some(connection)),
            StartupEvent::Connection(Err(error)) => Err::<Option<T>, E>(error),
            StartupEvent::Shutdown => Ok::<Option<T>, E>(None),
        }),
{
    match event {
        StartupEvent::Connection(Ok(connection)) => Ok(Some(connection)),
        StartupEvent::Connection(Err(error)) => Err(error),
        StartupEvent::Shutdown => Ok(None),
    }
}

/// Takes in what happened while a signal is waited for, and says what is to be
/// logged. A failure to listen for Ctrl-C ends the wait as the signal does.
pub fn signal(state: SignalState, event: SignalEvent) -> (result: (SignalState, Option<Record>))
    requires
        can_happen(state, event),
    ensures
        result.0 == signal_after(event),
        match result.1 {
            Some(record) => signal_log(event) == Some(record@),
            None => signal_log(event) is None,
        },
        state == SignalState::Installing ==> result.0 == (SignalState::Waiting {
            terminate: event == SignalEvent::TerminateInstalled,
        }),
        state != SignalState::Installing ==> result.0 == SignalState::Received,
        match event {
            SignalEvent::TerminateUnavailable => result.1 matches Some(record) && record.level
                == Level::Error && record.message@ == "failed to install SIGTERM handler"@,
            SignalEvent::CtrlCFailed => result.1 matches Some(record) && record.level
                == Level::Error && record.message@ == "failed to listen for Ctrl-C"@,
            _ => result.1 is None,
        },
{
    match event {
        SignalEvent::TerminateInstalled => (SignalState::Waiting { terminate: true }, None),
        SignalEvent::TerminateUnavailable => (
            SignalState::Waiting { terminate: false },
            Some(Record { level: Level::Error, message: "failed to install SIGTERM handler" }),
        ),
        SignalEvent::CtrlC => (SignalState::Received, None),
        SignalEvent::CtrlCFailed => (
            SignalState::Received,
            Some(Record { level: Level::Error, message: "failed to listen for Ctrl-C" }),
        ),
        SignalEvent::Terminate => (SignalState::Received, None),
    }
}

/// Signals are waited for once it is known whether the terminate signal can be
/// heard, and it is waited for just where its handler was installed. Only
/// failures are logged, as errors.
pub proof fn signal_failures_are_logged_as_errors(state: SignalState, event: SignalEvent)
    requires
        can_happen(state, event),
    ensures
        state == SignalState::Installing ==> signal_after(event) == (SignalState::Waiting {
            terminate: event == SignalEvent::TerminateInstalled,
        }),
        event == SignalEvent::Terminate ==> state == (SignalState::Waiting { terminate: true }),
        signal_log(event) is Some <==> event == SignalEvent::TerminateUnavailable || event
            == SignalEvent::CtrlCFailed,
        signal_log(event) matches Some(record) ==> record.0 == Level::Error,
{
}

/// Whatever is heard first while signals are waited for ends the wait.
pub proof fn first_signal_ends_the_wait(terminate: bool, event: SignalEvent)
    requires
        can_happen(SignalState::Waiting { terminate }, event),
    ensures
        signal_after(event) == SignalState::Received,
{
}

} // verus!
