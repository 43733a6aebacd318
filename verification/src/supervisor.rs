//! The life of the process: what has to succeed before it runs, and what the
//! end of a task means for it.

use vstd::prelude::*;
use crate::record::{Level, Record};

verus! {

/// What the process is about to do before it runs.
#[derive(Debug, Clone, Copy, PartialEq, Eq, Structural)]
pub enum StartupPhase {
    /// Read and check the configuration.
    Configuring,
    /// Open the server's socket.
    Binding,
    /// Find out the socket's address.
    Addressing,
    /// Connect to the hub.
    Connecting,
    /// Serve and poll.
    Running,
    /// End with an error.
    Failed,
}

/// The phase after a phase's work succeeded or failed.
pub open spec fn phase_after(phase: StartupPhase, succeeded: bool) -> StartupPhase {
    if !succeeded {
        StartupPhase::Failed
    } else {
        match phase {
            StartupPhase::Configuring => StartupPhase::Binding,
            StartupPhase::Binding => StartupPhase::Addressing,
            StartupPhase::Addressing => StartupPhase::Connecting,
            StartupPhase::Connecting => StartupPhase::Running,
            StartupPhase::Running => StartupPhase::Running,
            StartupPhase::Failed => StartupPhase::Failed,
        }
    }
}

/// What is logged of a phase's work, once it succeeded or failed.
pub open spec fn phase_log(phase: StartupPhase, succeeded: bool) -> Option<(Level, Seq<char>)> {
    match (phase, succeeded) {
        (StartupPhase::Configuring, false) => Some((Level::Error, "invalid configuration"@)),
        (StartupPhase::Binding, false) => Some((Level::Error, "failed to bind HTTP server"@)),
        (StartupPhase::Addressing, false) => Some(
            (Level::Error, "failed to determine HTTP server address"@),
        ),
        (StartupPhase::Addressing, true) => Some((Level::Info, "HTTP server listening"@)),
        (StartupPhase::Connecting, false) => Some((Level::Error, "failed to connect to Tapo hub"@)),
        (StartupPhase::Connecting, true) => Some((Level::Info, "connected to Tapo hub"@)),
        _ => None,
    }
}

/// Whether there is work in a phase that can succeed or fail.
pub open spec fn is_starting(phase: StartupPhase) -> bool {
    phase != StartupPhase::Running && phase != StartupPhase::Failed
}

/// Takes in whether a phase's work succeeded, and says what comes next and what
/// is to be logged.
pub fn start(phase: StartupPhase, succeeded: bool) -> (result: (StartupPhase, Option<Record>))
    requires
        is_starting(phase),
    ensures
        result.0 == phase_after(phase, succeeded),
        match result.1 {
            Some(record) => phase_log(phase, succeeded) == Some(record@),
            None => phase_log(phase, succeeded) is None,
        },
        !succeeded ==> result.0 == StartupPhase::Failed && (result.1 matches Some(record)
            && record.level == Level::Error && record.message@ == match phase {
            StartupPhase::Configuring => "invalid configuration"@,
            StartupPhase::Binding => "failed to bind HTTP server"@,
            StartupPhase::Addressing => "failed to determine HTTP server address"@,
            _ => "failed to connect to Tapo hub"@,
        }),
        succeeded ==> match phase {
            StartupPhase::Configuring => result.0 == StartupPhase::Binding && result.1 is None,
            StartupPhase::Binding => result.0 == StartupPhase::Addressing && result.1 is None,
            StartupPhase::Addressing => result.0 == StartupPhase::Connecting && (
            result.1 matches Some(record) && record.level == Level::Info && record.message@
                == "HTTP server listening"@),
            _ => result.0 == StartupPhase::Running && (result.1 matches Some(record)
                && record.level == Level::Info && record.message@ == "connected to Tapo hub"@),
        },
{
    match (phase, succeeded) {
        (StartupPhase::Configuring, true) => (StartupPhase::Binding, None),
        (StartupPhase::Configuring, false) => (
            StartupPhase::Failed,
            Some(Record { level: Level::Error, message: "invalid configuration" }),
        ),
        (StartupPhase::Binding, true) => (StartupPhase::Addressing, None),
        (StartupPhase::Binding, false) => (
            StartupPhase::Failed,
            Some(Record { level: Level::Error, message: "failed to bind HTTP server" }),
        ),
        (StartupPhase::Addressing, true) => (
            StartupPhase::Connecting,
            Some(Record { level: Level::Info, message: "HTTP server listening" }),
        ),
        (StartupPhase::Addressing, false) => (
            StartupPhase::Failed,
            Some(Record { level: Level::Error, message: "failed to determine HTTP server address" }),
        ),
        (StartupPhase::Connecting, true) => (
            StartupPhase::Running,
            Some(Record { level: Level::Info, message: "connected to Tapo hub" }),
        ),
        (StartupPhase::Connecting, false) => (
            StartupPhase::Failed,
            Some(Record { level: Level::Error, message: "failed to connect to Tapo hub" }),
        ),
        (phase, _) => (phase, None),
    }
}

/// The phase that a process has reached, given how the work of each phase so
/// far went.
pub open spec fn phase_at(outcomes: Seq<bool>) -> StartupPhase
    decreases outcomes.len(),
{
    if outcomes.len() == 0 {
        StartupPhase::Configuring
    } else {
        phase_after(phase_at(outcomes.drop_last()), outcomes.last())
    }
}

/// A process connects to the hub, and runs, only after everything before it
/// succeeded, a valid configuration first of all.
pub proof fn the_hub_is_contacted_only_after_all_else_succeeded(outcomes: Seq<bool>)
    requires
        phase_at(outcomes) == StartupPhase::Connecting || phase_at(outcomes)
            == StartupPhase::Running,
    ensures
        outcomes.len() >= 3,
        forall|i: int| 0 <= i < outcomes.len() ==> #[trigger] outcomes[i],
{
    lemma_unfailed(outcomes);
}

/// In a process that has not failed, nothing has.
proof fn lemma_unfailed(outcomes: Seq<bool>)
    requires
        phase_at(outcomes) != StartupPhase::Failed,
    ensures
        forall|i: int| 0 <= i < outcomes.len() ==> #[trigger] outcomes[i],
        phase_at(outcomes) == StartupPhase::Configuring ==> outcomes.len() == 0,
        phase_at(outcomes) == StartupPhase::Binding ==> outcomes.len() == 1,
        phase_at(outcomes) == StartupPhase::Addressing ==> outcomes.len() == 2,
        phase_at(outcomes) == StartupPhase::Connecting ==> outcomes.len() == 3,
        phase_at(outcomes) == StartupPhase::Running ==> outcomes.len() >= 4,
    decreases outcomes.len(),
{
    if outcomes.len() > 0 {
        let before = outcomes.drop_last();
        lemma_unfailed(before);
        assert forall|i: int| 0 <= i < outcomes.len() implies #[trigger] outcomes[i] by {
            if i < before.len() {
                assert(before[i]);
            }
        }
    }
}

/// A process in which nothing failed goes through the phases one by one: it
/// configures itself, opens its socket, finds out the socket's address, connects
/// to the hub, and runs.
pub proof fn a_start_without_failure_goes_through_every_phase(outcomes: Seq<bool>)
    requires
        forall|i: int| 0 <= i < outcomes.len() ==> #[trigger] outcomes[i],
    ensures
        outcomes.len() == 0 <==> phase_at(outcomes) == StartupPhase::Configuring,
        outcomes.len() == 1 <==> phase_at(outcomes) == StartupPhase::Binding,
        outcomes.len() == 2 <==> phase_at(outcomes) == StartupPhase::Addressing,
        outcomes.len() == 3 <==> phase_at(outcomes) == StartupPhase::Connecting,
        outcomes.len() >= 4 <==> phase_at(outcomes) == StartupPhase::Running,
    decreases outcomes.len(),
{
    if outcomes.len() > 0 {
        let before = outcomes.drop_last();
        assert forall|i: int| 0 <= i < before.len() implies #[trigger] before[i] by {
            assert(outcomes[i]);
        }
        a_start_without_failure_goes_through_every_phase(before);
        assert(outcomes[outcomes.len() - 1]);
    }
}

/// Work that fails before the process runs ends the start with an error in the
/// log, and work that succeeds leads to no error.
pub proof fn failing_to_start_is_logged_as_an_error(phase: StartupPhase, succeeded: bool)
    requires
        is_starting(phase),
    ensures
        phase_after(phase, succeeded) == StartupPhase::Failed <==> !succeeded,
        !succeeded <==> (phase_log(phase, succeeded) matches Some(record) && record.0
            == Level::Error),
{
}

/// A process that failed stays so.
pub proof fn failing_to_start_is_final(outcomes: Seq<bool>, outcome: bool)
    requires
        phase_at(outcomes) == StartupPhase::Failed,
    ensures
        phase_at(outcomes.push(outcome)) == StartupPhase::Failed,
{
    assert(outcomes.push(outcome).drop_last() == outcomes);
}

/// How the first task to end did so.
#[derive(Debug, Clone, Copy, PartialEq, Eq, Structural)]
pub enum TaskExit {
    /// The server stopped.
    ServerStopped,
    /// The server failed.
    ServerFailed,
    /// The task that runs the server panicked or was cancelled.
    ServerTaskFailed,
    /// The polling task stopped.
    PollingStopped,
    /// The polling task panicked or was cancelled.
    PollingTaskFailed,
}

/// What the end of a task comes to.
#[derive(Debug, Clone, Copy)]
pub struct Verdict {
    /// What is logged.
    pub record: Record,
    /// Whether the process ends with the task's error.
    pub fatal: bool,
}

/// What is logged of the end of a task.
pub open spec fn exit_log(exit: TaskExit) -> (Level, Seq<char>) {
    match exit {
        TaskExit::ServerStopped => (Level::Info, "HTTP server stopped"@),
        TaskExit::ServerFailed => (Level::Error, "HTTP server failed"@),
        TaskExit::ServerTaskFailed => (Level::Error, "HTTP server task failed"@),
        TaskExit::PollingStopped => (Level::Error, "Tapo polling task exited unexpectedly"@),
        TaskExit::PollingTaskFailed => (Level::Error, "Tapo polling task failed"@),
    }
}

/// Only a server that stopped is no error, and no two ends read alike.
pub proof fn ends_are_told_apart_in_the_log(left: TaskExit, right: TaskExit)
    ensures
        exit_log(left).0 == Level::Info <==> left == TaskExit::ServerStopped,
        exit_log(left).0 == Level::Error <==> left != TaskExit::ServerStopped,
        exit_log(left) == exit_log(right) <==> left == right,
{
    reveal_strlit("HTTP server stopped");
    reveal_strlit("HTTP server failed");
    reveal_strlit("HTTP server task failed");
    reveal_strlit("Tapo polling task exited unexpectedly");
    reveal_strlit("Tapo polling task failed");
    assert("HTTP server task failed"@[0] != "Tapo polling task failed"@[0]);
    assert(exit_log(left).1.len() == exit_log(right).1.len() || exit_log(left) != exit_log(right));
}

/// Decides what the end of the first task comes to. The process ends with an
/// error just where the server did.
pub fn supervise(exit: TaskExit) -> (verdict: Verdict)
    ensures
        verdict.record@ == exit_log(exit),
        verdict.record.level == Level::Info <==> exit == TaskExit::ServerStopped,
        verdict.record.level == Level::Error <==> exit != TaskExit::ServerStopped,
        verdict.record.message@ == match exit {
            TaskExit::ServerStopped => "HTTP server stopped"@,
            TaskExit::ServerFailed => "HTTP server failed"@,
            TaskExit::ServerTaskFailed => "HTTP server task failed"@,
            TaskExit::PollingStopped => "Tapo polling task exited unexpectedly"@,
            TaskExit::PollingTaskFailed => "Tapo polling task failed"@,
        },
        verdict.fatal == (exit == TaskExit::ServerFailed || exit == TaskExit::ServerTaskFailed),
{
    match exit {
        TaskExit::ServerStopped => Verdict {
            record: Record { level: Level::Info, message: "HTTP server stopped" },
            fatal: false,
        },
        TaskExit::ServerFailed => Verdict {
            record: Record { level: Level::Error, message: "HTTP server failed" },
            fatal: true,
        },
        TaskExit::ServerTaskFailed => Verdict {
            record: Record { level: Level::Error, message: "HTTP server task failed" },
            fatal: true,
        },
        TaskExit::PollingStopped => Verdict {
            record: Record {
                level: Level::Error,
                message: "Tapo polling task exited unexpectedly",
            },
            fatal: false,
        },
        TaskExit::PollingTaskFailed => Verdict {
            record: Record { level: Level::Error, message: "Tapo polling task failed" },
            fatal: false,
        },
    }
}

} // verus!
