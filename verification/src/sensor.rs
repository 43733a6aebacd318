//! Polling the hub: when to ask it for its devices, what to do with the answer
//! and what to log.
//!
//! Summaries are timed in nanoseconds since the process booted.

use vstd::prelude::*;
use crate::clock::Uptime;
use crate::metrics::{
    a_sensor_sets_its_two_gauges, device_updates, gauges_show_the_last_reading,
    lists_of_devices_are_exported_in_turn, other_gauges_are_kept, readings, sensor_count,
    update_devices, updated, updates, ChildDevice, GaugeUpdate, GaugeValue, Gauges, Reading, Update,
};
use crate::record::{Level, Record};

verus! {

/// How long to wait between polls, in seconds.
pub const POLL_INTERVAL: u64 = 5;

/// How long to wait between summaries of successful polls: a minute, in
/// nanoseconds.
pub const POLL_SUCCESS_LOG_INTERVAL: u128 = 60_000_000_000;

/// What the polling task is about to do.
#[derive(Debug, Clone, Copy, PartialEq, Eq, Structural)]
pub enum PollPhase {
    Polling,
    Reporting { updated_devices: usize },
    Sleeping,
    Stopped,
}

/// The polling task: its phase, and the instant from which on a successful poll
/// is summarized.
#[derive(Debug, Clone, Copy)]
pub struct Poller {
    pub phase: PollPhase,
    pub summary_due: u128,
}

/// What the polling task has to be done for it.
#[derive(Debug, Clone, Copy)]
pub enum PollAction {
    /// Ask the hub for its devices, unless a shutdown comes first.
    Poll,
    /// Log the summary of a successful poll.
    Report { record: Record, updated_devices: usize },
    /// Wait for a number of seconds, unless a shutdown comes first.
    Sleep { seconds: u64 },
    /// Be done.
    Stop,
}

/// What came of the polling task's action.
#[derive(Debug)]
pub enum PollEvent {
    /// The hub answered with its devices, and the answer was looked at then.
    Devices { devices: Vec<ChildDevice>, now: Uptime },
    /// The hub could not be asked.
    Failed,
    /// The summary was logged, and that was done then.
    Reported { now: Uptime },
    /// The wait is over.
    Slept,
    /// A shutdown was requested.
    Shutdown,
}

/// The gauges to set and the record to log after an event.
#[derive(Debug)]
pub struct PollOutput {
    pub updates: Vec<GaugeUpdate>,
    pub record: Option<Record>,
}

/// A phase and the instant at which a summary is due.
pub struct PollState {
    pub phase: PollPhase,
    pub due: int,
}

/// What came of an action, by its readings.
pub enum PollStep {
    Devices { devices: Seq<Option<Reading>>, now: int },
    Failed,
    Reported { now: int },
    Slept,
    Shutdown,
}

/// The updates and the record of an output.
pub struct PollResult {
    pub updates: Seq<Update>,
    pub record: Option<(Level, Seq<char>)>,
}

impl View for Poller {
    type V = PollState;

    open spec fn view(&self) -> PollState {
        PollState { phase: self.phase, due: self.summary_due as int }
    }
}

impl View for PollEvent {
    type V = PollStep;

    open spec fn view(&self) -> PollStep {
        match self {
            PollEvent::Devices { devices, now } => PollStep::Devices {
                devices: readings(devices@),
                now: now@,
            },
            PollEvent::Failed => PollStep::Failed,
            PollEvent::Reported { now } => PollStep::Reported { now: now@ },
            PollEvent::Slept => PollStep::Slept,
            PollEvent::Shutdown => PollStep::Shutdown,
        }
    }
}

impl View for PollOutput {
    type V = PollResult;

    open spec fn view(&self) -> PollResult {
        PollResult {
            updates: updates(self.updates@),
            record: match self.record {
                Some(record) => Some(record@),
                None => None,
            },
        }
    }
}

/// Whether an event can come of what a phase is about to do.
pub open spec fn expected(phase: PollPhase, step: PollStep) -> bool {
    match phase {
        PollPhase::Polling => step is Devices || step is Failed || step is Shutdown,
        PollPhase::Reporting { .. } => step is Reported,
        PollPhase::Sleeping => step is Slept || step is Shutdown,
        PollPhase::Stopped => false,
    }
}

/// The state after an event: a poll is followed by a wait, and a wait by the
/// next poll; a successful poll is summarized first where a summary is due.
pub open spec fn state_after(state: PollState, step: PollStep) -> PollState {
    match step {
        PollStep::Devices { devices, now } => PollState {
            phase: if now >= state.due {
                PollPhase::Reporting { updated_devices: sensor_count(devices) as usize }
            } else {
                PollPhase::Sleeping
            },
            due: state.due,
        },
        PollStep::Failed => PollState { phase: PollPhase::Sleeping, due: state.due },
        PollStep::Reported { now } => PollState {
            phase: PollPhase::Sleeping,
            due: now + POLL_SUCCESS_LOG_INTERVAL,
        },
        PollStep::Slept => PollState { phase: PollPhase::Polling, due: state.due },
        PollStep::Shutdown => PollState { phase: PollPhase::Stopped, due: state.due },
    }
}

/// What an event calls for: the gauges of the devices, or a record of a failure
/// or of the end.
pub open spec fn output_of(step: PollStep) -> PollResult {
    match step {
        PollStep::Devices { devices, now } => PollResult {
            updates: device_updates(devices),
            record: None,
        },
        PollStep::Failed => PollResult {
            updates: Seq::<Update>::empty(),
            record: Some((Level::Error, "failed to poll Tapo hub"@)),
        },
        PollStep::Shutdown => PollResult {
            updates: Seq::<Update>::empty(),
            record: Some((Level::Info, "Tapo polling task stopped"@)),
        },
        _ => PollResult { updates: Seq::<Update>::empty(), record: None },
    }
}

/// The state of a polling task that starts.
pub open spec fn start_state(started: int) -> PollState {
    PollState { phase: PollPhase::Polling, due: started }
}

impl Poller {
    /// A polling task that starts: it polls, and its first success is
    /// summarized.
    pub fn new(started: Uptime) -> (poller: Poller)
        ensures
            poller@ == start_state(started@),
            poller.phase == PollPhase::Polling,
            poller.summary_due == started@,
    {
        Poller { phase: PollPhase::Polling, summary_due: started.in_nanos() }
    }

    /// What is to be done next.
    pub fn action(&self) -> (action: PollAction)
        ensures
            match self.phase {
                PollPhase::Polling => action is Poll,
                PollPhase::Reporting { updated_devices } => {
                    &&& action matches PollAction::Report { record, updated_devices: count }
                    &&& record@ == (Level::Info, "updated Tapo metrics"@)
                    &&& record.level == Level::Info
                    &&& record.message@ == "updated Tapo metrics"@
                    &&& count == updated_devices
                },
                PollPhase::Sleeping => action == (PollAction::Sleep { seconds: POLL_INTERVAL }),
                PollPhase::Stopped => action is Stop,
            },
    {
        match self.phase {
            PollPhase::Polling => PollAction::Poll,
            PollPhase::Reporting { updated_devices } => PollAction::Report {
                record: Record { level: Level::Info, message: "updated Tapo metrics" },
                updated_devices,
            },
            PollPhase::Sleeping => PollAction::Sleep { seconds: POLL_INTERVAL },
            PollPhase::Stopped => PollAction::Stop,
        }
    }

    /// Takes in what came of the action.
    pub fn step(&mut self, event: PollEvent) -> (output: PollOutput)
        requires
            expected(old(self).phase, event@),
        ensures
            final(self)@ == state_after(old(self)@, event@),
            output@ == output_of(event@),
            match event {
                PollEvent::Devices { devices, now } => {
                    let due = now@ >= old(self).summary_due;
                    &&& final(self).summary_due == old(self).summary_due
                    &&& due ==> final(self).phase == (PollPhase::Reporting {
                        updated_devices: sensor_count(readings(devices@)) as usize,
                    })
                    &&& !due ==> final(self).phase == PollPhase::Sleeping
                    &&& output.record is None
                    &&& output.updates@.len() == 2 * sensor_count(readings(devices@))
                    &&& forall|k: int|
                        0 <= k < devices@.len() && (#[trigger] devices@[k]) is T31X ==> {
                            let at = 2 * sensor_count(readings(devices@.take(k))) as int;
                            let reading = devices@[k]->T31X_0;
                            &&& at + 1 < output.updates@.len()
                            &&& output.updates@[at].metric@ == "room_temperature"@
                            &&& output.updates@[at].label@ == "name"@
                            &&& output.updates@[at].label_value@ == reading.nickname@
                            &&& output.updates@[at].value == GaugeValue::Temperature(
                                reading.temperature_bits,
                            )
                            &&& output.updates@[at + 1].metric@ == "room_humidity"@
                            &&& output.updates@[at + 1].label@ == "name"@
                            &&& output.updates@[at + 1].label_value@ == reading.nickname@
                            &&& output.updates@[at + 1].value == GaugeValue::Humidity(
                                reading.humidity,
                            )
                        }
                },
                PollEvent::Failed => {
                    &&& final(self).summary_due == old(self).summary_due
                    &&& final(self).phase == PollPhase::Sleeping
                    &&& output.updates@.len() == 0
                    &&& output.record matches Some(record)
                    &&& record.level == Level::Error
                    &&& record.message@ == "failed to poll Tapo hub"@
                },
                PollEvent::Reported { now } => {
                    &&& final(self).summary_due == now@ + POLL_SUCCESS_LOG_INTERVAL
                    &&& final(self).phase == PollPhase::Sleeping
                    &&& output.updates@.len() == 0
                    &&& output.record is None
                },
                PollEvent::Slept => {
                    &&& final(self).summary_due == old(self).summary_due
                    &&& final(self).phase == PollPhase::Polling
                    &&& output.updates@.len() == 0
                    &&& output.record is None
                },
                PollEvent::Shutdown => {
                    &&& final(self).summary_due == old(self).summary_due
                    &&& final(self).phase == PollPhase::Stopped
                    &&& output.updates@.len() == 0
                    &&& output.record matches Some(record)
                    &&& record.level == Level::Info
                    &&& record.message@ == "Tapo polling task stopped"@
                },
            },
    {
        let none: Vec<GaugeUpdate> = Vec::new();
        assert(updates(none@) =~= Seq::<Update>::empty());
        match event {
            PollEvent::Devices { devices, now } => {
                let (list, updated_devices) = update_devices(&devices);
                if now.in_nanos() >= self.summary_due {
                    self.phase = PollPhase::Reporting { updated_devices };
                } else {
                    self.phase = PollPhase::Sleeping;
                }
                PollOutput { updates: list, record: None }
            },
            PollEvent::Failed => {
                self.phase = PollPhase::Sleeping;
                PollOutput {
                    updates: none,
                    record: Some(Record { level: Level::Error, message: "failed to poll Tapo hub" }),
                }
            },
            PollEvent::Reported { now } => {
                self.phase = PollPhase::Sleeping;
                self.summary_due = now.in_nanos() + POLL_SUCCESS_LOG_INTERVAL;
                PollOutput { updates: none, record: None }
            },
            PollEvent::Slept => {
                self.phase = PollPhase::Polling;
                PollOutput { updates: none, record: None }
            },
            PollEvent::Shutdown => {
                self.phase = PollPhase::Stopped;
                PollOutput {
                    updates: none,
                    record: Some(Record { level: Level::Info, message: "Tapo polling task stopped" }),
                }
            },
        }
    }
}

/// The state after the first `count` events of a run.
pub open spec fn state_at(started: int, steps: Seq<PollStep>, count: int) -> PollState
    decreases count,
{
    if count <= 0 {
        start_state(started)
    } else {
        state_after(state_at(started, steps, count - 1), steps[count - 1])
    }
}

/// Whether every event of a run can come of what the task was about to do.
pub open spec fn is_run(started: int, steps: Seq<PollStep>) -> bool {
    forall|i: int|
        0 <= i < steps.len() ==> expected(state_at(started, steps, i).phase, #[trigger] steps[i])
}

/// The instant that an event carries, if any.
pub open spec fn instant_of(step: PollStep) -> Option<int> {
    match step {
        PollStep::Devices { devices, now } => Some(now),
        PollStep::Reported { now } => Some(now),
        _ => None,
    }
}

/// Whether the instants of a run never go back.
pub open spec fn is_ordered(steps: Seq<PollStep>) -> bool {
    forall|i: int, j: int|
        0 <= i < j < steps.len() && instant_of(steps[i]) is Some && instant_of(steps[j]) is Some
            ==> instant_of(#[trigger] steps[i])->0 <= instant_of(#[trigger] steps[j])->0
}

/// Whether an event of a run is a successful poll that gets summarized.
pub open spec fn is_summarized(started: int, steps: Seq<PollStep>, i: int) -> bool {
    steps[i] is Devices && state_at(started, steps, i + 1).phase is Reporting
}

/// A shutdown can come while the task polls and while it waits, and nothing can
/// once it stopped. An answer or a failure comes of polling alone, and the end of
/// a wait of waiting alone.
pub proof fn shutdowns_can_come_while_polling_or_waiting(phase: PollPhase, step: PollStep)
    ensures
        expected(phase, PollStep::Shutdown) <==> phase == PollPhase::Polling || phase
            == PollPhase::Sleeping,
        phase == PollPhase::Stopped ==> !expected(phase, step),
        step is Devices || step is Failed ==> (expected(phase, step) <==> phase
            == PollPhase::Polling),
        step is Slept ==> (expected(phase, step) <==> phase == PollPhase::Sleeping),
        step is Reported ==> (expected(phase, step) <==> phase is Reporting),
{
}

/// No event follows a shutdown: the task polls no more.
pub proof fn shutdown_is_final(started: int, steps: Seq<PollStep>, i: int)
    requires
        is_run(started, steps),
        0 <= i < steps.len(),
        steps[i] is Shutdown,
    ensures
        i == steps.len() - 1,
        state_at(started, steps, i + 1).phase is Stopped,
{
    if i + 1 < steps.len() {
        assert(expected(state_at(started, steps, i + 1).phase, steps[i + 1]));
    }
}

/// After a poll there is no other before a wait.
proof fn lemma_no_poll_before_wait(started: int, steps: Seq<PollStep>, i: int, j: int)
    requires
        is_run(started, steps),
        0 <= i < j <= steps.len(),
        steps[i] is Devices || steps[i] is Failed,
        forall|k: int| i < k < j ==> !((#[trigger] steps[k]) is Slept),
    ensures
        !(state_at(started, steps, j).phase is Polling),
    decreases j,
{
    if j > i + 1 {
        lemma_no_poll_before_wait(started, steps, i, j - 1);
        assert(expected(state_at(started, steps, j - 1).phase, steps[j - 1]));
        assert(!(steps[j - 1] is Slept));
    }
}

/// Between two polls, failed or not, there is a wait.
pub proof fn polls_are_a_wait_apart(started: int, steps: Seq<PollStep>, i: int, j: int)
    requires
        is_run(started, steps),
        0 <= i < j < steps.len(),
        steps[i] is Devices || steps[i] is Failed,
        steps[j] is Devices || steps[j] is Failed,
    ensures
        exists|k: int| i < k < j && (#[trigger] steps[k]) is Slept,
{
    if !exists|k: int| i < k < j && (#[trigger] steps[k]) is Slept {
        lemma_no_poll_before_wait(started, steps, i, j);
        assert(expected(state_at(started, steps, j).phase, steps[j]));
    }
}

/// Once a summary was logged, the next is due no earlier than a minute later.
proof fn lemma_due_after(started: int, steps: Seq<PollStep>, i: int, j: int)
    requires
        is_run(started, steps),
        is_ordered(steps),
        0 <= i < j <= steps.len(),
        steps[i] is Reported,
    ensures
        state_at(started, steps, j).due >= instant_of(steps[i])->0 + POLL_SUCCESS_LOG_INTERVAL,
    decreases j,
{
    if j > i + 1 {
        lemma_due_after(started, steps, i, j - 1);
        if steps[j - 1] is Reported {
            assert(instant_of(steps[i])->0 <= instant_of(steps[j - 1])->0);
        }
    }
}

/// A successful poll is summarized no earlier than a minute after the summary
/// before it was logged.
pub proof fn summaries_are_a_minute_apart(started: int, steps: Seq<PollStep>, i: int, j: int)
    requires
        is_run(started, steps),
        is_ordered(steps),
        0 <= i < j < steps.len(),
        steps[i] is Reported,
        is_summarized(started, steps, j),
    ensures
        instant_of(steps[j])->0 >= instant_of(steps[i])->0 + POLL_SUCCESS_LOG_INTERVAL,
{
    lemma_due_after(started, steps, i, j);
}

/// Between summaries the instant at which the next is due stays.
proof fn lemma_due_stays(started: int, steps: Seq<PollStep>, i: int, j: int)
    requires
        0 <= i < j <= steps.len(),
        steps[i] is Reported,
        forall|k: int| i < k < j ==> !((#[trigger] steps[k]) is Reported),
    ensures
        state_at(started, steps, j).due == instant_of(steps[i])->0 + POLL_SUCCESS_LOG_INTERVAL,
    decreases j,
{
    if j > i + 1 {
        lemma_due_stays(started, steps, i, j - 1);
        assert(!(steps[j - 1] is Reported));
    }
}

/// Of the successful polls after a summary was logged and before the next is,
/// those a minute or more later are summarized, and no others.
pub proof fn successes_are_summarized_once_a_minute_has_passed(
    started: int,
    steps: Seq<PollStep>,
    i: int,
    j: int,
)
    requires
        is_run(started, steps),
        0 <= i < j < steps.len(),
        steps[i] is Reported,
        steps[j] is Devices,
        forall|k: int| i < k < j ==> !((#[trigger] steps[k]) is Reported),
    ensures
        is_summarized(started, steps, j) <==> instant_of(steps[j])->0 >= instant_of(steps[i])->0
            + POLL_SUCCESS_LOG_INTERVAL,
{
    lemma_due_stays(started, steps, i, j);
}

/// Until a summary was logged, one is due since the start.
proof fn lemma_due_at_first(started: int, steps: Seq<PollStep>, count: int)
    requires
        0 <= count <= steps.len(),
        forall|k: int| 0 <= k < count ==> !((#[trigger] steps[k]) is Reported),
    ensures
        state_at(started, steps, count).due == started,
    decreases count,
{
    if count > 0 {
        lemma_due_at_first(started, steps, count - 1);
        assert(!(steps[count - 1] is Reported));
    }
}

/// The first successful poll is summarized.
pub proof fn first_success_is_summarized(started: int, steps: Seq<PollStep>, i: int)
    requires
        is_run(started, steps),
        0 <= i < steps.len(),
        steps[i] is Devices,
        instant_of(steps[i])->0 >= started,
        forall|k: int| 0 <= k < i ==> !((#[trigger] steps[k]) is Devices),
    ensures
        is_summarized(started, steps, i),
{
    assert forall|k: int| 0 <= k < i implies !((#[trigger] steps[k]) is Reported) by {
        lemma_no_report_without_success(started, steps, k);
        assert(expected(state_at(started, steps, k).phase, steps[k]));
    }
    lemma_due_at_first(started, steps, i);
}

/// Without a successful poll there is nothing to summarize.
proof fn lemma_no_report_without_success(started: int, steps: Seq<PollStep>, count: int)
    requires
        0 <= count <= steps.len(),
        forall|k: int| 0 <= k < count ==> !((#[trigger] steps[k]) is Devices),
    ensures
        !(state_at(started, steps, count).phase is Reporting),
    decreases count,
{
    if count > 0 {
        lemma_no_report_without_success(started, steps, count - 1);
        assert(!(steps[count - 1] is Devices));
    }
}

/// Whatever comes of an action, an error is logged at once where a poll failed,
/// and only there; a failed poll sets no gauge.
pub proof fn failed_polls_are_logged_at_once(step: PollStep)
    ensures
        step is Failed <==> output_of(step).record == Some(
            (Level::Error, "failed to poll Tapo hub"@),
        ),
        step is Failed <==> (output_of(step).record matches Some(record) && record.0
            == Level::Error),
        step is Failed ==> output_of(step).updates.len() == 0,
{
}

/// Once a poll was answered and its updates were made, the two gauges named
/// after a sensor of the answer show its reading; where sensors share a
/// nickname, that of the last of them.
pub proof fn a_poll_shows_every_sensor(
    gauges: Gauges,
    devices: Seq<Option<Reading>>,
    now: int,
    i: int,
)
    requires
        0 <= i < devices.len(),
        devices[i] is Some,
        forall|k: int|
            i < k < devices.len() && (#[trigger] devices[k]) is Some ==> devices[k]->0.nickname
                != devices[i]->0.nickname,
    ensures
        ({
            let after = updated(gauges, output_of(PollStep::Devices { devices, now }).updates);
            let reading = devices[i]->0;
            &&& after.contains_pair(
                ("room_temperature"@, reading.nickname),
                GaugeValue::Temperature(reading.temperature),
            )
            &&& after.contains_pair(
                ("room_humidity"@, reading.nickname),
                GaugeValue::Humidity(reading.humidity),
            )
        }),
{
    gauges_show_the_last_reading(gauges, devices, i);
}

/// Once a poll was answered and its updates were made, every gauge shows what it
/// did before that is not named after a sensor of the answer, or that shows
/// neither temperature nor humidity.
pub proof fn a_poll_keeps_other_gauges(
    gauges: Gauges,
    devices: Seq<Option<Reading>>,
    now: int,
    metric: Seq<char>,
    name: Seq<char>,
)
    requires
        (metric != "room_temperature"@ && metric != "room_humidity"@) || forall|k: int|
            0 <= k < devices.len() && (#[trigger] devices[k]) is Some ==> devices[k]->0.nickname
                != name,
    ensures
        ({
            let after = updated(gauges, output_of(PollStep::Devices { devices, now }).updates);
            &&& after.contains_key((metric, name)) == gauges.contains_key((metric, name))
            &&& gauges.contains_key((metric, name)) ==> after[(metric, name)] == gauges[(
                metric,
                name,
            )]
        }),
{
    other_gauges_are_kept(gauges, devices, metric, name);
}

/// The updates of a poll's answer are those of each device in turn: two for a
/// sensor, its temperature and its humidity under its nickname as `name`, and
/// none for another device.
pub proof fn a_poll_exports_devices_in_turn(
    first: Seq<Option<Reading>>,
    second: Seq<Option<Reading>>,
    reading: Reading,
    now: int,
)
    ensures
        output_of(PollStep::Devices { devices: first + second, now }).updates == output_of(
            PollStep::Devices { devices: first, now },
        ).updates + output_of(PollStep::Devices { devices: second, now }).updates,
        output_of(PollStep::Devices { devices: seq![Some(reading)], now }).updates == seq![
            Update {
                metric: "room_temperature"@,
                label: "name"@,
                label_value: reading.nickname,
                value: GaugeValue::Temperature(reading.temperature),
            },
            Update {
                metric: "room_humidity"@,
                label: "name"@,
                label_value: reading.nickname,
                value: GaugeValue::Humidity(reading.humidity),
            },
        ],
        output_of(PollStep::Devices { devices: seq![None], now }).updates.len() == 0,
        output_of(PollStep::Devices { devices: Seq::empty(), now }).updates.len() == 0,
        output_of(PollStep::Devices { devices: first, now }).record is None,
{
    lists_of_devices_are_exported_in_turn(first, second);
    a_sensor_sets_its_two_gauges(reading);
}

/// Whatever came before, a task that was not shut down goes on: a poll, failed
/// or not, is followed by a wait, after a summary where one is due, and a wait
/// by the next poll.
pub proof fn polling_goes_on_until_shutdown(started: int, steps: Seq<PollStep>, i: int)
    requires
        is_run(started, steps),
        0 <= i < steps.len(),
    ensures
        steps[i] is Failed ==> state_at(started, steps, i + 1).phase == PollPhase::Sleeping,
        steps[i] is Reported ==> state_at(started, steps, i + 1).phase == PollPhase::Sleeping,
        steps[i] is Slept ==> state_at(started, steps, i + 1).phase == PollPhase::Polling,
        steps[i] is Devices ==> {
            ||| state_at(started, steps, i + 1).phase == PollPhase::Sleeping
            ||| state_at(started, steps, i + 1).phase is Reporting
        },
        state_at(started, steps, i + 1).phase == PollPhase::Stopped <==> steps[i] is Shutdown,
{
}

/// A summary says how many sensors the answer listed.
pub proof fn summaries_count_the_sensors(started: int, steps: Seq<PollStep>, i: int)
    requires
        is_run(started, steps),
        0 <= i < steps.len(),
        is_summarized(started, steps, i),
        steps[i]->devices.len() <= usize::MAX,
    ensures
        state_at(started, steps, i + 1).phase->updated_devices == sensor_count(steps[i]->devices),
{
    lemma_count_within(steps[i]->devices);
}

/// There are no more sensors than devices.
proof fn lemma_count_within(devices: Seq<Option<Reading>>)
    ensures
        sensor_count(devices) <= devices.len(),
    decreases devices.len(),
{
    if devices.len() > 0 {
        lemma_count_within(devices.drop_last());
    }
}

} // verus!
