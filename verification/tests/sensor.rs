//! Polling the hub and setting gauges.

use metrics_exporter_prometheus::PrometheusBuilder;
use tapo_exporter::clock::Uptime;
use tapo_exporter::metrics::{
    describe_metrics, update_devices, update_t31x, upkeep, ChildDevice, GaugeUpdate, GaugeValue,
    T31XReading, UpkeepEvent, IDLE_TIMEOUT, UPKEEP_INTERVAL,
};
use tapo_exporter::record::Level;
use tapo_exporter::sensor::{
    PollAction, PollEvent, PollPhase, Poller, POLL_INTERVAL, POLL_SUCCESS_LOG_INTERVAL,
};

const SECOND: u128 = 1_000_000_000;

fn at(nanos: u128) -> Uptime {
    Uptime {
        secs: (nanos / SECOND) as u64,
        nanos: (nanos % SECOND) as u32,
    }
}

fn reading(nickname: &str, temperature: f32, humidity: u8) -> T31XReading {
    T31XReading {
        nickname: nickname.to_owned(),
        temperature_bits: temperature.to_bits(),
        humidity,
    }
}

fn flat(updates: &[GaugeUpdate]) -> Vec<(&str, &str, &str, GaugeValue)> {
    updates
        .iter()
        .map(|update| {
            (
                update.metric,
                update.label,
                update.label_value.as_str(),
                update.value,
            )
        })
        .collect()
}

fn temperature(celsius: f32) -> GaugeValue {
    GaugeValue::Temperature(celsius.to_bits())
}

#[test]
fn both_gauges_are_described() {
    let list = describe_metrics();
    assert_eq!(list.len(), 2);
    assert_eq!(list[0].metric, "room_temperature");
    assert_eq!(list[0].help, "Temperature in the room");
    assert_eq!(list[1].metric, "room_humidity");
    assert_eq!(list[1].help, "Humidity in the room");
}

#[test]
fn a_reading_sets_both_gauges_under_the_nickname() {
    let updates = update_t31x(&reading("kitchen", 21.5, 48));
    assert_eq!(
        flat(&updates),
        [
            ("room_temperature", "name", "kitchen", temperature(21.5)),
            ("room_humidity", "name", "kitchen", GaugeValue::Humidity(48)),
        ]
    );
}

#[test]
fn other_devices_set_no_gauge() {
    let devices = vec![
        ChildDevice::Other,
        ChildDevice::T31X(reading("kitchen", -3.0, 48)),
        ChildDevice::Other,
        ChildDevice::T31X(reading("attic", 7.25, 90)),
    ];
    let (updates, updated_devices) = update_devices(&devices);
    assert_eq!(updated_devices, 2);
    assert_eq!(
        flat(&updates),
        [
            ("room_temperature", "name", "kitchen", temperature(-3.0)),
            ("room_humidity", "name", "kitchen", GaugeValue::Humidity(48)),
            ("room_temperature", "name", "attic", temperature(7.25)),
            ("room_humidity", "name", "attic", GaugeValue::Humidity(90)),
        ]
    );
    let (updates, updated_devices) = update_devices(&vec![ChildDevice::Other]);
    assert_eq!(updated_devices, 0);
    assert!(updates.is_empty());
}

#[test]
fn the_last_of_sensors_with_one_nickname_is_shown() {
    let devices = vec![
        ChildDevice::T31X(reading("room", 1.0, 10)),
        ChildDevice::T31X(reading("room", 2.0, 20)),
    ];
    let (updates, _) = update_devices(&devices);
    let mut gauges = std::collections::HashMap::new();
    gauges.insert(("room_humidity", "cellar"), GaugeValue::Humidity(70));
    for (metric, _, name, value) in flat(&updates) {
        gauges.insert((metric, name), value);
    }
    assert_eq!(gauges[&("room_temperature", "room")], temperature(2.0));
    assert_eq!(gauges[&("room_humidity", "room")], GaugeValue::Humidity(20));
    assert_eq!(gauges[&("room_humidity", "cellar")], GaugeValue::Humidity(70));
}

#[test]
fn upkeep_goes_on_until_shutdown() {
    let handle = PrometheusBuilder::new().build_recorder().handle();
    assert!(upkeep(&handle, UpkeepEvent::Tick).is_none());
    let record = upkeep(&handle, UpkeepEvent::Shutdown).expect("the task should stop");
    assert_eq!(record.level, Level::Info);
    assert_eq!(record.message, "Prometheus upkeep task stopped");
    assert_eq!(UPKEEP_INTERVAL, 5);
    assert_eq!(IDLE_TIMEOUT, 10);
}

#[test]
fn a_first_success_is_summarized_and_then_waited_on() {
    let mut poller = Poller::new(at(7));
    assert!(matches!(poller.action(), PollAction::Poll));
    let output = poller.step(PollEvent::Devices {
        devices: vec![ChildDevice::T31X(reading("kitchen", 20.0, 40)), ChildDevice::Other],
        now: at(7),
    });
    assert_eq!(output.updates.len(), 2);
    assert!(output.record.is_none());
    match poller.action() {
        PollAction::Report { record, updated_devices } => {
            assert_eq!(record.level, Level::Info);
            assert_eq!(record.message, "updated Tapo metrics");
            assert_eq!(updated_devices, 1);
        }
        other => panic!("{other:?}"),
    }
    let output = poller.step(PollEvent::Reported { now: at(9) });
    assert!(output.updates.is_empty() && output.record.is_none());
    assert!(matches!(poller.action(), PollAction::Sleep { seconds: 5 }));
    assert_eq!(POLL_INTERVAL, 5);
    poller.step(PollEvent::Slept);
    assert!(matches!(poller.action(), PollAction::Poll));
}

#[test]
fn summaries_are_a_minute_apart() {
    assert_eq!(POLL_SUCCESS_LOG_INTERVAL, 60 * SECOND);
    let mut poller = Poller::new(at(0));
    let mut summarized = Vec::new();
    for second in (0..200).step_by(5) {
        let now = second * SECOND;
        poller.step(PollEvent::Devices { devices: vec![], now: at(now) });
        if let PollAction::Report { .. } = poller.action() {
            summarized.push(second);
            poller.step(PollEvent::Reported { now: at(now + 1) });
        }
        poller.step(PollEvent::Slept);
    }
    assert_eq!(summarized, [0, 65, 130, 195]);
}

#[test]
fn a_failed_poll_is_logged_and_waited_on() {
    let mut poller = Poller::new(at(0));
    let output = poller.step(PollEvent::Failed);
    let record = output.record.expect("the failure should be logged");
    assert_eq!(record.level, Level::Error);
    assert_eq!(record.message, "failed to poll Tapo hub");
    assert!(output.updates.is_empty());
    assert!(matches!(poller.action(), PollAction::Sleep { seconds: 5 }));
    poller.step(PollEvent::Slept);
    poller.step(PollEvent::Devices { devices: vec![], now: at(1) });
    assert_eq!(poller.phase, PollPhase::Reporting { updated_devices: 0 });
}

#[test]
fn a_shutdown_stops_polling_for_good() {
    for wait in [false, true] {
        let mut poller = Poller::new(at(0));
        if wait {
            poller.step(PollEvent::Failed);
        }
        let output = poller.step(PollEvent::Shutdown);
        let record = output.record.expect("the end should be logged");
        assert_eq!(record.level, Level::Info);
        assert_eq!(record.message, "Tapo polling task stopped");
        assert!(matches!(poller.action(), PollAction::Stop));
    }
}
