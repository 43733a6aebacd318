//! The gauges that the exporter publishes.

use metrics_exporter_prometheus::PrometheusHandle;
use vstd::prelude::*;
use crate::record::{Level, Record};
use crate::recorder::{perform, run_upkeep};

verus! {

/// How often the metrics recorder is kept up, in seconds.
pub const UPKEEP_INTERVAL: u64 = 5;

/// After how many seconds without a change the recorder drops a counter or a
/// histogram.
pub const IDLE_TIMEOUT: u64 = 10;

/// What a gauge is called, and what it is said to show.
#[derive(Debug)]
pub struct Description {
    pub metric: &'static str,
    pub help: &'static str,
}

/// What a temperature and humidity sensor reports; the temperature by the bits
/// of its floating-point number.
#[derive(Debug)]
pub struct T31XReading {
    pub nickname: String,
    pub temperature_bits: u32,
    pub humidity: u8,
}

/// A device that hangs off the hub.
#[derive(Debug)]
pub enum ChildDevice {
    T31X(T31XReading),
    Other,
}

/// What a gauge is set to; a temperature by the bits of its floating-point
/// number.
#[derive(Debug, Clone, Copy, PartialEq, Eq, Structural)]
pub enum GaugeValue {
    Temperature(u32),
    Humidity(u8),
}

/// A gauge, by its metric and its one label, and what it is set to.
#[derive(Debug)]
pub struct GaugeUpdate {
    pub metric: &'static str,
    pub label: &'static str,
    pub label_value: String,
    pub value: GaugeValue,
}

/// What the task that keeps the recorder up waits for.
#[derive(Debug, Clone, Copy, PartialEq, Eq, Structural)]
pub enum UpkeepEvent {
    Tick,
    Shutdown,
}

/// The texts and numbers of a reading.
pub struct Reading {
    pub nickname: Seq<char>,
    pub temperature: u32,
    pub humidity: u8,
}

/// The texts and the value of an update.
pub struct Update {
    pub metric: Seq<char>,
    pub label: Seq<char>,
    pub label_value: Seq<char>,
    pub value: GaugeValue,
}

impl View for T31XReading {
    type V = Reading;

    open spec fn view(&self) -> Reading {
        Reading {
            nickname: self.nickname@,
            temperature: self.temperature_bits,
            humidity: self.humidity,
        }
    }
}

impl View for ChildDevice {
    type V = Option<Reading>;

    open spec fn view(&self) -> Option<Reading> {
        match self {
            ChildDevice::T31X(reading) => Some(reading@),
            ChildDevice::Other => None,
        }
    }
}

impl View for GaugeUpdate {
    type V = Update;

    open spec fn view(&self) -> Update {
        Update {
            metric: self.metric@,
            label: self.label@,
            label_value: self.label_value@,
            value: self.value,
        }
    }
}

/// The readings of devices; `None` for a device of another kind.
pub open spec fn readings(devices: Seq<ChildDevice>) -> Seq<Option<Reading>> {
    devices.map_values(|device: ChildDevice| device@)
}

/// The texts and values of updates.
pub open spec fn updates(list: Seq<GaugeUpdate>) -> Seq<Update> {
    list.map_values(|update: GaugeUpdate| update@)
}

/// The texts of descriptions.
pub open spec fn descriptions(list: Seq<Description>) -> Seq<(Seq<char>, Seq<char>)> {
    list.map_values(|description: Description| (description.metric@, description.help@))
}

/// The updates that a reading calls for: temperature and humidity, under the
/// device's nickname.
pub open spec fn reading_updates(reading: Reading) -> Seq<Update> {
    seq![
        Update {
            metric: "room_temperature"@,
            label: "name"@,
            label_value: reading.nickname,
            value: GaugeValue::Temperature(reading.temperature),
        },
        Update {
            metric: "room_humidity"@,
            label: "name"@,
            label_value: reading.nickname,
            value: GaugeValue::Humidity(reading.humidity),
        },
    ]
}

/// The updates that a list of devices calls for, in the devices' order.
pub open spec fn device_updates(devices: Seq<Option<Reading>>) -> Seq<Update>
    decreases devices.len(),
{
    if devices.len() == 0 {
        Seq::<Update>::empty()
    } else {
        let before = device_updates(devices.drop_last());
        match devices.last() {
            Some(reading) => before + reading_updates(reading),
            None => before,
        }
    }
}

/// How many of a list of devices are temperature and humidity sensors.
pub open spec fn sensor_count(devices: Seq<Option<Reading>>) -> nat
    decreases devices.len(),
{
    if devices.len() == 0 {
        0
    } else {
        sensor_count(devices.drop_last()) + if devices.last() is Some {
            1nat
        } else {
            0nat
        }
    }
}

/// The gauges and what they are said to show.
pub fn describe_metrics() -> (list: Vec<Description>)
    ensures
        descriptions(list@) == seq![
            ("room_temperature"@, "Temperature in the room"@),
            ("room_humidity"@, "Humidity in the room"@),
        ],
        list@.len() == 2,
        list@[0].metric@ == "room_temperature"@,
        list@[0].help@ == "Temperature in the room"@,
        list@[1].metric@ == "room_humidity"@,
        list@[1].help@ == "Humidity in the room"@,
{
    let mut list: Vec<Description> = Vec::new();
    list.push(Description { metric: "room_temperature", help: "Temperature in the room" });
    list.push(Description { metric: "room_humidity", help: "Humidity in the room" });
    assert(descriptions(list@) =~= seq![
        ("room_temperature"@, "Temperature in the room"@),
        ("room_humidity"@, "Humidity in the room"@),
    ]);
    list
}

/// The updates that a sensor's reading calls for.
pub fn update_t31x(device: &T31XReading) -> (list: Vec<GaugeUpdate>)
    ensures
        updates(list@) == reading_updates(device@),
        list@.len() == 2,
        list@[0].metric@ == "room_temperature"@,
        list@[0].value == GaugeValue::Temperature(device.temperature_bits),
        list@[1].metric@ == "room_humidity"@,
        list@[1].value == GaugeValue::Humidity(device.humidity),
        forall|i: int|
            0 <= i < 2 ==> (#[trigger] list@[i]).label@ == "name"@ && list@[i].label_value@
                == device.nickname@,
{
    let mut list: Vec<GaugeUpdate> = Vec::new();
    list.push(
        GaugeUpdate {
            metric: "room_temperature",
            label: "name",
            label_value: device.nickname.clone(),
            value: GaugeValue::Temperature(device.temperature_bits),
        },
    );
    list.push(
        GaugeUpdate {
            metric: "room_humidity",
            label: "name",
            label_value: device.nickname.clone(),
            value: GaugeValue::Humidity(device.humidity),
        },
    );
    assert(updates(list@) =~= reading_updates(device@));
    list
}

/// The updates that a list of devices calls for, and how many of them are
/// temperature and humidity sensors.
pub fn update_devices(devices: &Vec<ChildDevice>) -> (result: (Vec<GaugeUpdate>, usize))
    ensures
        updates(result.0@) == device_updates(readings(devices@)),
        result.1 == sensor_count(readings(devices@)),
        result.0@.len() == 2 * result.1,
        forall|k: int|
            0 <= k < devices@.len() && (#[trigger] devices@[k]) is T31X ==> {
                let at = 2 * sensor_count(readings(devices@.take(k))) as int;
                let reading = devices@[k]->T31X_0;
                &&& at + 1 < result.0@.len()
                &&& result.0@[at].metric@ == "room_temperature"@
                &&& result.0@[at].label@ == "name"@
                &&& result.0@[at].label_value@ == reading.nickname@
                &&& result.0@[at].value == GaugeValue::Temperature(reading.temperature_bits)
                &&& result.0@[at + 1].metric@ == "room_humidity"@
                &&& result.0@[at + 1].label@ == "name"@
                &&& result.0@[at + 1].label_value@ == reading.nickname@
                &&& result.0@[at + 1].value == GaugeValue::Humidity(reading.humidity)
            },
{
    let ghost all = readings(devices@);
    let mut list: Vec<GaugeUpdate> = Vec::new();
    let mut count: usize = 0;
    let mut i: usize = 0;
    assert(updates(list@) =~= device_updates(all.take(0)));
    while i < devices.len()
        invariant
            all == readings(devices@),
            i <= devices@.len(),
            count <= i,
            updates(list@) == device_updates(all.take(i as int)),
            count == sensor_count(all.take(i as int)),
            list@.len() == 2 * count,
            forall|k: int|
                0 <= k < i && (#[trigger] devices@[k]) is T31X ==> {
                    let at = 2 * sensor_count(readings(devices@.take(k))) as int;
                    let reading = devices@[k]->T31X_0;
                    &&& at + 1 < list@.len()
                    &&& list@[at].metric@ == "room_temperature"@
                    &&& list@[at].label@ == "name"@
                    &&& list@[at].label_value@ == reading.nickname@
                    &&& list@[at].value == GaugeValue::Temperature(reading.temperature_bits)
                    &&& list@[at + 1].metric@ == "room_humidity"@
                    &&& list@[at + 1].label@ == "name"@
                    &&& list@[at + 1].label_value@ == reading.nickname@
                    &&& list@[at + 1].value == GaugeValue::Humidity(reading.humidity)
                },
        decreases devices@.len() - i,
    {
        assert(all.take(i + 1).drop_last() == all.take(i as int));
        assert(all.take(i + 1).last() == devices@[i as int]@);
        assert(readings(devices@.take(i as int)) == all.take(i as int));
        if let ChildDevice::T31X(device) = &devices[i] {
            let ghost before = list@;
            let mut more = update_t31x(device);
            let ghost added = more@;
            list.append(&mut more);
            assert(updates(list@) =~= updates(before) + updates(added));
            count = count + 1;
        }
        i = i + 1;
    }
    assert(all.take(all.len() as int) == all);
    (list, count)
}

/// What is logged of an event of the task that keeps the recorder up. The task
/// ends where something is.
pub open spec fn upkeep_log(event: UpkeepEvent) -> Option<(Level, Seq<char>)> {
    match event {
        UpkeepEvent::Tick => None,
        UpkeepEvent::Shutdown => Some((Level::Info, "Prometheus upkeep task stopped"@)),
    }
}

/// Keeps the recorder up when a tick comes; on shutdown, says that the task
/// stops.
pub fn upkeep(handle: &PrometheusHandle, event: UpkeepEvent) -> (stopped: Option<Record>)
    ensures
        match stopped {
            Some(record) => Some(record@),
            None => None,
        } == upkeep_log(event),
        event == UpkeepEvent::Tick ==> stopped is None,
        event == UpkeepEvent::Shutdown ==> (stopped matches Some(record) && record.level
            == Level::Info && record.message@ == "Prometheus upkeep task stopped"@),
        event == UpkeepEvent::Tick ==> call_ensures(run_upkeep, (handle,), ()),
{
    match event {
        UpkeepEvent::Tick => {
            perform(run_upkeep, handle);
            None
        },
        UpkeepEvent::Shutdown => Some(
            Record { level: Level::Info, message: "Prometheus upkeep task stopped" },
        ),
    }
}

/// Whether events can be those of one task that keeps the recorder up: none
/// follows the end.
pub open spec fn is_upkeep(events: Seq<UpkeepEvent>) -> bool {
    forall|i: int| 0 <= i < events.len() - 1 ==> upkeep_log(#[trigger] events[i]) is None
}

/// The task that keeps the recorder up does so at every event until a shutdown,
/// which is its last event and the only one that is logged.
pub proof fn upkeep_goes_on_until_shutdown(events: Seq<UpkeepEvent>, i: int)
    requires
        is_upkeep(events),
        0 <= i < events.len(),
    ensures
        i < events.len() - 1 ==> events[i] == UpkeepEvent::Tick,
        events[i] == UpkeepEvent::Shutdown <==> upkeep_log(events[i]) is Some,
        events[i] == UpkeepEvent::Shutdown ==> i == events.len() - 1,
        events[i] == UpkeepEvent::Shutdown ==> upkeep_log(events[i]) == Some(
            (Level::Info, "Prometheus upkeep task stopped"@),
        ),
{
}

/// The updates of two lists of devices, one after the other, are those of the
/// first and then those of the second, and as many sensors are counted.
pub proof fn lists_of_devices_are_exported_in_turn(
    first: Seq<Option<Reading>>,
    second: Seq<Option<Reading>>,
)
    ensures
        device_updates(first + second) == device_updates(first) + device_updates(second),
        sensor_count(first + second) == sensor_count(first) + sensor_count(second),
    decreases second.len(),
{
    if second.len() == 0 {
        assert(first + second == first);
        assert(device_updates(first) + device_updates(second) == device_updates(first));
    } else {
        assert((first + second).drop_last() == first + second.drop_last());
        assert((first + second).last() == second.last());
        lists_of_devices_are_exported_in_turn(first, second.drop_last());
        if let Some(reading) = second.last() {
            assert(device_updates(first) + (device_updates(second.drop_last()) + reading_updates(
                reading,
            )) == device_updates(first) + device_updates(second.drop_last()) + reading_updates(
                reading,
            ));
        }
    }
}

/// A sensor on its own sets its temperature and its humidity under its nickname
/// as `name`, and counts as one; another device sets nothing and does not count.
pub proof fn a_sensor_sets_its_two_gauges(reading: Reading)
    ensures
        device_updates(seq![Some(reading)]) == seq![
            Update {
                metric: "room_temperature"@,
                label: "name"@,
                label_value: reading.nickname,
                value: GaugeValue::Temperature(reading.temperature),
            },
            Update {
                metric: "room_humidity"@,
                label: "name"@,
                label_value: reading.nickname,
                value: GaugeValue::Humidity(reading.humidity),
            },
        ],
        device_updates(seq![None::<Reading>]) == Seq::<Update>::empty(),
        device_updates(Seq::empty()) == Seq::<Update>::empty(),
        sensor_count(seq![Some(reading)]) == 1,
        sensor_count(seq![None::<Reading>]) == 0,
        sensor_count(Seq::empty()) == 0,
{
    let none = Seq::<Option<Reading>>::empty();
    assert(seq![Some(reading)].drop_last() == none);
    assert(seq![None::<Reading>].drop_last() == none);
    reveal_with_fuel(device_updates, 2);
    reveal_with_fuel(sensor_count, 2);
    assert(Seq::<Update>::empty() + reading_updates(reading) == reading_updates(reading));
}

/// What gauges show, by metric and name.
pub type Gauges = Map<(Seq<char>, Seq<char>), GaugeValue>;

/// What gauges show after updates, one after the other.
pub open spec fn updated(gauges: Gauges, list: Seq<Update>) -> Gauges
    decreases list.len(),
{
    if list.len() == 0 {
        gauges
    } else {
        let last = list.last();
        updated(gauges, list.drop_last()).insert((last.metric, last.label_value), last.value)
    }
}

/// Updating with one list and then another is updating with both.
proof fn lemma_updated_add(gauges: Gauges, first: Seq<Update>, second: Seq<Update>)
    ensures
        updated(gauges, first + second) == updated(updated(gauges, first), second),
    decreases second.len(),
{
    if second.len() == 0 {
        assert(first + second == first);
    } else {
        assert((first + second).drop_last() == first + second.drop_last());
        lemma_updated_add(gauges, first, second.drop_last());
    }
}

/// What a reading does to the gauges.
proof fn lemma_reading(gauges: Gauges, reading: Reading)
    ensures
        updated(gauges, reading_updates(reading)) == gauges.insert(
            ("room_temperature"@, reading.nickname),
            GaugeValue::Temperature(reading.temperature),
        ).insert(("room_humidity"@, reading.nickname), GaugeValue::Humidity(reading.humidity)),
        "room_temperature"@ != "room_humidity"@,
{
    reveal_strlit("room_temperature");
    reveal_strlit("room_humidity");
    let list = reading_updates(reading);
    assert(list.drop_last().drop_last() == Seq::<Update>::empty());
    reveal_with_fuel(updated, 3);
    assert("room_temperature"@.len() != "room_humidity"@.len());
}

/// After a poll, the two gauges named after a sensor show its reading; where
/// sensors share a nickname, that of the last of them.
pub proof fn gauges_show_the_last_reading(gauges: Gauges, devices: Seq<Option<Reading>>, i: int)
    requires
        0 <= i < devices.len(),
        devices[i] is Some,
        forall|k: int|
            i < k < devices.len() && (#[trigger] devices[k]) is Some ==> devices[k]->0.nickname
                != devices[i]->0.nickname,
    ensures
        ({
            let after = updated(gauges, device_updates(devices));
            let reading = devices[i]->0;
            &&& after.contains_pair(
                ("room_temperature"@, reading.nickname),
                GaugeValue::Temperature(reading.temperature),
            )
            &&& after.contains_pair(
                ("room_humidity"@, reading.nickname),
                GaugeValue::Humidity(reading.humidity),
            )
        }),
    decreases devices.len(),
{
    let before = devices.drop_last();
    if let Some(reading) = devices.last() {
        lemma_updated_add(gauges, device_updates(before), reading_updates(reading));
        lemma_reading(updated(gauges, device_updates(before)), reading);
    }
    if i < devices.len() - 1 {
        assert forall|k: int|
            i < k < before.len() && (#[trigger] before[k]) is Some implies before[k]->0.nickname
            != before[i]->0.nickname by {
            assert(before[k] == devices[k]);
        }
        assert(before[i] == devices[i]);
        assert(devices.last() is Some ==> devices[devices.len() - 1]->0.nickname
            != devices[i]->0.nickname);
        gauges_show_the_last_reading(gauges, before, i);
    }
}

/// A poll leaves every gauge alone that is not named after a sensor of the
/// poll, or that shows neither temperature nor humidity.
pub proof fn other_gauges_are_kept(
    gauges: Gauges,
    devices: Seq<Option<Reading>>,
    metric: Seq<char>,
    name: Seq<char>,
)
    requires
        (metric != "room_temperature"@ && metric != "room_humidity"@) || forall|k: int|
            0 <= k < devices.len() && (#[trigger] devices[k]) is Some ==> devices[k]->0.nickname
                != name,
    ensures
        ({
            let after = updated(gauges, device_updates(devices));
            &&& after.contains_key((metric, name)) == gauges.contains_key((metric, name))
            &&& gauges.contains_key((metric, name)) ==> after[(metric, name)] == gauges[(
                metric,
                name,
            )]
        }),
    decreases devices.len(),
{
    if devices.len() > 0 {
        let before = devices.drop_last();
        assert forall|k: int| 0 <= k < before.len() implies #[trigger] before[k] == devices[k] by {}
        other_gauges_are_kept(gauges, before, metric, name);
        if let Some(reading) = devices.last() {
            lemma_updated_add(gauges, device_updates(before), reading_updates(reading));
            lemma_reading(updated(gauges, device_updates(before)), reading);
            assert(devices[devices.len() - 1] is Some);
        }
    }
}

} // verus!
