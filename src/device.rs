//! Device identities and per-device state.

use vstd::prelude::*;
use crate::json::{
    as_reading, as_text, as_unsigned, is_object, member, member2, reading_of, text_of, unsigned_of,
    Json, JsonNumber,
};
use crate::number::{
    exceeds_one, micros_of_number, number_exceeds_one, number_micros, parse_reading, reading_value,
};
use crate::text::chars_of;

verus! {

/// A device speaking the JSON telemetry protocol, keyed by hostname.
#[derive(Debug, Clone, PartialEq, Eq, Hash)]
pub struct Device {
    pub hostname: String,
}

impl Device {
    /// The topic `<prefix>/<hostname>/<command>`.
    pub fn get_topic(&self, prefix: &str, command: &str) -> (r: String)
        ensures
            r@ == prefix@ + seq!['/'] + self.hostname@ + seq!['/'] + command@,
    {
        let mut r = String::from_str(prefix);
        crate::text::push_char(&mut r, '/');
        r.append(self.hostname.as_str());
        crate::text::push_char(&mut r, '/');
        r.append(command);
        r
    }
}

/// Which smart-meter reading a message carries.
#[derive(Debug, Clone, Copy, PartialEq, Eq, Structural)]
pub enum DsmrMessageType {
    Water,
    Gas,
    Energy1,
    Energy2,
    Power,
}


/// A field that an update may carry: the new value when it does, the old
/// one otherwise.
pub open spec fn merged<T>(new: Option<T>, old: T) -> T {
    match new {
        Some(v) => v,
        None => old,
    }
}

pub open spec fn merged_u16(new: Option<int>, old: u16) -> u16 {
    match new {
        Some(v) => v as u16,
        None => old,
    }
}

pub open spec fn merged_reading(new: Option<int>, old: Option<i64>) -> Option<i64> {
    match new {
        Some(v) => Some(v as i64),
        None => old,
    }
}

/// Counts of a particulate-matter sensor.
#[derive(Debug, Clone, Copy, Default, PartialEq, Eq, Structural)]
pub struct PMSState {
    pub cf1: u16,
    pub cf2_5: u16,
    pub cf10: u16,
    pub pm1: u16,
    pub pm2_5: u16,
    pub pm10: u16,
    pub pb0_3: u16,
    pub pb0_5: u16,
    pub pb1: u16,
    pub pb2_5: u16,
    pub pb5: u16,
    pub pb10: u16,
}

pub open spec fn pms_count(json: Json, key: Seq<char>) -> Option<int> {
    as_unsigned(member(json, key), 0xffff)
}

/// The counts of `old` with those that `json` carries.
pub open spec fn pms_merged(old: PMSState, json: Json) -> PMSState {
    PMSState {
        cf1: merged_u16(pms_count(json, "CF1"@), old.cf1),
        cf2_5: merged_u16(pms_count(json, "CF2.5"@), old.cf2_5),
        cf10: merged_u16(pms_count(json, "CF10"@), old.cf10),
        pm1: merged_u16(pms_count(json, "PM1"@), old.pm1),
        pm2_5: merged_u16(pms_count(json, "PM2.5"@), old.pm2_5),
        pm10: merged_u16(pms_count(json, "PM10"@), old.pm10),
        pb0_3: merged_u16(pms_count(json, "PB0.3"@), old.pb0_3),
        pb0_5: merged_u16(pms_count(json, "PB0.5"@), old.pb0_5),
        pb1: merged_u16(pms_count(json, "PB1"@), old.pb1),
        pb2_5: merged_u16(pms_count(json, "PB2.5"@), old.pb2_5),
        pb5: merged_u16(pms_count(json, "PB5"@), old.pb5),
        pb10: merged_u16(pms_count(json, "PB10"@), old.pb10),
    }
}

fn pms_field(json: &Json, key: &str, old: u16) -> (r: u16)
    ensures
        r == merged_u16(pms_count(*json, key@), old),
{
    match unsigned_of(json.get(key), 0xffff) {
        Some(v) => v as u16,
        None => old,
    }
}

impl PMSState {
    /// Takes each count that `json` carries as a whole number that fits.
    pub fn update(&mut self, json: &Json)
        ensures
            *final(self) == pms_merged(*old(self), *json),
    {
        self.cf1 = pms_field(json, "CF1", self.cf1);
        self.cf2_5 = pms_field(json, "CF2.5", self.cf2_5);
        self.cf10 = pms_field(json, "CF10", self.cf10);
        self.pm1 = pms_field(json, "PM1", self.pm1);
        self.pm2_5 = pms_field(json, "PM2.5", self.pm2_5);
        self.pm10 = pms_field(json, "PM10", self.pm10);
        self.pb0_3 = pms_field(json, "PB0.3", self.pb0_3);
        self.pb0_5 = pms_field(json, "PB0.5", self.pb0_5);
        self.pb1 = pms_field(json, "PB1", self.pb1);
        self.pb2_5 = pms_field(json, "PB2.5", self.pb2_5);
        self.pb5 = pms_field(json, "PB5", self.pb5);
        self.pb10 = pms_field(json, "PB10", self.pb10);
    }
}

/// State of a switch or meter speaking the JSON telemetry protocol.
/// Readings are in millionths; `last_seen` is in the caller's clock.
#[derive(Debug)]
pub struct DeviceState {
    pub state: Option<bool>,
    pub name: String,
    pub power_watts: Option<i64>,
    pub power_yesterday: Option<i64>,
    pub power_today: Option<i64>,
    pub power_total: Option<i64>,
    pub power_total_low: Option<i64>,
    pub power_total_high: Option<i64>,
    pub gas_total: Option<i64>,
    pub co2: Option<i64>,
    pub pms_state: Option<PMSState>,
    pub last_seen: u64,
    pub firmware: String,
    pub version: i64,
}

/// What a `DeviceState` holds, with text as character sequences.
pub struct DeviceView {
    pub state: Option<bool>,
    pub name: Seq<char>,
    pub power_watts: Option<i64>,
    pub power_yesterday: Option<i64>,
    pub power_today: Option<i64>,
    pub power_total: Option<i64>,
    pub power_total_low: Option<i64>,
    pub power_total_high: Option<i64>,
    pub gas_total: Option<i64>,
    pub co2: Option<i64>,
    pub pms_state: Option<PMSState>,
    pub last_seen: u64,
    pub firmware: Seq<char>,
    pub version: i64,
}

impl View for DeviceState {
    type V = DeviceView;

    open spec fn view(&self) -> DeviceView {
        DeviceView {
            state: self.state,
            name: self.name@,
            power_watts: self.power_watts,
            power_yesterday: self.power_yesterday,
            power_today: self.power_today,
            power_total: self.power_total,
            power_total_low: self.power_total_low,
            power_total_high: self.power_total_high,
            gas_total: self.gas_total,
            co2: self.co2,
            pms_state: self.pms_state,
            last_seen: self.last_seen,
            firmware: self.firmware@,
            version: self.version,
        }
    }
}

/// A record that nothing has been learned of yet, seen at `now`.
pub open spec fn fresh_device(now: u64) -> DeviceView {
    DeviceView {
        state: None,
        name: Seq::empty(),
        power_watts: None,
        power_yesterday: None,
        power_today: None,
        power_total: None,
        power_total_low: None,
        power_total_high: None,
        gas_total: None,
        co2: None,
        pms_state: None,
        last_seen: now,
        firmware: Seq::empty(),
        version: 0,
    }
}

/// A record after merging a telemetry document at `now`: each field that
/// the document carries in the right type replaces the stored one.
pub open spec fn tasmota_merge(old: DeviceView, json: Json, now: u64) -> DeviceView {
    DeviceView {
        state: merged(
            match power_state(json) {
                Some(b) => Some(Some(b)),
                None => None,
            },
            old.state,
        ),
        name: merged(name_text(json, "DeviceName"@), old.name),
        power_watts: merged_reading(
            as_reading(member2(json, "OBIS"@, "Power"@)),
            merged_reading(as_reading(member2(json, "ENERGY"@, "Power"@)), old.power_watts),
        ),
        power_yesterday: merged_reading(
            as_reading(member2(json, "ENERGY"@, "Yesterday"@)),
            old.power_yesterday,
        ),
        power_today: merged_reading(as_reading(member2(json, "ENERGY"@, "Today"@)), old.power_today),
        power_total: merged_reading(as_reading(member2(json, "OBIS"@, "Total"@)), old.power_total),
        power_total_low: merged_reading(
            as_reading(member2(json, "OBIS"@, "Total_low"@)),
            old.power_total_low,
        ),
        power_total_high: merged_reading(
            as_reading(member2(json, "OBIS"@, "Total_high"@)),
            old.power_total_high,
        ),
        gas_total: merged_reading(as_reading(member2(json, "OBIS"@, "Gas_total"@)), old.gas_total),
        co2: merged_reading(co2_reading(json), old.co2),
        pms_state: if is_object(member(json, "PMS5003"@)) {
            Some(pms_merged(merged(old.pms_state, PMSState::default_spec()), member(json, "PMS5003"@)->0))
        } else {
            old.pms_state
        },
        last_seen: now,
        firmware: merged(as_text(member2(json, "StatusFWR"@, "Version"@)), old.firmware),
        version: match as_text(member2(json, "StatusFWR"@, "Version"@)) {
            Some(fw) => merged_reading(version_of(fw), Some(old.version))->0,
            None => old.version,
        },
    }
}

/// The non-empty text at `key`.
pub open spec fn name_text(json: Json, key: Seq<char>) -> Option<Seq<char>> {
    match as_text(member(json, key)) {
        Some(t) => if t.len() > 0 {
            Some(t)
        } else {
            None
        },
        None => None,
    }
}

/// A carbon dioxide reading, taken only when the number is above one part
/// per million.
pub open spec fn co2_reading(json: Json) -> Option<int> {
    match member2(json, "MHZ19B"@, "CarbonDioxide"@) {
        Some(Json::Number(n)) => if exceeds_one(n.positive, n.mantissa as int, n.exponent as int) {
            number_micros(n.positive, n.mantissa as int, n.exponent as int)
        } else {
            None
        },
        _ => None,
    }
}

/// Position of the last `c` in `s`, or -1.
pub open spec fn rfind_char(s: Seq<char>, c: char) -> int
    decreases s.len(),
{
    if s.len() == 0 {
        -1
    } else if s.last() == c {
        s.len() - 1
    } else {
        rfind_char(s.drop_last(), c)
    }
}

/// The numeric version of a firmware string: what precedes its last `.`.
pub open spec fn version_of(fw: Seq<char>) -> Option<int> {
    let i = rfind_char(fw, '.');
    if i >= 0 {
        reading_value(fw.take(i))
    } else {
        None
    }
}

proof fn lemma_rfind_char(s: Seq<char>, c: char)
    ensures
        -1 <= rfind_char(s, c) < s.len(),
        rfind_char(s, c) >= 0 ==> s[rfind_char(s, c)] == c,
        forall|j: int| rfind_char(s, c) < j < s.len() ==> s[j] != c,
    decreases s.len(),
{
    if s.len() > 0 && s.last() != c {
        lemma_rfind_char(s.drop_last(), c);
        assert forall|j: int| rfind_char(s, c) < j < s.len() implies s[j] != c by {
            if j < s.len() - 1 {
                assert(s[j] == s.drop_last()[j]);
            }
        }
    }
}

fn version_from(fw: &String) -> (r: Option<i64>)
    ensures
        r is Some <==> version_of(fw@) is Some,
        r is Some ==> r->0 as int == version_of(fw@)->0,
{
    let v = chars_of(fw.as_str());
    let mut i: usize = v.len();
    proof {
        lemma_rfind_char(v@, '.');
    }
    while i > 0 && v[i - 1] != '.'
        invariant
            i <= v.len(),
            forall|j: int| i <= j < v.len() ==> v@[j] != '.',
        decreases i,
    {
        i = i - 1;
    }
    proof {
        let f = rfind_char(v@, '.');
        if i > 0 {
            if f < i - 1 {
                assert(v@[i - 1] == '.');
            } else if f > i - 1 {
                assert(v@[f] == '.');
            }
        } else if f >= 0 {
            assert(v@[f] == '.');
        }
    }
    if i == 0 {
        return None;
    }
    let head = &v.as_slice()[0..i - 1];
    assert(head@ == v@.take(i - 1));
    parse_reading(head)
}

/// What `json` says of a switch's power state: whether its `POWER` text is
/// `ON`, when that text is not empty.
pub open spec fn power_state(json: Json) -> Option<bool> {
    match name_text(json, "POWER"@) {
        Some(t) => Some(t == "ON"@),
        None => None,
    }
}

impl DeviceState {
    /// A record that nothing has been learned of yet, seen at `now`.
    pub fn new(now: u64) -> (r: DeviceState)
        ensures
            r@ == fresh_device(now),
    {
        DeviceState {
            state: None,
            name: String::new(),
            power_watts: None,
            power_yesterday: None,
            power_today: None,
            power_total: None,
            power_total_low: None,
            power_total_high: None,
            gas_total: None,
            co2: None,
            pms_state: None,
            last_seen: now,
            firmware: String::new(),
            version: 0,
        }
    }

    /// Merges a telemetry document into the record: each field that the
    /// document carries in the right type replaces the stored one, every
    /// other field is kept, and the record is marked seen at `now`.
    pub fn update(&mut self, json: &Json, now: u64)
        ensures
            final(self)@ == tasmota_merge(old(self)@, *json, now),
    {
        self.last_seen = now;
        self.name = text_field(json, self.name.clone());
        self.state = switch_field(json, self.state);
        self.power_watts = reading_field(json, "ENERGY", "Power", self.power_watts);
        self.power_yesterday = reading_field(json, "ENERGY", "Yesterday", self.power_yesterday);
        self.power_today = reading_field(json, "ENERGY", "Today", self.power_today);
        self.co2 = co2_field(json, self.co2);
        self.power_watts = reading_field(json, "OBIS", "Power", self.power_watts);
        self.power_total = reading_field(json, "OBIS", "Total", self.power_total);
        self.power_total_high = reading_field(json, "OBIS", "Total_high", self.power_total_high);
        self.power_total_low = reading_field(json, "OBIS", "Total_low", self.power_total_low);
        self.gas_total = reading_field(json, "OBIS", "Gas_total", self.gas_total);
        let (firmware, version) = firmware_fields(json, self.firmware.clone(), self.version);
        self.firmware = firmware;
        self.version = version;
        self.pms_state = pms_field_of(json, self.pms_state);
    }
}

fn text_field(json: &Json, old: String) -> (r: String)
    ensures
        r@ == merged(name_text(*json, "DeviceName"@), old@),
{
    if let Some(name) = text_of(json.get("DeviceName")) {
        if !name.as_str().is_empty() {
            return name.clone();
        }
    }
    old
}

fn switch_field(json: &Json, old: Option<bool>) -> (r: Option<bool>)
    ensures
        r == merged(
            match power_state(*json) {
                Some(b) => Some(Some(b)),
                None => None,
            },
            old,
        ),
{
    if let Some(power) = text_of(json.get("POWER")) {
        if !power.as_str().is_empty() {
            return Some(crate::text::same_text(chars_of(power.as_str()).as_slice(), "ON"));
        }
    }
    old
}

fn reading_field(json: &Json, k1: &str, k2: &str, old: Option<i64>) -> (r: Option<i64>)
    ensures
        r == merged_reading(as_reading(member2(*json, k1@, k2@)), old),
{
    match reading_of(json.get2(k1, k2)) {
        Some(v) => Some(v),
        None => old,
    }
}

fn co2_field(json: &Json, old: Option<i64>) -> (r: Option<i64>)
    ensures
        r == merged_reading(co2_reading(*json), old),
{
    match json.get2("MHZ19B", "CarbonDioxide") {
        Some(Json::Number(n)) => if number_exceeds_one(n.positive, n.mantissa, n.exponent) {
            match micros_of_number(n.positive, n.mantissa, n.exponent) {
                Some(v) => Some(v),
                None => old,
            }
        } else {
            old
        },
        _ => old,
    }
}

fn firmware_fields(json: &Json, old_fw: String, old_version: i64) -> (r: (String, i64))
    ensures
        r.0@ == merged(as_text(member2(*json, "StatusFWR"@, "Version"@)), old_fw@),
        r.1 == match as_text(member2(*json, "StatusFWR"@, "Version"@)) {
            Some(fw) => merged_reading(version_of(fw), Some(old_version))->0,
            None => old_version,
        },
{
    match text_of(json.get2("StatusFWR", "Version")) {
        Some(fw) => {
            let version = match version_from(fw) {
                Some(v) => v,
                None => old_version,
            };
            (fw.clone(), version)
        },
        None => (old_fw, old_version),
    }
}

fn pms_field_of(json: &Json, old: Option<PMSState>) -> (r: Option<PMSState>)
    ensures
        r == if is_object(member(*json, "PMS5003"@)) {
            Some(pms_merged(merged(old, PMSState::default_spec()), member(*json, "PMS5003"@)->0))
        } else {
            old
        },
{
    if let Some(pms_json) = json.get("PMS5003") {
        if let Json::Object(_) = pms_json {
            let mut pms = match old {
                Some(p) => p,
                None => PMSState::new(),
            };
            pms.update(pms_json);
            return Some(pms);
        }
    }
    old
}

impl PMSState {
    pub open spec fn default_spec() -> PMSState {
        PMSState {
            cf1: 0,
            cf2_5: 0,
            cf10: 0,
            pm1: 0,
            pm2_5: 0,
            pm10: 0,
            pb0_3: 0,
            pb0_5: 0,
            pb1: 0,
            pb2_5: 0,
            pb5: 0,
            pb10: 0,
        }
    }

    /// All counts zero.
    pub fn new() -> (r: PMSState)
        ensures
            r == PMSState::default_spec(),
    {
        PMSState {
            cf1: 0,
            cf2_5: 0,
            cf10: 0,
            pm1: 0,
            pm2_5: 0,
            pm10: 0,
            pb0_3: 0,
            pb0_5: 0,
            pb1: 0,
            pb2_5: 0,
            pb5: 0,
            pb10: 0,
        }
    }
}

/// State of a Bluetooth temperature sensor. Readings are in millionths;
/// a reading never received stays zero.
#[derive(Debug, Clone, Copy, PartialEq, Eq, Structural)]
pub struct MiTempState {
    pub temperature: i64,
    pub humidity: i64,
    pub dew_point: i64,
    pub battery: u8,
    pub last_seen: u64,
}

pub open spec fn merged_int(new: Option<int>, old: i64) -> i64 {
    match new {
        Some(v) => v as i64,
        None => old,
    }
}

/// A sensor that nothing has been learned of yet, seen at `now`.
pub open spec fn fresh_mi_temp(now: u64) -> MiTempState {
    MiTempState { temperature: 0, humidity: 0, dew_point: 0, battery: 0, last_seen: now }
}

/// A sensor after taking the readings of `json` at `now`.
pub open spec fn mi_temp_merge(old: MiTempState, json: Json, now: u64) -> MiTempState {
    MiTempState {
        temperature: merged_int(as_reading(member(json, "Temperature"@)), old.temperature),
        humidity: merged_int(as_reading(member(json, "Humidity"@)), old.humidity),
        dew_point: merged_int(as_reading(member(json, "DewPoint"@)), old.dew_point),
        battery: match as_unsigned(member(json, "Battery"@), 255) {
            Some(b) => b as u8,
            None => old.battery,
        },
        last_seen: now,
    }
}

impl MiTempState {
    /// A sensor that nothing has been learned of yet, seen at `now`.
    pub fn new(now: u64) -> (r: MiTempState)
        ensures
            r == fresh_mi_temp(now),
    {
        MiTempState { temperature: 0, humidity: 0, dew_point: 0, battery: 0, last_seen: now }
    }

    /// Takes each reading that `json` carries and marks the sensor seen at
    /// `now`; the battery level is taken only as a whole number up to 255.
    pub fn update(&mut self, json: &Json, now: u64)
        ensures
            *final(self) == mi_temp_merge(*old(self), *json, now),
    {
        self.last_seen = now;
        if let Some(v) = reading_of(json.get("Temperature")) {
            self.temperature = v;
        }
        if let Some(v) = reading_of(json.get("Humidity")) {
            self.humidity = v;
        }
        if let Some(v) = unsigned_of(json.get("Battery"), 255) {
            self.battery = v as u8;
        }
        if let Some(v) = reading_of(json.get("DewPoint")) {
            self.dew_point = v;
        }
    }
}


/// State of a 433 MHz temperature sensor. The temperature is in
/// millionths of a degree Celsius.
#[derive(Debug, Clone, Copy, Default, PartialEq, Eq, Structural)]
pub struct TempState {
    pub temperature: i64,
    pub humidity: u8,
}

/// State of a smart-meter gateway. Power is in millionths of a kW, the
/// totals in millionths of a kWh or m3.
#[derive(Debug, Clone, Copy, PartialEq, Eq, Structural)]
pub struct DsmrState {
    pub power: Option<i64>,
    pub power_total_tariff_1: Option<i64>,
    pub power_total_tariff_2: Option<i64>,
    pub gas_total: Option<i64>,
    pub water_total: Option<i64>,
    pub last_seen: u64,
}

/// A gateway that nothing has been learned of yet, seen at `now`.
pub open spec fn fresh_dsmr(now: u64) -> DsmrState {
    DsmrState {
        power: None,
        power_total_tariff_1: None,
        power_total_tariff_2: None,
        gas_total: None,
        water_total: None,
        last_seen: now,
    }
}

/// A gateway after a reading `v` of kind `ty` at `now`.
pub open spec fn dsmr_merge(old: DsmrState, ty: DsmrMessageType, v: i64, now: u64) -> DsmrState {
    DsmrState {
        water_total: if ty == DsmrMessageType::Water {
            Some(v)
        } else {
            old.water_total
        },
        gas_total: if ty == DsmrMessageType::Gas {
            Some(v)
        } else {
            old.gas_total
        },
        power_total_tariff_1: if ty == DsmrMessageType::Energy1 {
            Some(v)
        } else {
            old.power_total_tariff_1
        },
        power_total_tariff_2: if ty == DsmrMessageType::Energy2 {
            Some(v)
        } else {
            old.power_total_tariff_2
        },
        power: if ty == DsmrMessageType::Power {
            Some(v)
        } else {
            old.power
        },
        last_seen: now,
    }
}

impl DsmrState {
    /// A gateway that nothing has been learned of yet, seen at `now`.
    pub fn new(now: u64) -> (r: DsmrState)
        ensures
            r == fresh_dsmr(now),
    {
        DsmrState {
            power: None,
            power_total_tariff_1: None,
            power_total_tariff_2: None,
            gas_total: None,
            water_total: None,
            last_seen: now,
        }
    }

    /// Stores the reading `v` of kind `ty` and marks the gateway seen.
    pub fn update(&mut self, ty: DsmrMessageType, v: i64, now: u64)
        ensures
            *final(self) == dsmr_merge(*old(self), ty, v, now),
    {
        match ty {
            DsmrMessageType::Water => self.water_total = Some(v),
            DsmrMessageType::Gas => self.gas_total = Some(v),
            DsmrMessageType::Energy1 => self.power_total_tariff_1 = Some(v),
            DsmrMessageType::Energy2 => self.power_total_tariff_2 = Some(v),
            DsmrMessageType::Power => self.power = Some(v),
        }
        self.last_seen = now;
    }
}


/// Sparse merge: a field of a switch's record changes only when the
/// document carries the member it is read from.
pub proof fn lemma_tasmota_sparse_merge(old: DeviceView, json: Json, now: u64)
    ensures
        ({
            let n = tasmota_merge(old, json, now);
            &&& member(json, "DeviceName"@) is None ==> n.name == old.name
            &&& member(json, "POWER"@) is None ==> n.state == old.state
            &&& member(json, "ENERGY"@) is None && member(json, "OBIS"@) is None ==> n.power_watts
                == old.power_watts
            &&& member(json, "ENERGY"@) is None ==> n.power_yesterday == old.power_yesterday
                && n.power_today == old.power_today
            &&& member(json, "OBIS"@) is None ==> n.power_total == old.power_total
                && n.power_total_low == old.power_total_low && n.power_total_high
                == old.power_total_high && n.gas_total == old.gas_total
            &&& member(json, "MHZ19B"@) is None ==> n.co2 == old.co2
            &&& member(json, "StatusFWR"@) is None ==> n.firmware == old.firmware && n.version
                == old.version
            &&& member(json, "PMS5003"@) is None ==> n.pms_state == old.pms_state
        }),
{
}

/// Sparse merge: a reading of a Bluetooth sensor changes only when the
/// document carries it.
pub proof fn lemma_mi_temp_sparse_merge(old: MiTempState, json: Json, now: u64)
    ensures
        ({
            let n = mi_temp_merge(old, json, now);
            &&& member(json, "Temperature"@) is None ==> n.temperature == old.temperature
            &&& member(json, "Humidity"@) is None ==> n.humidity == old.humidity
            &&& member(json, "DewPoint"@) is None ==> n.dew_point == old.dew_point
            &&& member(json, "Battery"@) is None ==> n.battery == old.battery
        }),
{
}

/// Sparse merge: a smart-meter reading changes its own field only.
pub proof fn lemma_dsmr_sparse_merge(old: DsmrState, ty: DsmrMessageType, v: i64, now: u64)
    ensures
        ({
            let n = dsmr_merge(old, ty, v, now);
            &&& ty != DsmrMessageType::Water ==> n.water_total == old.water_total
            &&& ty != DsmrMessageType::Gas ==> n.gas_total == old.gas_total
            &&& ty != DsmrMessageType::Energy1 ==> n.power_total_tariff_1
                == old.power_total_tariff_1
            &&& ty != DsmrMessageType::Energy2 ==> n.power_total_tariff_2
                == old.power_total_tariff_2
            &&& ty != DsmrMessageType::Power ==> n.power == old.power
        }),
{
}

/// A decode that reaches a record marks it seen at the time of the
/// decode, so on a clock that never goes back its last-seen time never
/// decreases.
pub proof fn lemma_last_seen_advances(
    d: DeviceView,
    m: MiTempState,
    g: DsmrState,
    json: Json,
    ty: DsmrMessageType,
    v: i64,
    now: u64,
)
    requires
        d.last_seen <= now,
        m.last_seen <= now,
        g.last_seen <= now,
    ensures
        tasmota_merge(d, json, now).last_seen == now,
        mi_temp_merge(m, json, now).last_seen == now,
        dsmr_merge(g, ty, v, now).last_seen == now,
        d.last_seen <= tasmota_merge(d, json, now).last_seen,
        m.last_seen <= mi_temp_merge(m, json, now).last_seen,
        g.last_seen <= dsmr_merge(g, ty, v, now).last_seen,
{
}

/// A carbon dioxide number of one part per million or less never
/// replaces the stored reading; a higher one always does, as its value
/// in millionths.
pub proof fn lemma_co2_guard(old: DeviceView, json: Json, now: u64, n: JsonNumber)
    requires
        member2(json, "MHZ19B"@, "CarbonDioxide"@) == Some(Json::Number(n)),
    ensures
        !exceeds_one(n.positive, n.mantissa as int, n.exponent as int) ==> tasmota_merge(
            old,
            json,
            now,
        ).co2 == old.co2,
        exceeds_one(n.positive, n.mantissa as int, n.exponent as int) ==> match number_micros(
            n.positive,
            n.mantissa as int,
            n.exponent as int,
        ) {
            Some(v) => tasmota_merge(old, json, now).co2 == Some(v as i64),
            None => tasmota_merge(old, json, now).co2 == old.co2,
        },
{
}

} // verus!
