//! The registry of all device state: merging decoded updates, the
//! rtl_433 field stream, and eviction of silent devices.

use vstd::prelude::*;
use crate::device::{
    dsmr_merge, fresh_device, fresh_dsmr, fresh_mi_temp, mi_temp_merge, tasmota_merge, Device,
    DeviceState, DeviceView, DsmrMessageType, DsmrState, MiTempState, TempState,
};
use crate::ident::{
    addr_less, lemma_addr_less_total, lemma_addr_less_transitive,
    mac_from_part, parse_rf_payload, rf_payload_value, BDAddr, RfDeviceId,
};
use crate::json::Json;
use crate::number::{parse_reading, parse_unsigned, reading_value, unsigned_value};
use crate::table::{
    find, kept, keys_unique, lemma_kept_entries, lemma_view_insert, lemma_view_kept, lemma_view_push,
    lemma_view_update, map_kept, table_view, TableKey,
};
use crate::text::{chars_of, has_prefix, same_text, starts_with, string_of_range};

verus! {

impl TableKey for Device {
    type KeyView = Seq<char>;

    open spec fn key_view(&self) -> Seq<char> {
        self.hostname@
    }

    fn same_key(&self, o: &Self) -> (r: bool) {
        self.hostname == o.hostname
    }
}

impl TableKey for BDAddr {
    type KeyView = Seq<u8>;

    open spec fn key_view(&self) -> Seq<u8> {
        self.address@
    }

    fn same_key(&self, o: &Self) -> (r: bool) {
        let mut i: usize = 0;
        while i < 6
            invariant
                i <= 6,
                forall|j: int| 0 <= j < i ==> self.address@[j] == o.address@[j],
            decreases 6 - i,
        {
            if self.address[i] != o.address[i] {
                return false;
            }
            i = i + 1;
        }
        assert(self.address@ =~= o.address@);
        true
    }
}

impl TableKey for RfDeviceId {
    type KeyView = (Seq<char>, u16, u8);

    open spec fn key_view(&self) -> (Seq<char>, u16, u8) {
        (self.name@, self.id, self.channel)
    }

    fn same_key(&self, o: &Self) -> (r: bool) {
        self.equals(o)
    }
}

/// Seconds of silence after which a switch is asked for its name.
pub const PING_AFTER: u64 = 10 * 60;

/// Seconds of silence after which a device is forgotten.
pub const REMOVE_AFTER: u64 = 15 * 60;

/// Seconds between two sweeps.
pub const SWEEP_INTERVAL: u64 = 60;

/// All device state. Times are seconds on the caller's clock.
pub struct DeviceStates {
    pub devices: Vec<(Device, DeviceState)>,
    pub dsmr_devices: Vec<(Device, DsmrState)>,
    pub mi_temp_devices: Vec<(BDAddr, MiTempState)>,
    pub rf_temp_devices: Vec<(RfDeviceId, TempState)>,
    /// The rtl_433 sensor whose fields are arriving.
    pub active_rf_temp_id: RfDeviceId,
}

/// `s` without its leading dashes.
pub open spec fn trim_dashes(s: Seq<char>) -> Seq<char>
    decreases s.len(),
{
    if s.len() > 0 && s[0] == '-' {
        trim_dashes(s.drop_first())
    } else {
        s
    }
}

/// Whether the Bluetooth sensors are in address order.
pub open spec fn ble_sorted(e: Seq<(BDAddr, MiTempState)>) -> bool {
    forall|i: int, j: int|
        0 <= i < j < e.len() ==> addr_less(
            #[trigger] e[i].0.address@,
            #[trigger] e[j].0.address@,
            0,
        )
}

/// The Bluetooth sensor that a member key of a switch's telemetry names:
/// `MJ_HT_V1`, optional dashes, and the address suffix.
pub open spec fn ble_address(key: Seq<char>) -> Option<Seq<u8>> {
    if has_prefix(key, "MJ_HT_V1"@) {
        match mac_from_part(trim_dashes(key.skip("MJ_HT_V1"@.len() as int))) {
            Ok(a) => Some(a),
            Err(_) => None,
        }
    } else {
        None
    }
}

/// The Bluetooth sensors after the members of a telemetry document, in
/// order, have been applied.
pub open spec fn ble_fold(
    m: Map<Seq<u8>, MiTempState>,
    members: Seq<(String, Json)>,
    now: u64,
) -> Map<Seq<u8>, MiTempState>
    decreases members.len(),
{
    if members.len() == 0 {
        m
    } else {
        let p = ble_fold(m, members.drop_last(), now);
        let (k, v) = members.last();
        match ble_address(k@) {
            Some(a) => p.insert(
                a,
                mi_temp_merge(
                    if p.contains_key(a) {
                        p[a]
                    } else {
                        fresh_mi_temp(now)
                    },
                    v,
                    now,
                ),
            ),
            None => p,
        }
    }
}

/// A member whose key names no Bluetooth sensor, such as one whose
/// address suffix does not decode, leaves the Bluetooth sensors as they
/// are.
pub proof fn lemma_undecoded_key_ignored(
    m: Map<Seq<u8>, MiTempState>,
    members: Seq<(String, Json)>,
    key: String,
    value: Json,
    now: u64,
)
    requires
        ble_address(key@) is None,
    ensures
        ble_fold(m, members.push((key, value)), now) == ble_fold(m, members, now),
{
    assert(members.push((key, value)).drop_last() == members);
}

pub open spec fn ble_after(m: Map<Seq<u8>, MiTempState>, json: Json, now: u64) -> Map<
    Seq<u8>,
    MiTempState,
> {
    match json {
        Json::Object(members) => ble_fold(m, members@, now),
        _ => m,
    }
}

/// The registry after a telemetry document from the switch `host`.
pub open spec fn updated_by_telemetry(
    old: DeviceStates,
    new: DeviceStates,
    host: Seq<char>,
    json: Json,
    now: u64,
) -> bool {
    let base = if old.tasmota().contains_key(host) {
        old.tasmota()[host]
    } else {
        fresh_device(now)
    };
    &&& new.tasmota() == old.tasmota().insert(host, tasmota_merge(base, json, now))
    &&& new.ble() == ble_after(old.ble(), json, now)
    &&& new.dsmr() == old.dsmr()
    &&& new.rf() == old.rf()
    &&& new.active_rf_temp_id == old.active_rf_temp_id
}

/// The registry after a smart-meter message from `host`.
pub open spec fn updated_by_dsmr(
    old: DeviceStates,
    new: DeviceStates,
    host: Seq<char>,
    ty: DsmrMessageType,
    payload: Seq<char>,
    now: u64,
) -> bool {
    let base = if old.dsmr().contains_key(host) {
        old.dsmr()[host]
    } else {
        fresh_dsmr(now)
    };
    &&& new.dsmr() == match reading_value(payload) {
        Some(v) => old.dsmr().insert(host, dsmr_merge(base, ty, v as i64, now)),
        None => old.dsmr(),
    }
    &&& new.tasmota() == old.tasmota()
    &&& new.ble() == old.ble()
    &&& new.rf() == old.rf()
    &&& new.active_rf_temp_id == old.active_rf_temp_id
}

/// The registry after a record of a 433 MHz gateway.
pub open spec fn updated_by_rf(old: DeviceStates, new: DeviceStates, payload: Seq<char>) -> bool {
    &&& new.rf() == match rf_payload_value(payload) {
        Some((name, id, channel, _battery, temperature, humidity)) => old.rf().insert(
            (name, id as u16, channel as u8),
            TempState { temperature: temperature as i64, humidity: humidity as u8 },
        ),
        None => old.rf(),
    }
    &&& new.tasmota() == old.tasmota()
    &&& new.dsmr() == old.dsmr()
    &&& new.ble() == old.ble()
    &&& new.active_rf_temp_id == old.active_rf_temp_id
}

/// The registry after one message of the rtl_433 field stream.
pub open spec fn updated_by_rtl(
    old: DeviceStates,
    new: DeviceStates,
    device: Seq<char>,
    field: Seq<char>,
    payload: Seq<char>,
) -> bool {
    let active = new.active_rf_temp_id.key_view();
    let base = if old.rf().contains_key(active) {
        old.rf()[active]
    } else {
        TempState { temperature: 0, humidity: 0 }
    };
    &&& active == rtl_active(old.active_rf_temp_id.key_view(), device, field, payload)
    &&& new.rf() == if rtl_reading_field(field) {
        old.rf().insert(active, rtl_merge(base, field, payload))
    } else {
        old.rf()
    }
    &&& new.tasmota() == old.tasmota()
    &&& new.dsmr() == old.dsmr()
    &&& new.ble() == old.ble()
}

impl DeviceStates {
    pub open spec fn wf(&self) -> bool {
        &&& keys_unique(self.devices@)
        &&& keys_unique(self.dsmr_devices@)
        &&& keys_unique(self.mi_temp_devices@)
        &&& keys_unique(self.rf_temp_devices@)
        &&& ble_sorted(self.mi_temp_devices@)
    }

    /// The switches and meters, by hostname.
    pub open spec fn tasmota(&self) -> Map<Seq<char>, DeviceView> {
        table_view(self.devices@).map_values(|d: DeviceState| d@)
    }

    /// The smart-meter gateways, by hostname.
    pub open spec fn dsmr(&self) -> Map<Seq<char>, DsmrState> {
        table_view(self.dsmr_devices@)
    }

    /// The Bluetooth sensors, by address.
    pub open spec fn ble(&self) -> Map<Seq<u8>, MiTempState> {
        table_view(self.mi_temp_devices@)
    }

    /// The 433 MHz sensors, by identity.
    pub open spec fn rf(&self) -> Map<(Seq<char>, u16, u8), TempState> {
        table_view(self.rf_temp_devices@)
    }

    /// An empty registry.
    pub fn new() -> (r: DeviceStates)
        ensures
            r.wf(),
            r.tasmota() == Map::<Seq<char>, DeviceView>::empty(),
            r.dsmr() == Map::<Seq<char>, DsmrState>::empty(),
            r.ble() == Map::<Seq<u8>, MiTempState>::empty(),
            r.rf() == Map::<(Seq<char>, u16, u8), TempState>::empty(),
            r.active_rf_temp_id.name@ == Seq::<char>::empty(),
            r.active_rf_temp_id.id == 0,
            r.active_rf_temp_id.channel == 0,
    {
        let r = DeviceStates {
            devices: Vec::new(),
            dsmr_devices: Vec::new(),
            mi_temp_devices: Vec::new(),
            rf_temp_devices: Vec::new(),
            active_rf_temp_id: RfDeviceId { name: String::new(), id: 0, channel: 0 },
        };
        assert(r.tasmota() =~= Map::<Seq<char>, DeviceView>::empty());
        assert(r.dsmr() =~= Map::<Seq<char>, DsmrState>::empty());
        assert(r.ble() =~= Map::<Seq<u8>, MiTempState>::empty());
        assert(r.rf() =~= Map::<(Seq<char>, u16, u8), TempState>::empty());
        r
    }

    /// The switches and meters with their state.
    pub fn devices(&self) -> (r: &Vec<(Device, DeviceState)>)
        ensures
            r == &self.devices,
    {
        &self.devices
    }

    /// The smart-meter gateways with their state.
    pub fn dsmr_devices(&self) -> (r: &Vec<(Device, DsmrState)>)
        ensures
            r == &self.dsmr_devices,
    {
        &self.dsmr_devices
    }

    /// The Bluetooth sensors with their state.
    pub fn mi_temp(&self) -> (r: &Vec<(BDAddr, MiTempState)>)
        ensures
            r == &self.mi_temp_devices,
    {
        &self.mi_temp_devices
    }

    /// The 433 MHz sensors with their state.
    pub fn rf_temp(&self) -> (r: &Vec<(RfDeviceId, TempState)>)
        ensures
            r == &self.rf_temp_devices,
    {
        &self.rf_temp_devices
    }

    /// Merges a telemetry document from a switch or meter seen at `now`,
    /// and the readings of the Bluetooth sensors it relays.
    pub fn update(&mut self, device: Device, json: &Json, now: u64)
        requires
            old(self).wf(),
        ensures
            final(self).wf(),
            updated_by_telemetry(*old(self), *final(self), device.hostname@, *json, now),
    {
        if let Json::Object(members) = json {
            let mut i: usize = 0;
            while i < members.len()
                invariant
                    i <= members.len(),
                    *json == Json::Object(*members),
                    keys_unique(self.mi_temp_devices@),
                    ble_sorted(self.mi_temp_devices@),
                    self.ble() == ble_fold(old(self).ble(), members@.take(i as int), now),
                    self.devices == old(self).devices,
                    self.dsmr_devices == old(self).dsmr_devices,
                    self.rf_temp_devices == old(self).rf_temp_devices,
                    self.active_rf_temp_id == old(self).active_rf_temp_id,
                decreases members.len() - i,
            {
                assert(members@.take(i + 1).drop_last() == members@.take(i as int));
                match ble_address_of(&members[i].0) {
                    Some(addr) => {
                        self.update_mi_temp(addr, &members[i].1, now);
                    },
                    None => {},
                }
                i = i + 1;
            }
            assert(members@.take(members.len() as int) == members@);
        }
        self.update_tasmota(device, json, now);
    }

    fn update_mi_temp(&mut self, addr: BDAddr, json: &Json, now: u64)
        requires
            keys_unique(old(self).mi_temp_devices@),
            ble_sorted(old(self).mi_temp_devices@),
        ensures
            keys_unique(final(self).mi_temp_devices@),
            ble_sorted(final(self).mi_temp_devices@),
            final(self).ble() == old(self).ble().insert(
                addr.address@,
                mi_temp_merge(
                    if old(self).ble().contains_key(addr.address@) {
                        old(self).ble()[addr.address@]
                    } else {
                        fresh_mi_temp(now)
                    },
                    *json,
                    now,
                ),
            ),
            final(self).devices == old(self).devices,
            final(self).dsmr_devices == old(self).dsmr_devices,
            final(self).rf_temp_devices == old(self).rf_temp_devices,
            final(self).active_rf_temp_id == old(self).active_rf_temp_id,
    {
        let i = find(&self.mi_temp_devices, &addr);
        if i < self.mi_temp_devices.len() {
            let ghost e = self.mi_temp_devices@;
            let (k, mut st) = self.mi_temp_devices.remove(i);
            st.update(json, now);
            self.mi_temp_devices.insert(i, (k, st));
            proof {
                crate::table::lemma_index_of(e, addr.key_view());
                assert(self.mi_temp_devices@ =~= e.update(i as int, (e[i as int].0, st)));
                lemma_view_update(e, i as int, st);
            }
            assert forall|a: int, b: int|
                0 <= a < b < self.mi_temp_devices@.len() implies addr_less(
                #[trigger] self.mi_temp_devices@[a].0.address@,
                #[trigger] self.mi_temp_devices@[b].0.address@,
                0,
            ) by {
                assert(self.mi_temp_devices@[a].0 == e[a].0);
                assert(self.mi_temp_devices@[b].0 == e[b].0);
            }
        } else {
            let mut st = MiTempState::new(now);
            st.update(json, now);
            let pos = sorted_position(&self.mi_temp_devices, &addr);
            let ghost e = self.mi_temp_devices@;
            proof {
                lemma_view_insert(e, pos as int, addr, st);
                lemma_sorted_insert(e, pos as int, addr, st);
            }
            self.mi_temp_devices.insert(pos, (addr, st));
        }
    }

    fn update_tasmota(&mut self, device: Device, json: &Json, now: u64)
        requires
            keys_unique(old(self).devices@),
        ensures
            keys_unique(final(self).devices@),
            final(self).tasmota() == old(self).tasmota().insert(
                device.hostname@,
                tasmota_merge(
                    if old(self).tasmota().contains_key(device.hostname@) {
                        old(self).tasmota()[device.hostname@]
                    } else {
                        fresh_device(now)
                    },
                    *json,
                    now,
                ),
            ),
            final(self).mi_temp_devices == old(self).mi_temp_devices,
            final(self).dsmr_devices == old(self).dsmr_devices,
            final(self).rf_temp_devices == old(self).rf_temp_devices,
            final(self).active_rf_temp_id == old(self).active_rf_temp_id,
    {
        let i = find(&self.devices, &device);
        let ghost e = self.devices@;
        if i < self.devices.len() {
            let (k, mut st) = self.devices.remove(i);
            st.update(json, now);
            self.devices.insert(i, (k, st));
            proof {
                crate::table::lemma_index_of(e, device.key_view());
                assert(self.devices@ =~= e.update(i as int, (e[i as int].0, st)));
                lemma_view_update(e, i as int, st);
                assert(self.tasmota() =~= old(self).tasmota().insert(
                    device.hostname@,
                    st@,
                ));
            }
        } else {
            let mut st = DeviceState::new(now);
            st.update(json, now);
            proof {
                lemma_view_push(e, device, st);
            }
            self.devices.push((device, st));
            proof {
                assert(self.tasmota() =~= old(self).tasmota().insert(
                    device.hostname@,
                    st@,
                ));
            }
        }
    }

    /// Stores a smart-meter reading, given as decimal text, seen at `now`;
    /// text that is no decimal changes nothing.
    pub fn update_dsmr(&mut self, device: Device, ty: DsmrMessageType, payload: &str, now: u64)
        requires
            old(self).wf(),
        ensures
            final(self).wf(),
            updated_by_dsmr(*old(self), *final(self), device.hostname@, ty, payload@, now),
    {
        let text = chars_of(payload);
        let value = match parse_reading(text.as_slice()) {
            Some(v) => v,
            None => {
                return;
            },
        };
        let i = find(&self.dsmr_devices, &device);
        let ghost e = self.dsmr_devices@;
        if i < self.dsmr_devices.len() {
            let (k, mut st) = self.dsmr_devices.remove(i);
            st.update(ty, value, now);
            self.dsmr_devices.insert(i, (k, st));
            proof {
                crate::table::lemma_index_of(e, device.key_view());
                assert(self.dsmr_devices@ =~= e.update(i as int, (e[i as int].0, st)));
                lemma_view_update(e, i as int, st);
            }
        } else {
            let mut st = DsmrState::new(now);
            st.update(ty, value, now);
            proof {
                lemma_view_push(e, device, st);
            }
            self.dsmr_devices.push((device, st));
        }
    }

    /// Stores a reading of a 433 MHz gateway; a record that does not
    /// decode changes nothing.
    pub fn update_rf(&mut self, payload: &str)
        requires
            old(self).wf(),
        ensures
            final(self).wf(),
            updated_by_rf(*old(self), *final(self), payload@),
    {
        if let Some(data) = parse_rf_payload(payload) {
            let st = TempState { temperature: data.temperature, humidity: data.humidity };
            let id = data.device_id();
            self.set_rf(id, st);
        }
    }

    fn set_rf(&mut self, id: RfDeviceId, st: TempState)
        requires
            keys_unique(old(self).rf_temp_devices@),
        ensures
            keys_unique(final(self).rf_temp_devices@),
            final(self).rf() == old(self).rf().insert(id.key_view(), st),
            final(self).devices == old(self).devices,
            final(self).dsmr_devices == old(self).dsmr_devices,
            final(self).mi_temp_devices == old(self).mi_temp_devices,
            final(self).active_rf_temp_id == old(self).active_rf_temp_id,
    {
        let i = find(&self.rf_temp_devices, &id);
        let ghost e = self.rf_temp_devices@;
        if i < self.rf_temp_devices.len() {
            let (k, _old) = self.rf_temp_devices.remove(i);
            self.rf_temp_devices.insert(i, (k, st));
            proof {
                crate::table::lemma_index_of(e, id.key_view());
                assert(self.rf_temp_devices@ =~= e.update(i as int, (e[i as int].0, st)));
                lemma_view_update(e, i as int, st);
            }
        } else {
            proof {
                lemma_view_push(e, id, st);
            }
            self.rf_temp_devices.push((id, st));
        }
    }
}

/// Eviction timing for a named switch last seen at `t`: a sweep less
/// than the ping delay later neither forgets nor probes it; one past the
/// ping delay but within the removal delay probes it and keeps it; one
/// past the removal delay forgets it.
pub proof fn lemma_eviction_timing(d: DeviceView, t: u64, eps: u64)
    requires
        d.last_seen == t,
        d.name.len() > 0,
        0 < eps,
        t + REMOVE_AFTER + eps <= u64::MAX,
    ensures
        eps <= PING_AFTER ==> ({
            let now = (t + PING_AFTER - eps) as u64;
            view_kept(before(now, REMOVE_AFTER))(d) && !needs_probe(
                d,
                before(now, REMOVE_AFTER),
                before(now, PING_AFTER),
            )
        }),
        eps < REMOVE_AFTER - PING_AFTER ==> ({
            let now = (t + PING_AFTER + eps) as u64;
            view_kept(before(now, REMOVE_AFTER))(d) && needs_probe(
                d,
                before(now, REMOVE_AFTER),
                before(now, PING_AFTER),
            )
        }),
        !view_kept(before((t + REMOVE_AFTER + eps) as u64, REMOVE_AFTER))(d),
{
}

/// Celsius from Fahrenheit, both in millionths of a degree, rounded down.
pub open spec fn fahrenheit_to_celsius(f: int) -> int {
    (f - 32_000_000) * 5 / 9
}

/// The rtl_433 sensor whose fields are arriving, after the message
/// `(device, field, payload)`: a new device name starts a new identity
/// with id and channel zero; `id` and `channel` set those numbers, zero
/// when the payload is no number that fits.
pub open spec fn rtl_active(
    old: (Seq<char>, u16, u8),
    device: Seq<char>,
    field: Seq<char>,
    payload: Seq<char>,
) -> (Seq<char>, u16, u8) {
    let (name, id, channel) = if old.0 == device {
        old
    } else {
        (device, 0u16, 0u8)
    };
    if field == "id"@ {
        (
            name,
            match unsigned_value(payload, 10, 0xffff) {
                Some(v) => v as u16,
                None => 0u16,
            },
            channel,
        )
    } else if field == "channel"@ {
        (
            name,
            id,
            match unsigned_value(payload, 10, 0xff) {
                Some(v) => v as u8,
                None => 0u8,
            },
        )
    } else {
        (name, id, channel)
    }
}

/// Whether an rtl_433 field carries a reading.
pub open spec fn rtl_reading_field(field: Seq<char>) -> bool {
    field == "temperature_F"@ || field == "humidity"@
}

/// A sensor's state after an rtl_433 reading: a temperature in
/// Fahrenheit, or a humidity; zero when the payload does not parse.
pub open spec fn rtl_merge(old: TempState, field: Seq<char>, payload: Seq<char>) -> TempState {
    if field == "temperature_F"@ {
        TempState {
            temperature: match reading_value(payload) {
                Some(f) => fahrenheit_to_celsius(f) as i64,
                None => 0,
            },
            ..old
        }
    } else {
        TempState {
            humidity: match unsigned_value(payload, 10, 0xff) {
                Some(h) => h as u8,
                None => 0,
            },
            ..old
        }
    }
}

/// Whether a switch's record is kept by a sweep that forgets what was
/// last seen before `cleanup_time`.
pub open spec fn tasmota_kept(cleanup_time: u64) -> spec_fn(DeviceState) -> bool {
    |d: DeviceState| d.last_seen >= cleanup_time
}

pub open spec fn view_kept(cleanup_time: u64) -> spec_fn(DeviceView) -> bool {
    |d: DeviceView| d.last_seen >= cleanup_time
}

pub open spec fn mi_temp_kept(cleanup_time: u64) -> spec_fn(MiTempState) -> bool {
    |d: MiTempState| d.last_seen >= cleanup_time
}

/// Whether a sweep asks a kept switch for its name: it has been silent
/// since before `ping_time`, or has no name yet.
pub open spec fn needs_probe(d: DeviceView, cleanup_time: u64, ping_time: u64) -> bool {
    d.last_seen >= cleanup_time && (d.last_seen < ping_time || d.name.len() == 0)
}

/// Hostnames of the switches that a sweep probes, in table order.
pub open spec fn probe_hosts(e: Seq<(Device, DeviceState)>, cleanup_time: u64, ping_time: u64) -> Seq<
    Seq<char>,
>
    decreases e.len(),
{
    if e.len() == 0 {
        Seq::empty()
    } else {
        let p = probe_hosts(e.drop_last(), cleanup_time, ping_time);
        if needs_probe(e.last().1@, cleanup_time, ping_time) {
            p.push(e.last().0.hostname@)
        } else {
            p
        }
    }
}

/// The time `after` seconds before `now`, or zero.
pub open spec fn before(now: u64, after: u64) -> u64 {
    if now >= after {
        (now - after) as u64
    } else {
        0
    }
}

impl DeviceStates {
    /// Handles one message of the rtl_433 field stream. Readings go to the
    /// sensor identified by the name, id and channel that arrived before
    /// them; other fields are ignored.
    pub fn update_rtl(&mut self, device: &str, field: &str, payload: &str)
        requires
            old(self).wf(),
        ensures
            final(self).wf(),
            updated_by_rtl(*old(self), *final(self), device@, field@, payload@),
    {
        let name = String::from_str(device);
        if !(self.active_rf_temp_id.name == name) {
            self.active_rf_temp_id = RfDeviceId { name, id: 0, channel: 0 };
        }
        let f = chars_of(field);
        let p = chars_of(payload);
        proof {
            reveal_strlit("id");
            reveal_strlit("channel");
            reveal_strlit("temperature_F");
            reveal_strlit("humidity");
            assert("id"@.len() == 2);
            assert("channel"@.len() == 7);
            assert("temperature_F"@.len() == 13);
            assert("humidity"@.len() == 8);
        }
        if same_text(f.as_slice(), "id") {
            assert(!rtl_reading_field(field@));
            self.active_rf_temp_id.id = match parse_unsigned(p.as_slice(), 10, 0xffff) {
                Some(v) => v as u16,
                None => 0,
            };
        } else if same_text(f.as_slice(), "channel") {
            assert(!rtl_reading_field(field@));
            self.active_rf_temp_id.channel = match parse_unsigned(p.as_slice(), 10, 0xff) {
                Some(v) => v as u8,
                None => 0,
            };
        } else if same_text(f.as_slice(), "temperature_F") || same_text(f.as_slice(), "humidity") {
            self.update_active_rtl(f.as_slice(), p.as_slice());
        } else {
            assert(!rtl_reading_field(field@));
        }
    }

    fn update_active_rtl(&mut self, field: &[char], payload: &[char])
        requires
            old(self).wf(),
            rtl_reading_field(field@),
        ensures
            final(self).wf(),
            final(self).rf() == old(self).rf().insert(
                old(self).active_rf_temp_id.key_view(),
                rtl_merge(
                    if old(self).rf().contains_key(old(self).active_rf_temp_id.key_view()) {
                        old(self).rf()[old(self).active_rf_temp_id.key_view()]
                    } else {
                        TempState { temperature: 0, humidity: 0 }
                    },
                    field@,
                    payload@,
                ),
            ),
            final(self).active_rf_temp_id == old(self).active_rf_temp_id,
            final(self).devices == old(self).devices,
            final(self).dsmr_devices == old(self).dsmr_devices,
            final(self).mi_temp_devices == old(self).mi_temp_devices,
    {
        let i = find(&self.rf_temp_devices, &self.active_rf_temp_id);
        let mut st = if i < self.rf_temp_devices.len() {
            proof {
                crate::table::lemma_index_of(
                    self.rf_temp_devices@,
                    self.active_rf_temp_id.key_view(),
                );
            }
            self.rf_temp_devices[i].1
        } else {
            TempState { temperature: 0, humidity: 0 }
        };
        if same_text(field, "temperature_F") {
            st.temperature = match parse_reading(payload) {
                Some(f) => celsius_of(f),
                None => 0,
            };
        } else {
            st.humidity = match parse_unsigned(payload, 10, 0xff) {
                Some(h) => h as u8,
                None => 0,
            };
        }
        let id = self.active_rf_temp_id.to_owned();
        self.set_rf(id, st);
    }

    /// Forgets the switches and Bluetooth sensors last seen before
    /// `cleanup_time`, and lists the kept switches to ask for their name:
    /// those last seen before `ping_time`, and those with no name yet.
    /// Gateways and 433 MHz sensors are kept.
    pub fn retain(&mut self, cleanup_time: u64, ping_time: u64) -> (probes: Vec<Device>)
        requires
            old(self).wf(),
        ensures
            final(self).wf(),
            final(self).devices@ == kept(old(self).devices@, tasmota_kept(cleanup_time)),
            final(self).tasmota() == map_kept(old(self).tasmota(), view_kept(cleanup_time)),
            final(self).mi_temp_devices@ == kept(
                old(self).mi_temp_devices@,
                mi_temp_kept(cleanup_time),
            ),
            final(self).ble() == map_kept(old(self).ble(), mi_temp_kept(cleanup_time)),
            probes@.map_values(|d: Device| d.hostname@) == probe_hosts(
                old(self).devices@,
                cleanup_time,
                ping_time,
            ),
            final(self).dsmr() == old(self).dsmr(),
            final(self).rf() == old(self).rf(),
            final(self).active_rf_temp_id == old(self).active_rf_temp_id,
    {
        let ghost orig = self.devices@;
        let mut probes: Vec<Device> = Vec::new();
        let mut i: usize = 0;
        let mut j: usize = 0;
        let n = self.devices.len();
        while j < n
            invariant
                j <= n == orig.len(),
                i <= j,
                self.devices@ == kept(orig.take(j as int), tasmota_kept(cleanup_time)) + orig.skip(
                    j as int,
                ),
                i == kept(orig.take(j as int), tasmota_kept(cleanup_time)).len(),
                probes@.map_values(|d: Device| d.hostname@) == probe_hosts(
                    orig.take(j as int),
                    cleanup_time,
                    ping_time,
                ),
                self.mi_temp_devices == old(self).mi_temp_devices,
                self.dsmr_devices == old(self).dsmr_devices,
                self.rf_temp_devices == old(self).rf_temp_devices,
                self.active_rf_temp_id == old(self).active_rf_temp_id,
            decreases n - j,
        {
            let ghost k0 = kept(orig.take(j as int), tasmota_kept(cleanup_time));
            assert(orig.take(j + 1).drop_last() == orig.take(j as int));
            assert(orig.take(j + 1).last() == orig[j as int]);
            assert(self.devices@[i as int] == orig[j as int]);
            let last_seen = self.devices[i].1.last_seen;
            if last_seen < cleanup_time {
                self.devices.remove(i);
                assert(self.devices@ =~= k0 + orig.skip(j + 1));
            } else {
                if last_seen < ping_time || self.devices[i].1.name.as_str().is_empty() {
                    let d = self.devices[i].0.clone_device();
                    probes.push(d);
                    assert(probes@.map_values(|d: Device| d.hostname@) =~= probe_hosts(
                        orig.take(j + 1),
                        cleanup_time,
                        ping_time,
                    ));
                }
                assert(self.devices@ =~= k0.push(orig[j as int]) + orig.skip(j + 1));
                i = i + 1;
            }
            j = j + 1;
        }
        assert(orig.take(n as int) == orig);
        assert(self.devices@ =~= kept(orig, tasmota_kept(cleanup_time)));
        proof {
            lemma_view_kept(orig, tasmota_kept(cleanup_time));
            assert(self.tasmota() =~= map_kept(old(self).tasmota(), view_kept(cleanup_time)));
        }
        self.retain_mi_temp(cleanup_time);
        probes
    }

    fn retain_mi_temp(&mut self, cleanup_time: u64)
        requires
            keys_unique(old(self).mi_temp_devices@),
            ble_sorted(old(self).mi_temp_devices@),
        ensures
            keys_unique(final(self).mi_temp_devices@),
            ble_sorted(final(self).mi_temp_devices@),
            final(self).mi_temp_devices@ == kept(
                old(self).mi_temp_devices@,
                mi_temp_kept(cleanup_time),
            ),
            final(self).ble() == map_kept(old(self).ble(), mi_temp_kept(cleanup_time)),
            final(self).devices == old(self).devices,
            final(self).dsmr_devices == old(self).dsmr_devices,
            final(self).rf_temp_devices == old(self).rf_temp_devices,
            final(self).active_rf_temp_id == old(self).active_rf_temp_id,
    {
        let ghost orig = self.mi_temp_devices@;
        let mut i: usize = 0;
        let mut j: usize = 0;
        let n = self.mi_temp_devices.len();
        while j < n
            invariant
                j <= n == orig.len(),
                i <= j,
                self.mi_temp_devices@ == kept(orig.take(j as int), mi_temp_kept(cleanup_time))
                    + orig.skip(j as int),
                i == kept(orig.take(j as int), mi_temp_kept(cleanup_time)).len(),
                self.devices == old(self).devices,
                self.dsmr_devices == old(self).dsmr_devices,
                self.rf_temp_devices == old(self).rf_temp_devices,
                self.active_rf_temp_id == old(self).active_rf_temp_id,
            decreases n - j,
        {
            let ghost k0 = kept(orig.take(j as int), mi_temp_kept(cleanup_time));
            assert(orig.take(j + 1).drop_last() == orig.take(j as int));
            assert(orig.take(j + 1).last() == orig[j as int]);
            assert(self.mi_temp_devices@[i as int] == orig[j as int]);
            if self.mi_temp_devices[i].1.last_seen < cleanup_time {
                self.mi_temp_devices.remove(i);
                assert(self.mi_temp_devices@ =~= k0 + orig.skip(j + 1));
            } else {
                assert(self.mi_temp_devices@ =~= k0.push(orig[j as int]) + orig.skip(j + 1));
                i = i + 1;
            }
            j = j + 1;
        }
        assert(orig.take(n as int) == orig);
        assert(self.mi_temp_devices@ =~= kept(orig, mi_temp_kept(cleanup_time)));
        proof {
            lemma_view_kept(orig, mi_temp_kept(cleanup_time));
            let k = kept(orig, mi_temp_kept(cleanup_time));
            lemma_kept_entries(orig, mi_temp_kept(cleanup_time));
            assert forall|a: int, b: int| 0 <= a < b < k.len() implies addr_less(
                #[trigger] k[a].0.address@,
                #[trigger] k[b].0.address@,
                0,
            ) by {
                let (x, y) = choose|x: int, y: int|
                    0 <= x < y < orig.len() && k[a] == orig[x] && k[b] == orig[y];
            }
        }
    }

    /// The periodic maintenance pass at `now`: forgets what has been
    /// silent longer than `remove_after` seconds and lists the switches
    /// to probe, silent longer than `ping_after` seconds or unnamed.
    pub fn sweep(&mut self, now: u64, ping_after: u64, remove_after: u64) -> (probes: Vec<Device>)
        requires
            old(self).wf(),
        ensures
            final(self).wf(),
            final(self).tasmota() == map_kept(
                old(self).tasmota(),
                view_kept(before(now, remove_after)),
            ),
            final(self).ble() == map_kept(old(self).ble(), mi_temp_kept(before(now, remove_after))),
            probes@.map_values(|d: Device| d.hostname@) == probe_hosts(
                old(self).devices@,
                before(now, remove_after),
                before(now, ping_after),
            ),
            final(self).dsmr() == old(self).dsmr(),
            final(self).rf() == old(self).rf(),
            final(self).active_rf_temp_id == old(self).active_rf_temp_id,
    {
        let cleanup_time = if now >= remove_after {
            now - remove_after
        } else {
            0
        };
        let ping_time = if now >= ping_after {
            now - ping_after
        } else {
            0
        };
        self.retain(cleanup_time, ping_time)
    }
}

/// Celsius from Fahrenheit, both in millionths of a degree.
fn celsius_of(f: i64) -> (r: i64)
    requires
        -1_000_000_000_000_000 <= f <= 1_000_000_000_000_000,
    ensures
        r as int == fahrenheit_to_celsius(f as int),
{
    let x: i64 = (f - 32_000_000) * 5;
    if x >= 0 {
        x / 9
    } else {
        let q: i64 = (8 - x) / 9;
        proof {
            let r = (8 - x) % 9;
            vstd::arithmetic::div_mod::lemma_fundamental_div_mod((8 - x) as int, 9);
            vstd::arithmetic::div_mod::lemma_fundamental_div_mod_converse(
                x as int,
                9,
                -q as int,
                (8 - r) as int,
            );
        }
        -q
    }
}

impl Device {
    /// A copy of this device.
    pub fn clone_device(&self) -> (r: Device)
        ensures
            r.hostname@ == self.hostname@,
    {
        Device { hostname: self.hostname.clone() }
    }
}

/// Where a new address goes in a table in address order: after every
/// address that sorts before it.
fn sorted_position(e: &Vec<(BDAddr, MiTempState)>, addr: &BDAddr) -> (r: usize)
    ensures
        r <= e.len(),
        forall|j: int| 0 <= j < r ==> addr_less(#[trigger] e@[j].0.address@, addr.address@, 0),
        r < e.len() ==> !addr_less(e@[r as int].0.address@, addr.address@, 0),
{
    let mut i: usize = 0;
    while i < e.len() && e[i].0.less_than(addr)
        invariant
            i <= e.len(),
            forall|j: int| 0 <= j < i ==> addr_less(#[trigger] e@[j].0.address@, addr.address@, 0),
        decreases e.len() - i,
    {
        i = i + 1;
    }
    i
}

/// Inserting a new address at its sorted position keeps the table in
/// address order.
proof fn lemma_sorted_insert(e: Seq<(BDAddr, MiTempState)>, pos: int, addr: BDAddr, st: MiTempState)
    requires
        ble_sorted(e),
        0 <= pos <= e.len(),
        forall|j: int| 0 <= j < pos ==> addr_less(#[trigger] e[j].0.address@, addr.address@, 0),
        pos < e.len() ==> !addr_less(e[pos].0.address@, addr.address@, 0),
        !table_view(e).contains_key(addr.address@),
    ensures
        ble_sorted(e.insert(pos, (addr, st))),
{
    let n = e.insert(pos, (addr, st));
    if pos < e.len() {
        let k = addr.address@;
        crate::table::lemma_index_of(e, k);
        assert(!(crate::table::index_of(e, k) < e.len()));
        assert(e[pos].0.key_view() != k);
        if !addr_less(addr.address@, e[pos].0.address@, 0) {
            let x = e[pos].0.address@;
            assert(x.len() == 6 && k.len() == 6);
            lemma_addr_less_total(x, k, 0);
            assert(x.subrange(0, 6) =~= x);
            assert(k.subrange(0, 6) =~= k);
        }
    }
    assert forall|a: int, b: int| 0 <= a < b < n.len() implies addr_less(
        #[trigger] n[a].0.address@,
        #[trigger] n[b].0.address@,
        0,
    ) by {
        if a == pos {
            assert(n[b] == e[b - 1]);
            if b - 1 > pos {
                lemma_addr_less_transitive(addr.address@, e[pos].0.address@, e[b - 1].0.address@, 0);
            }
        } else if b == pos {
            assert(n[a] == e[a]);
        } else if a < pos && b > pos {
            assert(n[a] == e[a]);
            assert(n[b] == e[b - 1]);
        } else if a > pos {
            assert(n[a] == e[a - 1]);
            assert(n[b] == e[b - 1]);
        } else {
            assert(n[a] == e[a]);
            assert(n[b] == e[b]);
        }
    }
}

/// The Bluetooth sensor that a member key names, if it names one.
fn ble_address_of(key: &String) -> (r: Option<BDAddr>)
    ensures
        match r {
            Some(a) => ble_address(key@) == Some(a.address@),
            None => ble_address(key@) is None,
        },
{
    let v = chars_of(key.as_str());
    let s = v.as_slice();
    if !starts_with(s, "MJ_HT_V1") {
        return None;
    }
    let lo = chars_of("MJ_HT_V1").len();
    let mut i: usize = lo;
    assert(s@.skip(lo as int) == s@.skip(i as int));
    while i < s.len() && s[i] == '-'
        invariant
            lo <= i <= s.len(),
            trim_dashes(s@.skip(lo as int)) == trim_dashes(s@.skip(i as int)),
        decreases s.len() - i,
    {
        assert(s@.skip(i as int).drop_first() == s@.skip(i + 1));
        i = i + 1;
    }
    assert(trim_dashes(s@.skip(i as int)) == s@.skip(i as int));
    let rest = string_of_range(s, i, s.len());
    assert(rest@ == s@.skip(i as int));
    match BDAddr::from_mi_temp_mac_part(rest.as_str()) {
        Ok(a) => Some(a),
        Err(_) => None,
    }
}

} // verus!
