//! The metrics exposition text: one `metric{labels} value` line per
//! observation.

use vstd::prelude::*;
use crate::device::{Device, DeviceState, DeviceView, DsmrState, MiTempState, PMSState, TempState};
use crate::ident::{mac_text, BDAddr, RfDeviceId};
use crate::number::{decimal_text, push_decimal, push_reading, reading_text};
use crate::config::NamesConfig;
use crate::registry::DeviceStates;
use crate::table::{find, table_view, TableKey};

verus! {

/// A line labelled with a switch's hostname and name.
pub open spec fn tasmota_line(metric: Seq<char>, host: Seq<char>, name: Seq<char>, value: Seq<char>) -> Seq<
    char,
> {
    metric + "{tasmota_id=\""@ + host + "\", name=\""@ + name + "\"} "@ + value + "\n"@
}

pub open spec fn reading_line(
    metric: Seq<char>,
    host: Seq<char>,
    name: Seq<char>,
    v: Option<i64>,
) -> Seq<char> {
    match v {
        Some(x) => tasmota_line(metric, host, name, reading_text(x as int)),
        None => Seq::empty(),
    }
}

pub open spec fn count_line(metric: Seq<char>, host: Seq<char>, name: Seq<char>, v: u16) -> Seq<char> {
    tasmota_line(metric, host, name, decimal_text(v as nat))
}

/// The lines of a particulate-matter sensor.
pub open spec fn pms_text(host: Seq<char>, name: Seq<char>, p: PMSState) -> Seq<char> {
    count_line("cf1"@, host, name, p.cf1) + count_line("cf2_5"@, host, name, p.cf2_5) + count_line(
        "cf10"@,
        host,
        name,
        p.cf10,
    ) + count_line("pm1"@, host, name, p.pm1) + count_line("pm2_5"@, host, name, p.pm2_5)
        + count_line("pm10"@, host, name, p.pm10) + count_line("pb0_3"@, host, name, p.pb0_3)
        + count_line("pb0_5"@, host, name, p.pb0_5) + count_line("pb1"@, host, name, p.pb1)
        + count_line("pb2_5"@, host, name, p.pb2_5) + count_line("pb5"@, host, name, p.pb5)
        + count_line("pb10"@, host, name, p.pb10)
}

/// The firmware line of a switch.
pub open spec fn version_line(host: Seq<char>, d: DeviceView) -> Seq<char> {
    "tasmota_version{tasmota_id=\""@ + host + "\", name=\""@ + d.name + "\", firmware=\""@
        + d.firmware + "\", version=\""@ + reading_text(d.version as int) + "\"} 1\n"@
}

/// The liveness line of a switch, then its on/off state if known.
pub open spec fn switch_text(host: Seq<char>, d: DeviceView) -> Seq<char> {
    tasmota_line("tasmota_online"@, host, d.name, "1"@) + match d.state {
        Some(on) => tasmota_line(
            "switch_state"@,
            host,
            d.name,
            if on {
                "1"@
            } else {
                "0"@
            },
        ),
        None => Seq::empty(),
    }
}

/// One line per energy, gas and carbon dioxide reading reported.
pub open spec fn readings_text(host: Seq<char>, d: DeviceView) -> Seq<char> {
    reading_line("power_watts"@, host, d.name, d.power_watts) + reading_line(
        "power_yesterday_kwh"@,
        host,
        d.name,
        d.power_yesterday,
    ) + reading_line("power_today_kwh"@, host, d.name, d.power_today) + reading_line(
        "power_total_kwh"@,
        host,
        d.name,
        d.power_total,
    ) + reading_line("power_total_high_kwh"@, host, d.name, d.power_total_high) + reading_line(
        "power_total_low_kwh"@,
        host,
        d.name,
        d.power_total_low,
    ) + reading_line("gas_total_m3"@, host, d.name, d.gas_total) + reading_line(
        "sensor_co2"@,
        host,
        d.name,
        d.co2,
    )
}

/// The particulate-matter lines and the firmware line, when known.
pub open spec fn extras_text(host: Seq<char>, d: DeviceView) -> Seq<char> {
    let pms = match d.pms_state {
        Some(p) => pms_text(host, d.name, p),
        None => Seq::empty(),
    };
    let version = if d.firmware.len() > 0 {
        version_line(host, d)
    } else {
        Seq::empty()
    };
    pms + version
}

/// The lines of a switch or meter: none while it has no name; else a
/// liveness line, then one line per field it has reported.
#[verifier::opaque]
pub open spec fn device_text(host: Seq<char>, d: DeviceView) -> Seq<char> {
    if d.name.len() == 0 {
        Seq::empty()
    } else {
        switch_text(host, d) + readings_text(host, d) + extras_text(host, d)
    }
}

fn push_tasmota_line(out: &mut String, metric: &str, host: &String, name: &String, value: &String)
    ensures
        final(out)@ == old(out)@ + tasmota_line(metric@, host@, name@, value@),
{
    let ghost start = out@;
    out.append(metric);
    out.append("{tasmota_id=\"");
    out.append(host.as_str());
    out.append("\", name=\"");
    out.append(name.as_str());
    out.append("\"} ");
    out.append(value.as_str());
    out.append("\n");
    assert(out@ =~= start + tasmota_line(metric@, host@, name@, value@));
}

/// A reading as text.
pub fn reading_string(v: i64) -> (r: String)
    ensures
        r@ == reading_text(v as int),
{
    let mut r = String::new();
    push_reading(&mut r, v as i128);
    r
}

fn count_string(v: u16) -> (r: String)
    ensures
        r@ == decimal_text(v as nat),
{
    let mut r = String::new();
    push_decimal(&mut r, v as u128);
    r
}

fn push_reading_line(out: &mut String, metric: &str, host: &String, name: &String, v: Option<i64>)
    ensures
        final(out)@ == old(out)@ + reading_line(metric@, host@, name@, v),
{
    match v {
        Some(x) => {
            let value = reading_string(x);
            push_tasmota_line(out, metric, host, name, &value);
        },
        None => {
            assert(out@ =~= out@ + Seq::<char>::empty());
        },
    }
}

fn push_count_line(out: &mut String, metric: &str, host: &String, name: &String, v: u16)
    ensures
        final(out)@ == old(out)@ + count_line(metric@, host@, name@, v),
{
    let value = count_string(v);
    push_tasmota_line(out, metric, host, name, &value);
}

/// Appends the lines of a particulate-matter sensor.
pub fn format_pms_state(out: &mut String, device: &Device, device_state: &DeviceState, state: &PMSState)
    ensures
        final(out)@ == old(out)@ + pms_text(device.hostname@, device_state.name@, *state),
{
    let ghost start = out@;
    let host = &device.hostname;
    let name = &device_state.name;
    push_count_line(out, "cf1", host, name, state.cf1);
    push_count_line(out, "cf2_5", host, name, state.cf2_5);
    push_count_line(out, "cf10", host, name, state.cf10);
    push_count_line(out, "pm1", host, name, state.pm1);
    push_count_line(out, "pm2_5", host, name, state.pm2_5);
    push_count_line(out, "pm10", host, name, state.pm10);
    push_count_line(out, "pb0_3", host, name, state.pb0_3);
    push_count_line(out, "pb0_5", host, name, state.pb0_5);
    push_count_line(out, "pb1", host, name, state.pb1);
    push_count_line(out, "pb2_5", host, name, state.pb2_5);
    push_count_line(out, "pb5", host, name, state.pb5);
    push_count_line(out, "pb10", host, name, state.pb10);
    assert(out@ =~= start + pms_text(device.hostname@, device_state.name@, *state));
}

fn push_version_line(out: &mut String, device: &Device, state: &DeviceState)
    ensures
        final(out)@ == old(out)@ + version_line(device.hostname@, state@),
{
    let ghost start = out@;
    out.append("tasmota_version{tasmota_id=\"");
    out.append(device.hostname.as_str());
    out.append("\", name=\"");
    out.append(state.name.as_str());
    out.append("\", firmware=\"");
    out.append(state.firmware.as_str());
    out.append("\", version=\"");
    push_reading(out, state.version as i128);
    out.append("\"} 1\n");
    assert(out@ =~= start + version_line(device.hostname@, state@));
}

fn push_switch_lines(out: &mut String, device: &Device, state: &DeviceState)
    ensures
        final(out)@ == old(out)@ + switch_text(device.hostname@, state@),
{
    let ghost start = out@;
    let one = String::from_str("1");
    push_tasmota_line(out, "tasmota_online", &device.hostname, &state.name, &one);
    match state.state {
        Some(on) => {
            let v = if on {
                String::from_str("1")
            } else {
                String::from_str("0")
            };
            push_tasmota_line(out, "switch_state", &device.hostname, &state.name, &v);
        },
        None => {},
    }
    assert(out@ =~= start + switch_text(device.hostname@, state@));
}

fn push_reading_lines(out: &mut String, device: &Device, state: &DeviceState)
    ensures
        final(out)@ == old(out)@ + readings_text(device.hostname@, state@),
{
    let ghost start = out@;
    let host = &device.hostname;
    let name = &state.name;
    push_reading_line(out, "power_watts", host, name, state.power_watts);
    push_reading_line(out, "power_yesterday_kwh", host, name, state.power_yesterday);
    push_reading_line(out, "power_today_kwh", host, name, state.power_today);
    push_reading_line(out, "power_total_kwh", host, name, state.power_total);
    push_reading_line(out, "power_total_high_kwh", host, name, state.power_total_high);
    push_reading_line(out, "power_total_low_kwh", host, name, state.power_total_low);
    push_reading_line(out, "gas_total_m3", host, name, state.gas_total);
    push_reading_line(out, "sensor_co2", host, name, state.co2);
    assert(out@ =~= start + readings_text(device.hostname@, state@));
}

fn push_extra_lines(out: &mut String, device: &Device, state: &DeviceState)
    ensures
        final(out)@ == old(out)@ + extras_text(device.hostname@, state@),
{
    let ghost start = out@;
    match state.pms_state {
        Some(p) => {
            format_pms_state(out, device, state, &p);
        },
        None => {},
    }
    if !state.firmware.as_str().is_empty() {
        push_version_line(out, device, state);
    }
    assert(out@ =~= start + extras_text(device.hostname@, state@));
}

/// Appends the lines of a switch or meter.
pub fn format_device_state(out: &mut String, device: &Device, state: &DeviceState)
    ensures
        final(out)@ == old(out)@ + device_text(device.hostname@, state@),
{
    let ghost start = out@;
    reveal(device_text);
    if state.name.as_str().is_empty() {
        assert(out@ =~= start + device_text(device.hostname@, state@));
        return;
    }
    push_switch_lines(out, device, state);
    push_reading_lines(out, device, state);
    push_extra_lines(out, device, state);
    assert(out@ =~= start + device_text(device.hostname@, state@));
}


/// A line labelled with a Bluetooth sensor's address and name.
pub open spec fn mi_line(metric: Seq<char>, mac: Seq<char>, name: Seq<char>, value: Seq<char>) -> Seq<
    char,
> {
    metric + "{mac=\""@ + mac + "\", name=\""@ + name + "\"} "@ + value + "\n"@
}

/// The lines of a Bluetooth sensor: none unless it is named; else its
/// battery, temperature and humidity, each only when not zero.
#[verifier::opaque]
pub open spec fn mi_temp_text(addr: Seq<u8>, names: Map<Seq<u8>, String>, st: MiTempState) -> Seq<
    char,
> {
    if !names.contains_key(addr) {
        Seq::empty()
    } else {
        let name = names[addr]@;
        let mac = mac_text(addr);
        let battery = if st.battery != 0 {
            mi_line("sensor_battery"@, mac, name, decimal_text(st.battery as nat))
        } else {
            Seq::empty()
        };
        let temperature = if st.temperature != 0 {
            mi_line("sensor_temperature"@, mac, name, reading_text(st.temperature as int))
        } else {
            Seq::empty()
        };
        let humidity = if st.humidity != 0 {
            mi_line("sensor_humidity"@, mac, name, reading_text(st.humidity as int))
        } else {
            Seq::empty()
        };
        battery + temperature + humidity
    }
}

fn push_mi_line(out: &mut String, metric: &str, mac: &String, name: &String, value: &String)
    ensures
        final(out)@ == old(out)@ + mi_line(metric@, mac@, name@, value@),
{
    let ghost start = out@;
    out.append(metric);
    out.append("{mac=\"");
    out.append(mac.as_str());
    out.append("\", name=\"");
    out.append(name.as_str());
    out.append("\"} ");
    out.append(value.as_str());
    out.append("\n");
    assert(out@ =~= start + mi_line(metric@, mac@, name@, value@));
}

/// Appends the lines of a Bluetooth sensor.
pub fn format_mi_temp_state(
    out: &mut String,
    addr: &BDAddr,
    names: &Vec<(BDAddr, String)>,
    state: &MiTempState,
)
    ensures
        final(out)@ == old(out)@ + mi_temp_text(addr.address@, table_view(names@), *state),
{
    let ghost start = out@;
    reveal(mi_temp_text);
    let i = find(names, addr);
    proof {
        crate::table::lemma_index_of(names@, addr.key_view());
    }
    if i >= names.len() {
        assert(out@ =~= start + mi_temp_text(addr.address@, table_view(names@), *state));
        return;
    }
    let name = &names[i].1;
    let mac = addr.to_string();
    if state.battery != 0 {
        let mut v = String::new();
        push_decimal(&mut v, state.battery as u128);
        push_mi_line(out, "sensor_battery", &mac, name, &v);
    }
    if state.temperature != 0 {
        let v = reading_string(state.temperature);
        push_mi_line(out, "sensor_temperature", &mac, name, &v);
    }
    if state.humidity != 0 {
        let v = reading_string(state.humidity);
        push_mi_line(out, "sensor_humidity", &mac, name, &v);
    }
    assert(out@ =~= start + mi_temp_text(addr.address@, table_view(names@), *state));
}

/// A line labelled with a 433 MHz sensor's identity and name.
pub open spec fn rf_line(
    metric: Seq<char>,
    id: (Seq<char>, u16, u8),
    name: Seq<char>,
    value: Seq<char>,
) -> Seq<char> {
    let (model, num, channel) = id;
    metric + "{model=\""@ + model + "\", id=\""@ + decimal_text(num as nat) + "\", channel=\""@
        + decimal_text(channel as nat) + "\", name=\""@ + name + "\"} "@ + value + "\n"@
}

/// The lines of a 433 MHz sensor: none unless it is named; else its
/// temperature and humidity, each only when not zero.
#[verifier::opaque]
pub open spec fn rf_temp_text(
    id: (Seq<char>, u16, u8),
    names: Map<(Seq<char>, u16, u8), String>,
    st: TempState,
) -> Seq<char> {
    if !names.contains_key(id) {
        Seq::empty()
    } else {
        let name = names[id]@;
        let temperature = if st.temperature != 0 {
            rf_line("sensor_temperature"@, id, name, reading_text(st.temperature as int))
        } else {
            Seq::empty()
        };
        let humidity = if st.humidity != 0 {
            rf_line("sensor_humidity"@, id, name, decimal_text(st.humidity as nat))
        } else {
            Seq::empty()
        };
        temperature + humidity
    }
}

fn push_rf_line(out: &mut String, metric: &str, id: &RfDeviceId, name: &String, value: &String)
    ensures
        final(out)@ == old(out)@ + rf_line(metric@, id.key_view(), name@, value@),
{
    let ghost start = out@;
    out.append(metric);
    out.append("{model=\"");
    out.append(id.name.as_str());
    out.append("\", id=\"");
    push_decimal(out, id.id as u128);
    out.append("\", channel=\"");
    push_decimal(out, id.channel as u128);
    out.append("\", name=\"");
    out.append(name.as_str());
    out.append("\"} ");
    out.append(value.as_str());
    out.append("\n");
    assert(out@ =~= start + rf_line(metric@, id.key_view(), name@, value@));
}

/// Appends the lines of a 433 MHz sensor.
pub fn format_rf_temp_state(
    out: &mut String,
    channel: &RfDeviceId,
    names: &Vec<(RfDeviceId, String)>,
    state: &TempState,
)
    ensures
        final(out)@ == old(out)@ + rf_temp_text(channel.key_view(), table_view(names@), *state),
{
    let ghost start = out@;
    reveal(rf_temp_text);
    let i = find(names, channel);
    proof {
        crate::table::lemma_index_of(names@, channel.key_view());
    }
    if i >= names.len() {
        assert(out@ =~= start + rf_temp_text(channel.key_view(), table_view(names@), *state));
        return;
    }
    let name = &names[i].1;
    if state.temperature != 0 {
        let v = reading_string(state.temperature);
        push_rf_line(out, "sensor_temperature", channel, name, &v);
    }
    if state.humidity != 0 {
        let mut v = String::new();
        push_decimal(&mut v, state.humidity as u128);
        push_rf_line(out, "sensor_humidity", channel, name, &v);
    }
    assert(out@ =~= start + rf_temp_text(channel.key_view(), table_view(names@), *state));
}

/// A line labelled with a smart-meter gateway's name.
pub open spec fn dsmr_line(metric: Seq<char>, device: Seq<char>, value: Seq<char>) -> Seq<char> {
    metric + "{name=\""@ + device + "\"} "@ + value + "\n"@
}

pub open spec fn or_zero(v: Option<i64>) -> int {
    match v {
        Some(x) => x as int,
        None => 0,
    }
}

pub open spec fn dsmr_opt_line(metric: Seq<char>, device: Seq<char>, v: Option<i64>, scale: int) -> Seq<
    char,
> {
    match v {
        Some(x) => dsmr_line(metric, device, reading_text(x * scale)),
        None => Seq::empty(),
    }
}

/// The sum of both tariff totals, when not zero.
pub open spec fn dsmr_sum_text(device: Seq<char>, st: DsmrState) -> Seq<char> {
    let total = or_zero(st.power_total_tariff_1) + or_zero(st.power_total_tariff_2);
    if total != 0 {
        dsmr_line("power_total_kwh"@, device, reading_text(total))
    } else {
        Seq::empty()
    }
}

/// Each tariff total, the power in W, and the gas and water totals, each
/// when reported.
pub open spec fn dsmr_fields_text(device: Seq<char>, st: DsmrState) -> Seq<char> {
    dsmr_opt_line("power_total_low_kwh"@, device, st.power_total_tariff_1, 1) + dsmr_opt_line(
        "power_total_high_kwh"@,
        device,
        st.power_total_tariff_2,
        1,
    ) + dsmr_opt_line("power_watts"@, device, st.power, 1000) + dsmr_opt_line(
        "gas_total_m3"@,
        device,
        st.gas_total,
        1,
    ) + dsmr_opt_line("water_total_m3"@, device, st.water_total, 1)
}

/// The lines of a smart-meter gateway.
#[verifier::opaque]
pub open spec fn dsmr_text(device: Seq<char>, st: DsmrState) -> Seq<char> {
    dsmr_sum_text(device, st) + dsmr_fields_text(device, st)
}

fn push_dsmr_line(out: &mut String, metric: &str, device: &str, v: i128)
    requires
        v > i128::MIN,
    ensures
        final(out)@ == old(out)@ + dsmr_line(metric@, device@, reading_text(v as int)),
{
    let ghost start = out@;
    out.append(metric);
    out.append("{name=\"");
    out.append(device);
    out.append("\"} ");
    push_reading(out, v);
    out.append("\n");
    assert(out@ =~= start + dsmr_line(metric@, device@, reading_text(v as int)));
}

fn push_dsmr_opt_line(out: &mut String, metric: &str, device: &str, v: Option<i64>, scale: i128)
    requires
        scale == 1 || scale == 1000,
    ensures
        final(out)@ == old(out)@ + dsmr_opt_line(metric@, device@, v, scale as int),
{
    match v {
        Some(x) => {
            assert(-0x8000_0000_0000_0000_000 < (x as i128) * scale) by (nonlinear_arith)
                requires
                    scale == 1 || scale == 1000,
                    -0x8000_0000_0000_0000 <= x,
            ;
            push_dsmr_line(out, metric, device, (x as i128) * scale);
        },
        None => {
            assert(out@ =~= out@ + Seq::<char>::empty());
        },
    }
}

fn push_dsmr_sum(out: &mut String, device: &str, state: &DsmrState)
    ensures
        final(out)@ == old(out)@ + dsmr_sum_text(device@, *state),
{
    let t1: i128 = match state.power_total_tariff_1 {
        Some(x) => x as i128,
        None => 0,
    };
    let t2: i128 = match state.power_total_tariff_2 {
        Some(x) => x as i128,
        None => 0,
    };
    if t1 + t2 != 0 {
        push_dsmr_line(out, "power_total_kwh", device, t1 + t2);
    } else {
        assert(out@ =~= out@ + Seq::<char>::empty());
    }
}

fn push_dsmr_fields(out: &mut String, device: &str, state: &DsmrState)
    ensures
        final(out)@ == old(out)@ + dsmr_fields_text(device@, *state),
{
    let ghost start = out@;
    let ghost d = device@;
    push_dsmr_opt_line(out, "power_total_low_kwh", device, state.power_total_tariff_1, 1);
    let ghost a = dsmr_opt_line("power_total_low_kwh"@, d, state.power_total_tariff_1, 1);
    push_dsmr_opt_line(out, "power_total_high_kwh", device, state.power_total_tariff_2, 1);
    let ghost b = a + dsmr_opt_line("power_total_high_kwh"@, d, state.power_total_tariff_2, 1);
    assert(out@ =~= start + b);
    push_dsmr_opt_line(out, "power_watts", device, state.power, 1000);
    let ghost c = b + dsmr_opt_line("power_watts"@, d, state.power, 1000);
    assert(out@ =~= start + c);
    push_dsmr_opt_line(out, "gas_total_m3", device, state.gas_total, 1);
    let ghost e = c + dsmr_opt_line("gas_total_m3"@, d, state.gas_total, 1);
    assert(out@ =~= start + e);
    push_dsmr_opt_line(out, "water_total_m3", device, state.water_total, 1);
    assert(out@ =~= start + dsmr_fields_text(device@, *state));
}

/// Appends the lines of a smart-meter gateway.
pub fn format_dsmr_state(out: &mut String, device: &str, state: &DsmrState)
    ensures
        final(out)@ == old(out)@ + dsmr_text(device@, *state),
{
    let ghost start = out@;
    reveal(dsmr_text);
    push_dsmr_sum(out, device, state);
    push_dsmr_fields(out, device, state);
    assert(out@ =~= start + dsmr_text(device@, *state));
}


/// The lines of all switches and meters, in table order.
pub open spec fn devices_text(e: Seq<(Device, DeviceState)>) -> Seq<char>
    decreases e.len(),
{
    if e.len() == 0 {
        Seq::empty()
    } else {
        devices_text(e.drop_last()) + device_text(e.last().0.hostname@, e.last().1@)
    }
}

/// The lines of all smart-meter gateways, in table order.
pub open spec fn dsmrs_text(e: Seq<(Device, DsmrState)>) -> Seq<char>
    decreases e.len(),
{
    if e.len() == 0 {
        Seq::empty()
    } else {
        dsmrs_text(e.drop_last()) + dsmr_text(e.last().0.hostname@, e.last().1)
    }
}

/// The lines of all Bluetooth sensors, in table order.
pub open spec fn mi_temps_text(e: Seq<(BDAddr, MiTempState)>, names: Map<Seq<u8>, String>) -> Seq<
    char,
>
    decreases e.len(),
{
    if e.len() == 0 {
        Seq::empty()
    } else {
        mi_temps_text(e.drop_last(), names) + mi_temp_text(e.last().0.address@, names, e.last().1)
    }
}

/// The lines of all 433 MHz sensors, in table order.
pub open spec fn rf_temps_text(
    e: Seq<(RfDeviceId, TempState)>,
    names: Map<(Seq<char>, u16, u8), String>,
) -> Seq<char>
    decreases e.len(),
{
    if e.len() == 0 {
        Seq::empty()
    } else {
        rf_temps_text(e.drop_last(), names) + rf_temp_text(e.last().0.key_view(), names, e.last().1)
    }
}

/// The whole exposition text of a registry snapshot.
pub open spec fn render_text(states: &DeviceStates, names: &NamesConfig) -> Seq<char> {
    devices_text(states.devices@) + dsmrs_text(states.dsmr_devices@) + mi_temps_text(
        states.mi_temp_devices@,
        table_view(names.mi_temp@),
    ) + rf_temps_text(states.rf_temp_devices@, table_view(names.rf_temp@))
}

fn push_devices(out: &mut String, e: &Vec<(Device, DeviceState)>)
    ensures
        final(out)@ == old(out)@ + devices_text(e@),
{
    let ghost a = out@;
    let mut i: usize = 0;
    while i < e.len()
        invariant
            i <= e.len(),
            out@ == a + devices_text(e@.take(i as int)),
        decreases e.len() - i,
    {
        assert(e@.take(i + 1).drop_last() == e@.take(i as int));
        format_device_state(out, &e[i].0, &e[i].1);
        assert(out@ =~= a + devices_text(e@.take(i + 1)));
        i = i + 1;
    }
    assert(e@.take(e.len() as int) == e@);
}

fn push_dsmrs(out: &mut String, d: &Vec<(Device, DsmrState)>)
    ensures
        final(out)@ == old(out)@ + dsmrs_text(d@),
{
    let ghost a = out@;
    let mut i: usize = 0;
    while i < d.len()
        invariant
            i <= d.len(),
            out@ == a + dsmrs_text(d@.take(i as int)),
        decreases d.len() - i,
    {
        assert(d@.take(i + 1).drop_last() == d@.take(i as int));
        format_dsmr_state(out, d[i].0.hostname.as_str(), &d[i].1);
        assert(out@ =~= a + dsmrs_text(d@.take(i + 1)));
        i = i + 1;
    }
    assert(d@.take(d.len() as int) == d@);
}

fn push_mi_temps(out: &mut String, m: &Vec<(BDAddr, MiTempState)>, names: &Vec<(BDAddr, String)>)
    ensures
        final(out)@ == old(out)@ + mi_temps_text(m@, table_view(names@)),
{
    let ghost b = out@;
    let mut i: usize = 0;
    while i < m.len()
        invariant
            i <= m.len(),
            out@ == b + mi_temps_text(m@.take(i as int), table_view(names@)),
        decreases m.len() - i,
    {
        assert(m@.take(i + 1).drop_last() == m@.take(i as int));
        format_mi_temp_state(out, &m[i].0, names, &m[i].1);
        assert(out@ =~= b + mi_temps_text(m@.take(i + 1), table_view(names@)));
        i = i + 1;
    }
    assert(m@.take(m.len() as int) == m@);
}

fn push_rf_temps(
    out: &mut String,
    f: &Vec<(RfDeviceId, TempState)>,
    names: &Vec<(RfDeviceId, String)>,
)
    ensures
        final(out)@ == old(out)@ + rf_temps_text(f@, table_view(names@)),
{
    let ghost c = out@;
    let mut i: usize = 0;
    while i < f.len()
        invariant
            i <= f.len(),
            out@ == c + rf_temps_text(f@.take(i as int), table_view(names@)),
        decreases f.len() - i,
    {
        assert(f@.take(i + 1).drop_last() == f@.take(i as int));
        format_rf_temp_state(out, &f[i].0, names, &f[i].1);
        assert(out@ =~= c + rf_temps_text(f@.take(i + 1), table_view(names@)));
        i = i + 1;
    }
    assert(f@.take(f.len() as int) == f@);
}

proof fn lemma_devices_text_append(a: Seq<(Device, DeviceState)>, b: Seq<(Device, DeviceState)>)
    ensures
        devices_text(a + b) == devices_text(a) + devices_text(b),
    decreases b.len(),
{
    if b.len() == 0 {
        assert(a + b == a);
        assert(devices_text(a) + devices_text(b) =~= devices_text(a));
    } else {
        lemma_devices_text_append(a, b.drop_last());
        assert((a + b).drop_last() == a + b.drop_last());
        assert((a + b).last() == b.last());
        assert(devices_text(a + b) =~= devices_text(a) + devices_text(b));
    }
}

/// Unnamed devices render nothing and leave the lines of the others as
/// they are: a switch with no name has no lines, wherever it stands in
/// the table, and so has a sensor missing from its names table.
pub proof fn lemma_unnamed_render_nothing(
    a: Seq<(Device, DeviceState)>,
    x: (Device, DeviceState),
    b: Seq<(Device, DeviceState)>,
    addr: Seq<u8>,
    mi_names: Map<Seq<u8>, String>,
    m: MiTempState,
    id: (Seq<char>, u16, u8),
    rf_names: Map<(Seq<char>, u16, u8), String>,
    r: TempState,
)
    ensures
        x.1.name@.len() == 0 ==> device_text(x.0.hostname@, x.1@) == Seq::<char>::empty(),
        x.1.name@.len() == 0 ==> devices_text(a + seq![x] + b) == devices_text(a + b),
        !mi_names.contains_key(addr) ==> mi_temp_text(addr, mi_names, m) == Seq::<char>::empty(),
        !rf_names.contains_key(id) ==> rf_temp_text(id, rf_names, r) == Seq::<char>::empty(),
{
    reveal(device_text);
    reveal(mi_temp_text);
    reveal(rf_temp_text);
    if x.1.name@.len() == 0 {
        lemma_devices_text_append(a + seq![x], b);
        lemma_devices_text_append(a, b);
        assert((a + seq![x]).drop_last() == a);
        assert(devices_text(a + seq![x]) =~= devices_text(a));
    }
}

/// Renders a registry snapshot: switches and meters, then gateways, then
/// the named Bluetooth and 433 MHz sensors.
pub fn render(states: &DeviceStates, names: &NamesConfig) -> (r: String)
    ensures
        r@ == render_text(states, names),
{
    let mut out = String::new();
    push_devices(&mut out, &states.devices);
    push_dsmrs(&mut out, &states.dsmr_devices);
    push_mi_temps(&mut out, &states.mi_temp_devices, &names.mi_temp);
    push_rf_temps(&mut out, &states.rf_temp_devices, &names.rf_temp);
    assert(out@ =~= render_text(states, names));
    out
}

} // verus!
