use taspromto::config::NamesConfig;
use taspromto::device::{Device, DsmrMessageType};
use taspromto::ident::{BDAddr, RfDeviceId};
use taspromto::ingest::Command;
use taspromto::json::{parse_payload, Json, JsonNumber};
use taspromto::registry::{DeviceStates, PING_AFTER, REMOVE_AFTER};
use taspromto::render::render;
use taspromto::topic::Topic;

fn obj(members: Vec<(&str, Json)>) -> Json {
    Json::Object(
        members
            .into_iter()
            .map(|(k, v)| (k.to_string(), v))
            .collect(),
    )
}

fn num(mantissa: u64, exponent: i16) -> Json {
    Json::Number(JsonNumber {
        positive: true,
        mantissa,
        exponent,
    })
}

fn text(s: &str) -> Json {
    Json::Text(s.to_string())
}

fn dev(name: &str) -> Device {
    Device {
        hostname: name.to_string(),
    }
}

fn rf_entry<'a>(states: &'a DeviceStates, name: &str, id: u16, channel: u8) -> Option<(i64, u8)> {
    states
        .rf_temp()
        .iter()
        .find(|(k, _)| k.name == name && k.id == id && k.channel == channel)
        .map(|(_, s)| (s.temperature, s.humidity))
}

#[test]
fn sparse_merge_keeps_other_fields() {
    let mut states = DeviceStates::new();
    states.update(
        dev("plug"),
        &obj(vec![
            ("DeviceName", text("Kitchen")),
            ("ENERGY", obj(vec![("Power", num(12, 0)), ("Today", num(15, -1))])),
        ]),
        10,
    );
    states.update(dev("plug"), &obj(vec![("POWER", text("ON"))]), 20);
    let (_, st) = &states.devices()[0];
    assert_eq!("Kitchen", st.name);
    assert_eq!(Some(12_000_000), st.power_watts);
    assert_eq!(Some(1_500_000), st.power_today);
    assert_eq!(Some(true), st.state);
    assert_eq!(20, st.last_seen);
    states.update(dev("plug"), &obj(vec![("ENERGY", obj(vec![("Power", num(3, 0))]))]), 30);
    let (_, st) = &states.devices()[0];
    assert_eq!(Some(3_000_000), st.power_watts);
    assert_eq!(Some(1_500_000), st.power_today);
    assert_eq!(Some(true), st.state);
    assert_eq!(1, states.devices().len());
}

#[test]
fn obis_power_overrides_energy_power() {
    let mut states = DeviceStates::new();
    states.update(
        dev("meter"),
        &obj(vec![
            ("ENERGY", obj(vec![("Power", num(1, 0))])),
            ("OBIS", obj(vec![("Power", num(2, 0)), ("Total", num(1234, -1))])),
        ]),
        1,
    );
    let (_, st) = &states.devices()[0];
    assert_eq!(Some(2_000_000), st.power_watts);
    assert_eq!(Some(123_400_000), st.power_total);
}

#[test]
fn wrong_types_are_skipped() {
    let mut states = DeviceStates::new();
    states.update(
        dev("plug"),
        &obj(vec![
            ("DeviceName", num(5, 0)),
            ("POWER", text("")),
            ("ENERGY", obj(vec![("Power", text("12"))])),
        ]),
        5,
    );
    let (_, st) = &states.devices()[0];
    assert_eq!("", st.name);
    assert_eq!(None, st.state);
    assert_eq!(None, st.power_watts);
    assert_eq!(5, st.last_seen);
}

#[test]
fn co2_guard() {
    let mut states = DeviceStates::new();
    let co2 = |m: u64, e: i16| obj(vec![("MHZ19B", obj(vec![("CarbonDioxide", num(m, e))]))]);
    states.update(dev("air"), &co2(1, 0), 1);
    assert_eq!(None, states.devices()[0].1.co2);
    states.update(dev("air"), &co2(415, 0), 2);
    assert_eq!(Some(415_000_000), states.devices()[0].1.co2);
    states.update(dev("air"), &co2(5, -1), 3);
    assert_eq!(Some(415_000_000), states.devices()[0].1.co2);
    states.update(dev("air"), &co2(1001, -3), 4);
    assert_eq!(Some(1_001_000), states.devices()[0].1.co2);
    states.update(dev("air"), &co2(10, -1), 5);
    assert_eq!(Some(1_001_000), states.devices()[0].1.co2);
    states.update(dev("air"), &co2(10000001, -7), 6);
    assert_eq!(Some(1_000_000), states.devices()[0].1.co2);
}

#[test]
fn firmware_version_is_parsed() {
    let mut states = DeviceStates::new();
    states.update(
        dev("plug"),
        &obj(vec![("StatusFWR", obj(vec![("Version", text("9.1.0(tasmota)"))]))]),
        1,
    );
    let (_, st) = &states.devices()[0];
    assert_eq!("9.1.0(tasmota)", st.firmware);
    assert_eq!(9_100_000, st.version);
}

#[test]
fn pms_counts_are_merged() {
    let mut states = DeviceStates::new();
    states.update(
        dev("air"),
        &obj(vec![("PMS5003", obj(vec![("CF1", num(6, 0)), ("PM2.5", num(8, 0))]))]),
        1,
    );
    states.update(dev("air"), &obj(vec![("PMS5003", obj(vec![("CF1", num(7, 0))]))]), 2);
    let pms = states.devices()[0].1.pms_state.unwrap();
    assert_eq!(7, pms.cf1);
    assert_eq!(8, pms.pm2_5);
    assert_eq!(0, pms.pb10);
}

#[test]
fn relayed_ble_sensor_is_updated() {
    let mut states = DeviceStates::new();
    states.update(
        dev("bridge"),
        &obj(vec![
            (
                "MJ_HT_V1-391D5B",
                obj(vec![
                    ("Temperature", num(162, -1)),
                    ("Humidity", num(61, 0)),
                    ("Battery", num(100, 0)),
                ]),
            ),
            ("MJ_HT_V1-zz", obj(vec![("Temperature", num(1, 0))])),
        ]),
        7,
    );
    assert_eq!(1, states.mi_temp().len());
    let (addr, st) = &states.mi_temp()[0];
    assert_eq!("58:2D:34:39:1D:5B", addr.to_string());
    assert_eq!(16_200_000, st.temperature);
    assert_eq!(61_000_000, st.humidity);
    assert_eq!(100, st.battery);
    assert_eq!(7, st.last_seen);
    states.update(
        dev("bridge"),
        &obj(vec![("MJ_HT_V1391D5B", obj(vec![("Battery", num(300, 0))]))]),
        9,
    );
    let (_, st) = &states.mi_temp()[0];
    assert_eq!(100, st.battery);
    assert_eq!(16_200_000, st.temperature);
    assert_eq!(9, st.last_seen);
}

#[test]
fn dsmr_readings() {
    let mut states = DeviceStates::new();
    states.update_dsmr(dev("meter"), DsmrMessageType::Energy1, "1234.567", 5);
    states.update_dsmr(dev("meter"), DsmrMessageType::Power, "0.42", 6);
    states.update_dsmr(dev("meter"), DsmrMessageType::Gas, "garbage", 7);
    let (_, st) = &states.dsmr_devices()[0];
    assert_eq!(Some(1_234_567_000), st.power_total_tariff_1);
    assert_eq!(Some(420_000), st.power);
    assert_eq!(None, st.gas_total);
    assert_eq!(6, st.last_seen);
}

#[test]
fn rf_record_sets_sensor() {
    let mut states = DeviceStates::new();
    states.update_rf("20;1E;Bresser-3CH;ID=49;CHN=0001;BAT=OK;TEMP=00a1;HUM=58;");
    states.update_rf("not a record");
    assert_eq!(Some((16_100_000, 58)), rf_entry(&states, "Bresser-3CH", 49, 1));
    assert_eq!(1, states.rf_temp().len());
}

#[test]
fn rtl_fields_in_order() {
    let mut states = DeviceStates::new();
    states.update_rtl("deviceA", "id", "7");
    states.update_rtl("deviceA", "channel", "2");
    states.update_rtl("deviceA", "temperature_F", "98.6");
    assert_eq!(Some((37_000_000, 0)), rf_entry(&states, "deviceA", 7, 2));
    states.update_rtl("deviceA", "humidity", "45");
    assert_eq!(Some((37_000_000, 45)), rf_entry(&states, "deviceA", 7, 2));
}

#[test]
fn rtl_reading_before_identity() {
    let mut states = DeviceStates::new();
    states.update_rtl("deviceA", "temperature_F", "98.6");
    states.update_rtl("deviceA", "id", "7");
    states.update_rtl("deviceA", "channel", "2");
    assert_eq!(Some((37_000_000, 0)), rf_entry(&states, "deviceA", 0, 0));
    assert_eq!(None, rf_entry(&states, "deviceA", 7, 2));
}

#[test]
fn rtl_new_name_resets_identity() {
    let mut states = DeviceStates::new();
    states.update_rtl("deviceA", "id", "7");
    states.update_rtl("deviceB", "humidity", "50");
    states.update_rtl("deviceB", "temperature_F", "bad");
    assert_eq!(Some((0, 50)), rf_entry(&states, "deviceB", 0, 0));
    states.update_rtl("deviceB", "id", "x");
    assert_eq!(0, states.active_rf_temp_id.id);
    states.update_rtl("deviceB", "pressure", "1");
    assert_eq!(1, states.rf_temp().len());
}

fn named(states: &mut DeviceStates, host: &str, at: u64) {
    states.update(dev(host), &obj(vec![("DeviceName", text(host))]), at);
}

#[test]
fn eviction_timing() {
    let t = 10_000;
    let mut a = DeviceStates::new();
    named(&mut a, "plug", t);
    assert!(a.sweep(t + PING_AFTER - 1, PING_AFTER, REMOVE_AFTER).is_empty());
    assert_eq!(1, a.devices().len());
    let probes = a.sweep(t + PING_AFTER + 1, PING_AFTER, REMOVE_AFTER);
    assert_eq!(vec![dev("plug")], probes);
    assert_eq!(1, a.devices().len());
    assert!(a.sweep(t + REMOVE_AFTER + 1, PING_AFTER, REMOVE_AFTER).is_empty());
    assert_eq!(0, a.devices().len());
}

#[test]
fn unnamed_switch_is_probed() {
    let mut states = DeviceStates::new();
    states.update(dev("plug"), &obj(vec![]), 100);
    assert_eq!(vec![dev("plug")], states.sweep(101, PING_AFTER, REMOVE_AFTER));
}

#[test]
fn sweep_forgets_silent_ble_keeps_rf_and_dsmr() {
    let mut states = DeviceStates::new();
    states.update(
        dev("bridge"),
        &obj(vec![("MJ_HT_V1-391D5B", obj(vec![("Temperature", num(20, 0))]))]),
        0,
    );
    states.update_rf("20;1E;X;ID=1;CHN=1;BAT=OK;TEMP=00a1;HUM=58;");
    states.update_dsmr(dev("meter"), DsmrMessageType::Water, "1", 0);
    states.retain(50, 40);
    assert_eq!(0, states.mi_temp().len());
    assert_eq!(0, states.devices().len());
    assert_eq!(1, states.rf_temp().len());
    assert_eq!(1, states.dsmr_devices().len());
}

#[test]
fn lwt_asks_for_state() {
    let mut states = DeviceStates::new();
    let cmds = states.handle(Topic::classify("tele/plug/LWT"), "Online", None, 1);
    let pairs: Vec<(String, String)> = cmds.into_iter().map(|c| (c.topic, c.body)).collect();
    assert_eq!(
        vec![
            ("cmnd/plug/POWER".to_string(), "".to_string()),
            ("cmnd/plug/DeviceName".to_string(), "".to_string()),
            ("cmnd/plug/Status".to_string(), "2".to_string()),
        ],
        pairs
    );
    let probe: Command = Command::probe(&dev("plug"));
    assert_eq!("cmnd/plug/DeviceName", probe.topic);
    assert_eq!("", probe.body);
}

#[test]
fn handle_routes_messages() {
    let mut states = DeviceStates::new();
    let json = obj(vec![("DeviceName", text("Lamp"))]);
    assert!(states
        .handle(Topic::classify("tele/lamp/SENSOR"), "", Some(&json), 3)
        .is_empty());
    states.handle(Topic::classify("meter/water"), "12.5", None, 4);
    states.handle(Topic::classify("rtl_433/dev/humidity"), "40", None, 5);
    states.handle(Topic::classify("stat/lamp/RESULT"), "not json", None, 6);
    assert_eq!("Lamp", states.devices()[0].1.name);
    assert_eq!(3, states.devices()[0].1.last_seen);
    assert_eq!(Some(12_500_000), states.dsmr_devices()[0].1.water_total);
    assert_eq!(Some((0, 40)), rf_entry(&states, "dev", 0, 0));
}

#[test]
fn render_named_devices() {
    let mut states = DeviceStates::new();
    states.update(
        dev("plug"),
        &obj(vec![
            ("DeviceName", text("Kitchen")),
            ("POWER", text("ON")),
            ("ENERGY", obj(vec![("Power", num(125, -1))])),
        ]),
        1,
    );
    states.update(dev("nameless"), &obj(vec![("POWER", text("OFF"))]), 1);
    states.update_dsmr(dev("meter"), DsmrMessageType::Energy1, "10.5", 1);
    states.update_dsmr(dev("meter"), DsmrMessageType::Energy2, "2", 1);
    states.update_dsmr(dev("meter"), DsmrMessageType::Power, "0.25", 1);
    states.update(
        dev("bridge"),
        &obj(vec![
            ("MJ_HT_V1-391D5B", obj(vec![("Temperature", num(162, -1)), ("Battery", num(99, 0))])),
            ("MJ_HT_V1-000001", obj(vec![("Temperature", num(5, 0))])),
        ]),
        1,
    );
    states.update_rf("20;1E;Bresser-3CH;ID=49;CHN=0001;BAT=OK;TEMP=00a1;HUM=58;");
    states.update_rf("20;1E;Other;ID=1;CHN=1;BAT=OK;TEMP=00a1;HUM=58;");
    let names = NamesConfig {
        mi_temp: vec![(BDAddr::from_mi_temp_mac_part("391D5B").unwrap(), "Living Room".to_string())],
        rf_temp: vec![(RfDeviceId::parse("Bresser-3CH:49:1").unwrap(), "Garden".to_string())],
    };
    let out = render(&states, &names);
    let expected = [
        "tasmota_online{tasmota_id=\"plug\", name=\"Kitchen\"} 1\n",
        "switch_state{tasmota_id=\"plug\", name=\"Kitchen\"} 1\n",
        "power_watts{tasmota_id=\"plug\", name=\"Kitchen\"} 12.5\n",
        "power_total_kwh{name=\"meter\"} 12.5\n",
        "power_total_low_kwh{name=\"meter\"} 10.5\n",
        "power_total_high_kwh{name=\"meter\"} 2\n",
        "power_watts{name=\"meter\"} 250\n",
        "sensor_battery{mac=\"58:2D:34:39:1D:5B\", name=\"Living Room\"} 99\n",
        "sensor_temperature{mac=\"58:2D:34:39:1D:5B\", name=\"Living Room\"} 16.2\n",
        "sensor_temperature{model=\"Bresser-3CH\", id=\"49\", channel=\"1\", name=\"Garden\"} 16.1\n",
        "sensor_humidity{model=\"Bresser-3CH\", id=\"49\", channel=\"1\", name=\"Garden\"} 58\n",
    ]
    .concat();
    assert_eq!(expected, out);
}

#[test]
fn render_firmware_and_pms() {
    let mut states = DeviceStates::new();
    states.update(
        dev("air"),
        &obj(vec![
            ("DeviceName", text("Air")),
            ("StatusFWR", obj(vec![("Version", text("12.0.2"))])),
            ("PMS5003", obj(vec![("PM10", num(8, 0))])),
        ]),
        1,
    );
    let names = NamesConfig {
        mi_temp: vec![],
        rf_temp: vec![],
    };
    let out = render(&states, &names);
    assert!(out.starts_with("tasmota_online{tasmota_id=\"air\", name=\"Air\"} 1\ncf1{tasmota_id=\"air\", name=\"Air\"} 0\n"));
    assert!(out.contains("pm10{tasmota_id=\"air\", name=\"Air\"} 8\n"));
    assert!(out.ends_with(
        "tasmota_version{tasmota_id=\"air\", name=\"Air\", firmware=\"12.0.2\", version=\"12\"} 1\n"
    ));
    assert_eq!(14, out.lines().count());
}

#[test]
fn unnamed_devices_render_nothing() {
    let mut states = DeviceStates::new();
    states.update(dev("nameless"), &obj(vec![("POWER", text("ON"))]), 1);
    states.update_rf("20;1E;X;ID=1;CHN=1;BAT=OK;TEMP=00a1;HUM=58;");
    let names = NamesConfig {
        mi_temp: vec![],
        rf_temp: vec![],
    };
    assert_eq!("", render(&states, &names));
}

#[test]
fn json_text_payloads_are_decoded() {
    let mut states = DeviceStates::new();
    let cmds = states.ingest(
        Topic::classify("tele/plug/SENSOR"),
        r#"{"ENERGY":{"Power":12.5,"Today":0.42},"MJ_HT_V1-391D5B":{"Temperature":-3.5,"Battery":87},"DeviceName":"Desk"}"#,
        11,
    );
    assert!(cmds.is_empty());
    let (_, st) = &states.devices()[0];
    assert_eq!("Desk", st.name);
    assert_eq!(Some(12_500_000), st.power_watts);
    assert_eq!(Some(420_000), st.power_today);
    let (_, ble) = &states.mi_temp()[0];
    assert_eq!(-3_500_000, ble.temperature);
    assert_eq!(87, ble.battery);
    states.ingest(Topic::classify("tele/plug/SENSOR"), "{not json", 12);
    assert_eq!(11, states.devices()[0].1.last_seen);
    assert!(matches!(parse_payload("[1, 2]"), Some(Json::Array(ref a)) if a.len() == 2));
    assert!(matches!(parse_payload("null"), Some(Json::Null)));
    assert!(matches!(
        parse_payload("-12.5"),
        Some(Json::Number(JsonNumber { positive: false, mantissa: 125, exponent: -1 }))
    ));
    assert!(parse_payload("").is_none());
    assert!(matches!(parse_payload("true"), Some(Json::Bool(true))));
    assert!(matches!(parse_payload("\"x\""), Some(Json::Text(ref t)) if t == "x"));
}

#[test]
fn ble_sensors_are_kept_in_address_order() {
    let mut states = DeviceStates::new();
    let reading = || obj(vec![("Temperature", num(1, 0))]);
    states.update(
        dev("bridge"),
        &obj(vec![
            ("MJ_HT_V1-000003", reading()),
            ("MJ_HT_V1-000001", reading()),
            ("MJ_HT_V1-000002", reading()),
            ("MJ_HT_V1-000001", reading()),
        ]),
        1,
    );
    let order: Vec<String> = states.mi_temp().iter().map(|(a, _)| a.to_string()).collect();
    assert_eq!(
        vec!["58:2D:34:00:00:01", "58:2D:34:00:00:02", "58:2D:34:00:00:03"],
        order
    );
}

#[test]
fn below_zero_readings_are_rendered() {
    let mut states = DeviceStates::new();
    states.ingest(
        Topic::classify("tele/bridge/SENSOR"),
        r#"{"MJ_HT_V1-391D5B":{"Temperature":-3.5}}"#,
        1,
    );
    states.update_rtl("deviceA", "temperature_F", "14");
    let names = NamesConfig {
        mi_temp: vec![(BDAddr::from_mi_temp_mac_part("391D5B").unwrap(), "Porch".to_string())],
        rf_temp: vec![(RfDeviceId::parse("deviceA:0:0").unwrap(), "Shed".to_string())],
    };
    assert_eq!(
        [
            "sensor_temperature{mac=\"58:2D:34:39:1D:5B\", name=\"Porch\"} -3.5\n",
            "sensor_temperature{model=\"deviceA\", id=\"0\", channel=\"0\", name=\"Shed\"} -10\n",
        ]
        .concat(),
        render(&states, &names)
    );
}
