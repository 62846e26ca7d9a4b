use taspromto::device::{Device, DsmrMessageType};
use taspromto::topic::Topic;

fn dev(name: &str) -> Device {
    Device {
        hostname: name.to_string(),
    }
}

#[test]
fn parse_topic() {
    let device = Device {
        hostname: "hostname".to_string(),
    };
    assert_eq!(Topic::Lwt(device.clone()), Topic::from("tele/hostname/LWT"));
    assert_eq!(
        Topic::Power(device.clone()),
        Topic::from("stat/hostname/POWER")
    );
    assert_eq!(
        Topic::State(device.clone()),
        Topic::from("tele/hostname/STATE")
    );
    assert_eq!(
        Topic::Sensor(device.clone()),
        Topic::from("tele/hostname/SENSOR")
    );
    assert_eq!(Topic::Result(device), Topic::from("stat/hostname/RESULT"));
}

#[test]
fn status_topics() {
    assert_eq!(Topic::Status(dev("h")), Topic::classify("stat/h/STATUS"));
    assert_eq!(Topic::Status(dev("h")), Topic::classify("stat/h/STATUS2"));
}

#[test]
fn msg_suffix_wins_over_three_segments() {
    assert_eq!(Topic::Msg(dev("tele/h")), Topic::classify("tele/h/msg"));
    assert_eq!(Topic::Msg(dev("rflink")), Topic::classify("rflink/msg"));
}

#[test]
fn rtl_topic_splits_device_and_field() {
    assert_eq!(
        Topic::Rtl(dev("Bresser-3CH"), "temperature_F".to_string()),
        Topic::classify("rtl_433/Bresser-3CH/temperature_F")
    );
    assert_eq!(
        Topic::Rtl(dev("a"), "b/c".to_string()),
        Topic::classify("rtl_433/a/b/c")
    );
    assert_eq!(
        Topic::Other("rtl_433/alone".to_string()),
        Topic::classify("rtl_433/alone")
    );
}

#[test]
fn dsmr_topics() {
    assert_eq!(Topic::Water(dev("meter")), Topic::classify("meter/water"));
    assert_eq!(Topic::Gas(dev("meter")), Topic::classify("meter/gas_delivered"));
    assert_eq!(
        Topic::Energy1(dev("meter")),
        Topic::classify("meter/energy_delivered_tariff1")
    );
    assert_eq!(
        Topic::Energy2(dev("meter")),
        Topic::classify("meter/energy_delivered_tariff2")
    );
    assert_eq!(
        Topic::DsmrPower(dev("meter")),
        Topic::classify("meter/power_delivered_l1")
    );
    assert!(matches!(
        Topic::classify("meter/water").dsmr_type(),
        Some(DsmrMessageType::Water)
    ));
    assert!(matches!(
        Topic::classify("meter/power_delivered_l1").dsmr_type(),
        Some(DsmrMessageType::Power)
    ));
    assert!(Topic::classify("tele/h/LWT").dsmr_type().is_none());
}

#[test]
fn unknown_topics_are_other() {
    assert_eq!(
        Topic::Other("tele/h/UNKNOWN".to_string()),
        Topic::classify("tele/h/UNKNOWN")
    );
    assert_eq!(Topic::Other("a/b".to_string()), Topic::classify("a/b"));
    assert_eq!(
        Topic::Other("stat/h/LWT".to_string()),
        Topic::classify("stat/h/LWT")
    );
    assert_eq!(Topic::Lwt(dev("h")), Topic::classify("tele/h/LWT/extra"));
}

#[test]
fn into_device_gives_the_subject() {
    assert_eq!(dev("h"), Topic::classify("tele/h/SENSOR").into_device());
    assert_eq!(dev("x/y"), Topic::classify("x/y").into_device());
    assert_eq!(dev("meter"), Topic::classify("meter/gas_delivered").into_device());
}

#[test]
fn device_topic() {
    assert_eq!("cmnd/plug/DeviceName", dev("plug").get_topic("cmnd", "DeviceName"));
}
