use taspromto::ident::{parse_rf_payload, BDAddr, MacError, RfDeviceId, RfIdError, RfPayload};
use taspromto::number::{micros_of_number, number_exceeds_one, parse_reading, parse_unsigned};
use taspromto::render::reading_string;

fn chars(s: &str) -> Vec<char> {
    s.chars().collect()
}

#[test]
fn test_rf_payload() {
    assert_eq!(
        RfPayload {
            name: "Bresser-3CH".to_string(),
            id: 49,
            channel: 1,
            battery: true,
            temperature: 16_100_000,
            humidity: 58
        },
        parse_rf_payload("20;1E;Bresser-3CH;ID=49;CHN=0001;BAT=OK;TEMP=00a1;HUM=58;").unwrap()
    )
}

#[test]
fn rf_payload_rejects_missing_or_bad_fields() {
    assert!(parse_rf_payload("20;1E;Bresser-3CH;ID=49;CHN=0001;BAT=OK;TEMP=00a1").is_none());
    assert!(parse_rf_payload("20;1E;Bresser-3CH;ID=49;CHN=0001;BAT=OK;TEMP=zz;HUM=58;").is_none());
    assert!(parse_rf_payload("20;1E;Bresser-3CH;IX=49;CHN=0001;BAT=OK;TEMP=00a1;HUM=58;").is_none());
    assert!(parse_rf_payload("20;1E;Bresser-3CH;ID=49;CHN=300;BAT=OK;TEMP=00a1;HUM=58;").is_none());
    let low = parse_rf_payload("20;1E;X;ID=1;CHN=2;BAT=LOW;TEMP=0000;HUM=0").unwrap();
    assert!(!low.battery);
    assert_eq!(0, low.temperature);
}

#[test]
fn mac_part_decodes_with_vendor_prefix() {
    let a = BDAddr::from_mi_temp_mac_part("391D5B").unwrap();
    assert_eq!([0x5B, 0x1D, 0x39, 0x34, 0x2D, 0x58], a.address);
    assert_eq!("58:2D:34:39:1D:5B", a.to_string());
    assert_eq!(Ok(a), BDAddr::from_mi_temp_mac_part("391d5b"));
}

#[test]
fn mac_display_is_upper_case_most_significant_first() {
    let a = BDAddr {
        address: [0x5B, 0x1D, 0x39, 0x34, 0x2D, 0x58],
    };
    assert_eq!("58:2D:34:39:1D:5B", a.to_string());
    let b = BDAddr {
        address: [0x0a, 0xff, 0x00, 0x34, 0x2D, 0x58],
    };
    assert_eq!(b, BDAddr::from_mi_temp_mac_part("00FF0A").unwrap());
}

#[test]
fn mac_part_errors() {
    assert_eq!(Err(MacError::InvalidDigit), BDAddr::from_mi_temp_mac_part("39xx5B"));
    assert_eq!(Err(MacError::InvalidDigitCount), BDAddr::from_mi_temp_mac_part("391D"));
    assert_eq!(Err(MacError::InvalidDigitCount), BDAddr::from_mi_temp_mac_part("391D5B00"));
    assert_eq!(Err(MacError::InvalidDigitCount), BDAddr::from_mi_temp_mac_part("391D5B0-"));
    assert_eq!(Err(MacError::InvalidDigitCount), BDAddr::from_mi_temp_mac_part("391D5B7"));
    assert_eq!(Err(MacError::InvalidDigitCount), BDAddr::from_mi_temp_mac_part(""));
    assert_eq!(Err(MacError::InvalidDigit), BDAddr::from_mi_temp_mac_part("+F1D5B"));
    assert_eq!(Err(MacError::InvalidDigit), BDAddr::from_mi_temp_mac_part("391D5-"));
}

#[test]
fn rf_id_parses_name_id_channel() {
    let id = RfDeviceId::parse("Bresser-3CH:49:1").unwrap();
    assert_eq!("Bresser-3CH", id.name);
    assert_eq!(49, id.id);
    assert_eq!(1, id.channel);
    assert_eq!(Err(RfIdError::InvalidNumber), RfDeviceId::parse("Bresser-3CH:49"));
    assert_eq!(Err(RfIdError::InvalidNumber), RfDeviceId::parse("x:70000:1"));
    assert_eq!(Err(RfIdError::InvalidNumber), RfDeviceId::parse("x:1:1:2"));
    assert!(id.equals(&id.to_owned()));
}

#[test]
fn readings_parse_to_millionths() {
    assert_eq!(Some(16_100_000), parse_reading(&chars("16.1")));
    assert_eq!(Some(-12_750_000), parse_reading(&chars("-12.75")));
    assert_eq!(Some(1_234_567), parse_reading(&chars("1.2345678")));
    assert_eq!(Some(5_000_000), parse_reading(&chars("+5")));
    assert_eq!(Some(500_000), parse_reading(&chars(".5")));
    assert_eq!(Some(7_000_000), parse_reading(&chars("7.")));
    assert_eq!(None, parse_reading(&chars(".")));
    assert_eq!(None, parse_reading(&chars("")));
    assert_eq!(None, parse_reading(&chars("1.2.3")));
    assert_eq!(None, parse_reading(&chars("abc")));
    assert_eq!(None, parse_reading(&chars("2000000000")));
}

#[test]
fn unsigned_numbers() {
    assert_eq!(Some(161), parse_unsigned(&chars("00a1"), 16, 0xffff_ffff));
    assert_eq!(Some(1), parse_unsigned(&chars("0001"), 10, 255));
    assert_eq!(Some(7), parse_unsigned(&chars("+7"), 10, 255));
    assert_eq!(None, parse_unsigned(&chars("256"), 10, 255));
    assert_eq!(None, parse_unsigned(&chars("+"), 10, 255));
    assert_eq!(None, parse_unsigned(&chars("-1"), 10, 255));
}

#[test]
fn json_numbers_scale_to_millionths() {
    assert_eq!(Some(16_100_000), micros_of_number(true, 161, -1));
    assert_eq!(Some(-2_000_000), micros_of_number(false, 2, 0));
    assert_eq!(Some(1_000), micros_of_number(true, 1, -3));
    assert_eq!(Some(0), micros_of_number(true, 5, -7));
    assert_eq!(Some(300_000_000), micros_of_number(true, 3, 2));
    assert_eq!(None, micros_of_number(true, 1, 30));
}

#[test]
fn readings_render_shortest() {
    assert_eq!("16.1", reading_string(16_100_000));
    assert_eq!("37", reading_string(37_000_000));
    assert_eq!("-0.5", reading_string(-500_000));
    assert_eq!("0", reading_string(0));
    assert_eq!("1.000001", reading_string(1_000_001));
}

#[test]
fn numbers_above_one_are_compared_exactly() {
    assert!(number_exceeds_one(true, 10000001, -7));
    assert!(!number_exceeds_one(true, 10000000, -7));
    assert!(!number_exceeds_one(true, 1, 0));
    assert!(number_exceeds_one(true, 1, 1));
    assert!(number_exceeds_one(true, 2, 0));
    assert!(!number_exceeds_one(false, 5, 0));
    assert!(!number_exceeds_one(true, u64::MAX, -20));
    assert!(number_exceeds_one(true, u64::MAX, -19));
}
