use taspromto::config::{default_mqtt_port, parse_mi_temp_names, parse_rf_temp_names, Credentials, NamesError};

#[test]
fn mi_temp_names_list() {
    let names = parse_mi_temp_names("391D5B=Living Room,00FF0A=Hall=ignored").unwrap();
    assert_eq!(2, names.len());
    assert_eq!("58:2D:34:39:1D:5B", names[0].0.to_string());
    assert_eq!("Living Room", names[0].1);
    assert_eq!("58:2D:34:00:FF:0A", names[1].0.to_string());
    assert_eq!("Hall", names[1].1);
    assert!(matches!(parse_mi_temp_names("391D5B"), Err(NamesError::InvalidMiTempNames)));
    assert!(matches!(parse_mi_temp_names("zz=x"), Err(NamesError::InvalidMiTempNames)));
    assert!(matches!(parse_mi_temp_names(""), Err(NamesError::InvalidMiTempNames)));
}

#[test]
fn rf_temp_names_list() {
    let names = parse_rf_temp_names("Bresser-3CH:49:1=Garden").unwrap();
    assert_eq!(1, names.len());
    assert_eq!("Bresser-3CH", names[0].0.name);
    assert_eq!(49, names[0].0.id);
    assert_eq!(1, names[0].0.channel);
    assert_eq!("Garden", names[0].1);
    assert!(matches!(parse_rf_temp_names("Bresser:x:1=G"), Err(NamesError::InvalidRfTempNames)));
}

#[test]
fn credentials_username() {
    let raw = Credentials::Raw {
        username: "me".to_string(),
        password: "SECRET-REDACTED".to_string(),
    };
    let file = Credentials::File {
        username: "you".to_string(),
        password_file: "/run/secret".to_string(),
    };
    assert_eq!("me", raw.username());
    assert_eq!("you", file.username());
    assert_eq!(1883, default_mqtt_port());
}
