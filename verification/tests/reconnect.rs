use embedded_toolbox::ident::Uuid;
use embedded_toolbox::model::{SerialConfig, SerialPortDescriptor};
use embedded_toolbox::reconnect::{
    optional_text_matches, same_serial_device, select_reconnect_config_from_ports,
    SerialReconnectPlan,
};

fn port(name: &str, serial_number: Option<&str>) -> SerialPortDescriptor {
    SerialPortDescriptor {
        name: name.to_string(),
        kind: "usb".to_string(),
        vid: Some(0x1A86),
        pid: Some(0x7523),
        manufacturer: Some("wch.cn".to_string()),
        product: Some("USB-SERIAL CH340".to_string()),
        serial_number: serial_number.map(str::to_string),
    }
}

fn plan(name: &str, device: Option<SerialPortDescriptor>) -> SerialReconnectPlan {
    SerialReconnectPlan {
        source_id: Uuid::now_v7(),
        config: SerialConfig {
            port_name: name.to_string(),
            ..SerialConfig::default()
        },
        device,
        next_attempt_ns: 0,
    }
}

#[test]
fn reconnect_uses_usb_identity_when_the_com_name_changes() {
    let source_id = Uuid::now_v7();
    let config = SerialConfig {
        port_name: "COM10".to_string(),
        ..SerialConfig::default()
    };
    let plan = SerialReconnectPlan {
        source_id,
        config,
        device: Some(SerialPortDescriptor {
            name: "COM10".to_string(),
            kind: "usb".to_string(),
            vid: Some(0x1A86),
            pid: Some(0x7523),
            manufacturer: Some("wch.cn".to_string()),
            product: Some("USB-SERIAL CH340".to_string()),
            serial_number: None,
        }),
        next_attempt_ns: 0,
    };
    let ports = vec![SerialPortDescriptor {
        name: "COM11".to_string(),
        kind: "usb".to_string(),
        vid: Some(0x1A86),
        pid: Some(0x7523),
        manufacturer: Some("wch.cn".to_string()),
        product: Some("USB-SERIAL CH340".to_string()),
        serial_number: None,
    }];

    let selected = select_reconnect_config_from_ports(&plan, &ports).unwrap();
    assert_eq!(selected.port_name, "COM11");
}

#[test]
fn a_serial_number_decides() {
    let known = port("COM1", Some("A"));
    assert!(same_serial_device(&known, &port("COM9", Some("A"))));
    assert!(!same_serial_device(&known, &port("COM1", Some("B"))));
    assert!(!same_serial_device(&known, &port("COM1", None)));
    let plan = plan("COM1", Some(known));
    let ports = vec![port("COM1", Some("B")), port("COM2", Some("A"))];
    let selected = select_reconnect_config_from_ports(&plan, &ports).unwrap();
    assert_eq!(selected.port_name, "COM2");
}

#[test]
fn a_port_without_identity_is_known_by_its_name() {
    let mut plain = port("ttyS0", None);
    plain.vid = None;
    plain.pid = None;
    let mut other = plain.clone();
    other.name = "TTYS0".to_string();
    assert!(same_serial_device(&plain, &other));
    other.kind = "pci".to_string();
    assert!(!same_serial_device(&plain, &other));
}

#[test]
fn the_name_helps_when_no_device_is_remembered() {
    let ports = vec![port("COM7", None), port("com8", None)];
    let selected = select_reconnect_config_from_ports(&plan("COM8", None), &ports).unwrap();
    assert_eq!(selected.port_name, "com8");
    assert!(select_reconnect_config_from_ports(&plan("COM9", None), &ports).is_none());
}

#[test]
fn unknown_texts_contradict_nothing() {
    let text = |text: &str| Some(text.to_string());
    assert!(optional_text_matches(&None, &text("a")));
    assert!(optional_text_matches(&text("a"), &text("a")));
    assert!(!optional_text_matches(&text("a"), &text("b")));
}
