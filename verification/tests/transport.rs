use embedded_toolbox::error::ErrorCode;
use embedded_toolbox::model::{FlowControl, Parity, SerialConfig};
use embedded_toolbox::transport::{
    describe_port, line_settings, DataBits, LineSettings, PortKind, StopBits,
};

#[test]
fn lines_are_set_up_as_configured() {
    let config = SerialConfig {
        data_bits: 7,
        stop_bits: 2,
        parity: Parity::Even,
        flow_control: FlowControl::Software,
        timeout_ms: 0,
        ..SerialConfig::default()
    };
    assert_eq!(
        line_settings(&config).unwrap(),
        LineSettings {
            baud_rate: 115_200,
            data_bits: DataBits::Seven,
            stop_bits: StopBits::Two,
            parity: Parity::Even,
            flow_control: FlowControl::Software,
            timeout_ms: 1,
        }
    );
}

#[test]
fn impossible_lines_are_refused() {
    let wide = SerialConfig { data_bits: 9, ..SerialConfig::default() };
    let error = line_settings(&wide).unwrap_err();
    assert_eq!(error.code, ErrorCode::ProjectSchemaInvalid.as_str());
    assert_eq!(error.message_key, "data_bits_invalid");
    let stopless = SerialConfig { stop_bits: 0, ..SerialConfig::default() };
    assert_eq!(line_settings(&stopless).unwrap_err().message_key, "stop_bits_invalid");
}

#[test]
fn ports_are_described_by_their_kind() {
    let usb = describe_port(
        "COM1".to_string(),
        PortKind::Usb {
            vid: 1,
            pid: 2,
            manufacturer: None,
            product: Some("probe".to_string()),
            serial_number: None,
        },
    );
    assert_eq!((usb.kind.as_str(), usb.vid, usb.pid), ("usb", Some(1), Some(2)));
    assert_eq!(usb.product.as_deref(), Some("probe"));
    let kind = |kind| describe_port("COM2".to_string(), kind).kind;
    assert_eq!(kind(PortKind::Bluetooth), "bluetooth");
    assert_eq!(kind(PortKind::Pci), "pci");
    assert_eq!(kind(PortKind::Unknown), "unknown");
    assert_eq!(describe_port("COM2".to_string(), PortKind::Pci).vid, None);
}
