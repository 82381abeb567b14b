use embedded_toolbox::error::ErrorCode;
use embedded_toolbox::ident::Uuid;
use embedded_toolbox::model::{
    FlowControl, Parity, SerialConfig, SessionSnapshot, SessionStatus, SyntheticConfig,
    ToolboxProject,
};
use embedded_toolbox::project::{demo_with, serial_semantics_equal, validate_project, DemoIds};
use std::sync::Arc;

fn demo() -> ToolboxProject<f64> {
    ToolboxProject::demo(0.18, 0.0, 100.0)
}

#[test]
fn the_first_project_is_valid() {
    let project = demo();
    assert!(validate_project(&project).is_ok());
    assert_eq!(project.name, "PID Loop Demo");
    let kinds: Vec<&str> = project.views.iter().map(|view| view.kind.as_str()).collect();
    assert_eq!(kinds, ["terminal", "plotter", "packets", "pidtuner"]);
    assert_eq!(project.pid_profiles[0].kd_max, 100.0);
    assert_eq!(project.commands[0].text_template, "PID,{kp},{ki},{kd}\r\n");
}

#[test]
fn other_versions_are_refused() {
    let mut project = demo();
    project.pipeline_semantic_version = "2.0.0".to_string();
    let error = validate_project(&project).unwrap_err();
    assert_eq!(error.code, ErrorCode::PipelineVersionUnsupported.as_str());
    project.project_schema_version = "2.0.0".to_string();
    let error = validate_project(&project).unwrap_err();
    assert_eq!(error.code, ErrorCode::ProjectSchemaInvalid.as_str());
    assert_eq!(error.message_key, "project_schema_unsupported");
}

#[test]
fn repeated_identifiers_are_refused_wherever_they_stand() {
    let mut project = demo();
    let mut views = (*project.views).clone();
    views[3].id = project.channels[1].transforms[0].id();
    project.views = Arc::new(views);
    let error = validate_project(&project).unwrap_err();
    assert_eq!(error.code, ErrorCode::ProjectSchemaInvalid.as_str());
    assert_eq!(error.message_key, "duplicate_stable_id");
    let mut framed = demo();
    framed.source.serial.id = framed.framer.id();
    assert!(validate_project(&framed).is_err());
    let mut decoded = demo();
    decoded.source.id = decoded.decoder.id();
    assert!(validate_project(&decoded).is_err());
}

#[test]
fn only_what_shapes_the_bytes_counts_as_line_semantics() {
    let left = SerialConfig::default();
    let mut right = SerialConfig::default();
    right.port_name = "COM9".to_string();
    right.timeout_ms = 99;
    right.id = Uuid::nil();
    assert!(serial_semantics_equal(&left, &right));
    assert!(!serial_semantics_equal(&left, &SerialConfig { baud_rate: 9_600, ..left.clone() }));
    assert!(!serial_semantics_equal(&left, &SerialConfig { data_bits: 7, ..left.clone() }));
    assert!(!serial_semantics_equal(&left, &SerialConfig { stop_bits: 2, ..left.clone() }));
    assert!(!serial_semantics_equal(&left, &SerialConfig { parity: Parity::Odd, ..left.clone() }));
    assert!(!serial_semantics_equal(
        &left,
        &SerialConfig { flow_control: FlowControl::Hardware, ..left.clone() }
    ));
}

#[test]
fn defaults_are_as_documented() {
    let serial = SerialConfig::default();
    assert_eq!(serial.baud_rate, 115_200);
    assert_eq!((serial.data_bits, serial.stop_bits, serial.timeout_ms), (8, 1, 20));
    let synthetic = SyntheticConfig::default();
    assert_eq!((synthetic.rate_hz, synthetic.seed), (50, 0x5eed));
    assert_eq!(SessionSnapshot::default().status, SessionStatus::Idle);
    assert_eq!(demo().framer.max_frame_bytes(), 65_536);
}

#[test]
fn the_first_project_uses_the_identifiers_it_is_given() {
    let id = |value| Uuid { value };
    let ids = DemoIds {
        project: id(1),
        source: id(2),
        serial: id(3),
        framer: id(4),
        decoder: id(5),
        setpoint: id(6),
        measured: id(7),
        smoothing: id(8),
        output: id(9),
        command: id(10),
        profile: id(11),
        terminal: id(12),
        plotter: id(13),
        packets: id(14),
        tuner: id(15),
    };
    let project = demo_with(&ids, 0.18, 0.0, 100.0);
    assert!(validate_project(&project).is_ok());
    assert_eq!(project.id, id(1));
    assert_eq!(project.source.id, id(2));
    let channels: Vec<Uuid> = project.channels.iter().map(|channel| channel.id).collect();
    assert_eq!(channels, [id(6), id(7), id(9)]);
    let views: Vec<Uuid> = project.views.iter().map(|view| view.id).collect();
    assert_eq!(views, [id(12), id(13), id(14), id(15)]);
    let repeated = DemoIds { tuner: id(1), ..ids };
    assert!(validate_project(&demo_with(&repeated, 0.18, 0.0, 100.0)).is_err());
}
