use embedded_toolbox::app_core::{AppCore, ReconnectStep};
use embedded_toolbox::error::ErrorCode;
use embedded_toolbox::ident::Uuid;
use embedded_toolbox::model::{
    ClockAnchor, SerialConfig, SerialPortDescriptor, SessionStatus, SourceSnapshot, SourceStatus,
    SyntheticConfig, ToolboxProject, TxRequest,
};
use embedded_toolbox::tx::TxAction;
use std::sync::Arc;

fn workbench() -> AppCore<f64> {
    AppCore::new(Arc::new(ToolboxProject::demo(0.18, 0.0, 100.0)))
}

fn anchor() -> ClockAnchor {
    ClockAnchor {
        utc_anchor_unix_ns: 1_000,
        monotonic_anchor_ns: 100,
    }
}

fn connect(core: &mut AppCore<f64>, config: SyntheticConfig) -> SourceSnapshot {
    let (project, endpoint) = core.connect_synthetic(&config).unwrap();
    let runtime = core.connect_runtime(&project, "synthetic".to_string(), endpoint, anchor());
    core.connected(runtime)
}

fn leave(core: &mut AppCore<f64>, source_id: Uuid) -> SourceSnapshot {
    core.disconnect(source_id, 1).unwrap();
    core.stop_leaving();
    core.left();
    core.disconnected(source_id)
}

fn serial(port_name: &str) -> SerialConfig {
    SerialConfig {
        port_name: port_name.to_string(),
        ..SerialConfig::default()
    }
}

fn connect_serial(core: &mut AppCore<f64>, config: &SerialConfig) -> SourceSnapshot {
    let project = core.connect_serial(config).unwrap();
    let endpoint = config.port_name.clone();
    let runtime = core.connect_runtime(&project, "serial".to_string(), endpoint, anchor());
    core.connected(runtime)
}

fn port(name: &str) -> SerialPortDescriptor {
    SerialPortDescriptor {
        name: name.to_string(),
        kind: "unknown".to_string(),
        vid: None,
        pid: None,
        manufacturer: None,
        product: None,
        serial_number: None,
    }
}

fn names(core: &mut AppCore<f64>) -> Vec<String> {
    core.store
        .take_pending()
        .iter()
        .map(|delivery| delivery.event.event_type.clone())
        .collect()
}

#[test]
fn product_limits_active_source_but_epoch_counter_advances() {
    let mut core = workbench();
    let first = connect(
        &mut core,
        SyntheticConfig {
            rate_hz: 2,
            ..SyntheticConfig::default()
        },
    );
    assert_eq!(first.source_epoch, 1);
    assert_eq!(
        core.connect_synthetic(&SyntheticConfig::default())
            .unwrap_err()
            .code,
        ErrorCode::ProductSourceLimit.as_str()
    );
    leave(&mut core, first.source_id);
    let second = connect(
        &mut core,
        SyntheticConfig {
            rate_hz: 2,
            ..SyntheticConfig::default()
        },
    );
    assert_eq!(second.source_epoch, 2);
    leave(&mut core, second.source_id);
}

#[test]
fn a_connection_is_told_from_beginning_to_end() {
    let mut core = workbench();
    let config = SyntheticConfig { rate_hz: 2, seed: 7, ..SyntheticConfig::default() };
    let source = connect(&mut core, config);
    assert_eq!(source.endpoint, "seed:7 @ 2 Hz");
    assert_eq!(source.status, SourceStatus::Connected);
    assert!(core.has_epoch_left(source.source_id));
    let last = leave(&mut core, source.source_id);
    assert_eq!(last.status, SourceStatus::Disconnected);
    assert_eq!(last.source_epoch, 1);
    assert_eq!(
        names(&mut core),
        ["source.connecting", "source.connected", "source.disconnected"]
    );
    let snapshot = core.get_snapshot();
    assert_eq!(snapshot.sources.len(), 1);
    assert_eq!(snapshot.event_cursor, 3);
}

#[test]
fn an_unknown_source_is_shown_as_little_as_is_known() {
    let mut core = workbench();
    let id = Uuid::now_v7();
    let last = core.disconnected(id);
    assert_eq!(last.name, "Source");
    assert_eq!(last.transport, "unknown");
    assert_eq!(last.source_epoch, 0);
    let error = core.disconnect(id, 1).unwrap_err();
    assert_eq!(error.code, ErrorCode::DeviceDisconnected.as_str());
    assert_eq!(error.source_id, Some(id));
}

#[test]
fn requests_reach_the_connected_source() {
    let mut core = workbench();
    let request = |source_id| TxRequest {
        source_id,
        payload: vec![1, 2],
        origin: "terminal".to_string(),
        not_before_unix_ms: None,
        deadline_unix_ms: None,
        min_gap_ms: None,
    };
    let nobody = Uuid::now_v7();
    assert_eq!(core.send(request(nobody)).unwrap_err().operation, "tx.enqueue");
    assert_eq!(core.cancel_tx(nobody, nobody).unwrap_err().operation, "tx.cancel");
    let source = connect(&mut core, SyntheticConfig::default());
    let accepted = core.send(request(source.source_id)).unwrap();
    core.cancel_tx(source.source_id, accepted.job_id).unwrap();
    assert_eq!(core.get_snapshot().sources[0].queue_depths.tx_bytes, 2);
    assert_eq!(names(&mut core).last().map(String::as_str), Some("tx.queued"));
}

#[test]
fn serial_settings_are_taken_over_into_the_project() {
    let mut core = workbench();
    let source = connect_serial(&mut core, &serial("COM3"));
    assert_eq!(core.store.project().source.serial.port_name, "COM3");
    assert_eq!(names(&mut core)[0], "project.changed");
    leave(&mut core, source.source_id);
}

#[test]
fn a_suspended_session_freezes_the_line() {
    let mut core = workbench();
    let source = connect_serial(&mut core, &serial("COM3"));
    let plan = core.start_session("a.etdb".to_string(), false, 0, 100).unwrap();
    core.session_started(plan.recorder, plan.epoch.unwrap());
    let frozen = core
        .set_project(Arc::new(ToolboxProject::demo(0.18, 0.0, 100.0)))
        .unwrap_err();
    assert_eq!(frozen.message_key, "project_frozen_during_session");
    core.disconnect(source.source_id, 1).unwrap();
    core.session.suspend_epoch().unwrap().unwrap();
    core.session.suspended("UserDisconnect", &mut core.store);
    core.left();
    assert_eq!(core.session.snapshot().status, SessionStatus::Suspended);
    let faster = SerialConfig { baud_rate: 9_600, ..serial("COM3") };
    let error = core.connect_serial(&faster).unwrap_err();
    assert_eq!(error.message_key, "pipeline_frozen_during_session");
    let moved = core.connect_serial(&serial("COM4")).unwrap();
    assert_eq!(moved.source.serial.port_name, "COM4");
}

#[test]
fn a_session_needs_a_source() {
    let mut core = workbench();
    let error = core.start_session("a.etdb".to_string(), false, 0, 0).unwrap_err();
    assert_eq!(error.message_key, "source_not_connected");
    assert_eq!(core.stop_session().unwrap_err().message_key, "session_not_active");
    assert!(!core.drain_recorder(1).unwrap());
    assert_eq!(core.drained(false).unwrap_err().message_key, "recorder_drain_timeout");
}

#[test]
fn invalid_projects_are_refused() {
    let mut core = workbench();
    let mut project = ToolboxProject::demo(0.18, 0.0, 100.0);
    project.source.id = project.id;
    let error = core.set_project(Arc::new(project)).unwrap_err();
    assert_eq!(error.message_key, "duplicate_stable_id");
    let good = ToolboxProject::demo(0.18, 0.0, 100.0);
    let id = good.id;
    core.set_project(Arc::new(good)).unwrap();
    assert_eq!(core.store.project().id, id);
}

#[test]
fn a_lost_connection_is_restored() {
    let mut core = workbench();
    assert!(matches!(core.try_auto_reconnect(0), ReconnectStep::Idle));
    let config = serial("COM3");
    let source = connect_serial(&mut core, &config);
    core.remember_serial_reconnect(source.source_id, config, &vec![port("com3")], 5);
    assert!(matches!(core.try_auto_reconnect(4), ReconnectStep::Idle));
    assert!(matches!(core.try_auto_reconnect(5), ReconnectStep::Idle));
    core.sources.get_mut(source.source_id).unwrap().fault();
    let plan = match core.try_auto_reconnect(5) {
        ReconnectStep::WindUp(plan) => plan,
        other => panic!("a lost connection was expected, not {other:?}"),
    };
    core.stop_leaving();
    core.left();
    core.await_reconnect(&plan);
    assert!(core.find_device(&plan, &vec![port("COM9")], 10).is_none());
    assert!(matches!(core.try_auto_reconnect(1_000_000_009), ReconnectStep::Idle));
    let plan = match core.try_auto_reconnect(1_000_000_010) {
        ReconnectStep::Attempt(plan) => plan,
        other => panic!("an attempt was expected, not {other:?}"),
    };
    let found = core.find_device(&plan, &vec![port("com3")], 10).unwrap();
    assert_eq!(found.port_name, "com3");
    let restored = connect_serial(&mut core, &found);
    core.reconnected(&restored);
    assert_eq!(restored.source_epoch, 2);
    let told = names(&mut core);
    assert!(told.contains(&"source.reconnectWaiting".to_string()));
    assert!(told.contains(&"source.reconnectAttempt".to_string()));
    assert_eq!(told.last().map(String::as_str), Some("source.reconnected"));
}

#[test]
fn a_user_who_disconnects_is_not_connected_again() {
    let mut core = workbench();
    let config = serial("COM3");
    let source = connect_serial(&mut core, &config);
    core.remember_serial_reconnect(source.source_id, config, &vec![], 0);
    leave(&mut core, source.source_id);
    assert!(matches!(core.try_auto_reconnect(u64::MAX), ReconnectStep::Idle));
}

#[test]
fn a_recording_is_not_played_while_it_is_written() {
    let mut core = workbench();
    connect(&mut core, SyntheticConfig::default());
    let plan = core.start_session("a.etdb".to_string(), false, 0, 100).unwrap();
    core.session_started(plan.recorder, plan.epoch.unwrap());
    let error = core.admit_replay(&"a.etdb".to_string()).unwrap_err();
    assert_eq!(error.code, ErrorCode::ReplayActiveSession.as_str());
    core.admit_replay(&"b.etdb".to_string()).unwrap();
    core.start_replay().unwrap();
    core.replay_started(&"b.etdb".to_string(), 1.0);
    assert_eq!(core.start_replay().unwrap_err().message_key, "replay_already_running");
}

#[test]
fn seeking_needs_something_that_plays() {
    let mut core = workbench();
    assert_eq!(core.seek_replay(-1).unwrap_err().message_key, "seek_offset_invalid");
    assert_eq!(core.seek_replay(1).unwrap_err().message_key, "replay_not_running");
    core.start_replay().unwrap();
    core.seek_replay(1).unwrap();
    assert!(core.replay.is_interrupted());
    assert_eq!(core.replay.take_seek(), Some(1));
    assert!(!core.replay.is_interrupted());
    core.stop_replay();
    assert!(core.replay.is_interrupted());
    core.replay.finished();
    assert!(core.start_replay().is_ok());
}

#[test]
fn subscribers_are_counted() {
    let mut core = workbench();
    let (subscription, missed) = core.subscribe_events(None, 4);
    assert_eq!(subscription.current_cursor, 0);
    assert!(missed.is_empty());
    assert_eq!(core.subscribe_stream(5), 1);
    assert_eq!(core.subscribe_stream(6), 2);
}

#[test]
fn disconnecting_cancels_what_waits_and_happens_once() {
    let mut core = workbench();
    let source = connect(&mut core, SyntheticConfig::default());
    let plan = core.start_session("whole.etdb".to_string(), false, 1_000, 100).unwrap();
    let epoch = plan.epoch.unwrap();
    core.session_started(plan.recorder, epoch);
    for _ in 0..2 {
        core.send(TxRequest {
            source_id: source.source_id,
            payload: vec![1, 2],
            origin: "terminal".to_string(),
            not_before_unix_ms: None,
            deadline_unix_ms: None,
            min_gap_ms: None,
        })
        .unwrap();
    }
    let leaving = core.disconnect(source.source_id, 1).unwrap();
    assert_eq!(leaving.source_epoch, source.source_epoch);
    core.stop_leaving();
    names(&mut core);
    let mut runtime = core.leaving.take().unwrap();
    for _ in 0..2 {
        assert!(matches!(runtime.tx.step(0, 0, &mut core.store), TxAction::Again));
    }
    assert!(matches!(runtime.tx.step(0, 0, &mut core.store), TxAction::Finished));
    assert_eq!(names(&mut core), ["tx.cancelled", "tx.cancelled"]);
    let end = core.session.suspend_epoch().unwrap().unwrap();
    let row = end
        .gap_row::<f64>(source.source_id, leaving.source_epoch, "UserDisconnect")
        .unwrap();
    assert_eq!(row.event_type, "StreamGap");
    core.session.suspended("UserDisconnect", &mut core.store);
    core.left();
    let last = core.disconnected(source.source_id);
    assert_eq!(last.status, SourceStatus::Disconnected);
    assert_eq!(last.queue_depths.tx_bytes, 0);
    assert_eq!(core.session.snapshot().status, SessionStatus::Suspended);
    let error = core.disconnect(source.source_id, 2).unwrap_err();
    assert_eq!(error.code, ErrorCode::DeviceDisconnected.as_str());
}
