use embedded_toolbox::app_core::AppCore;
use embedded_toolbox::error::{ErrorCode, ToolboxError};
use embedded_toolbox::event::{EventPayload, EventValue, StateStore};
use embedded_toolbox::ident::Uuid;
use embedded_toolbox::math::{Operation, RawNumber, SampleMath};
use embedded_toolbox::model::{
    ClockAnchor, Direction, QueueDepths, RawChunk, SampleView, SessionStatus, SourceSnapshot, SourceStats,
    SourceStatus, SyntheticConfig, ToolboxProject,
};
use embedded_toolbox::recovery::{
    default_recording_name, recover_interrupted_sessions, StoredEpoch, StoredSession,
};
use embedded_toolbox::session::{
    check_pipeline_version, checkpoint_verdict, clamp_ns, direction_text, export_header,
    export_rows, replay_chunks, should_checkpoint, time_of_reading, utc_now_ns,
    CheckpointVerdict, EpochEnd, ExportRow, ReplayRow, SessionManager,
};
use rusqlite::Connection;
use std::sync::Arc;

struct Doubles;

impl SampleMath<f64> for Doubles {
    fn parse(&self, text: String) -> Result<f64, String> {
        text.parse::<f64>().map_err(|error| error.to_string())
    }

    fn number(&self, raw: RawNumber) -> f64 {
        match raw {
            RawNumber::Unsigned(value) => value as f64,
            RawNumber::Signed(value) => value as f64,
            RawNumber::Float32(bits) => f32::from_bits(bits) as f64,
            RawNumber::Float64(bits) => f64::from_bits(bits),
        }
    }

    fn evaluate(&self, operation: Operation<f64>) -> f64 {
        match operation {
            Operation::Blend { value, .. } => value,
            _ => 0.0,
        }
    }

    fn is_finite(&self, value: f64) -> bool {
        value.is_finite()
    }
}

fn demo() -> ToolboxProject<f64> {
    ToolboxProject::demo(0.18, 0.0, 100.0)
}

fn source(project: &ToolboxProject<f64>) -> SourceSnapshot {
    SourceSnapshot {
        source_id: project.source.id,
        name: "test".to_string(),
        status: SourceStatus::Connected,
        transport: "synthetic".to_string(),
        endpoint: "seed:1".to_string(),
        source_epoch: 1,
        epoch_id: Some(Uuid::now_v7()),
        clock_anchor: Some(ClockAnchor {
            utc_anchor_unix_ns: utc_now_ns(),
            monotonic_anchor_ns: 100,
        }),
        queue_depths: QueueDepths::none(),
        stats: SourceStats::default(),
    }
}

fn chunk(project: &ToolboxProject<f64>, sequence: u64, bytes: &[u8]) -> RawChunk {
    RawChunk {
        source_id: project.source.id,
        source_epoch: 1,
        sequence,
        monotonic_offset_ns: 10,
        direction: Direction::Rx,
        bytes: Arc::new(bytes.to_vec()),
        gap_before: false,
        tx_job_id: None,
    }
}

fn started(
    project: &ToolboxProject<f64>,
    state: &mut StateStore<f64>,
) -> SessionManager {
    let mut manager = SessionManager::new();
    let plan = manager
        .start(
            "test.etdb".to_string(),
            false,
            project,
            &source(project),
            state.runtime_instance_id(),
            utc_now_ns(),
            100,
        )
        .unwrap();
    let epoch = plan.epoch.unwrap();
    assert_eq!(epoch.session_offset_ns, 0);
    assert_eq!(epoch.ordinal, 1);
    manager.started(plan.recorder, epoch, state);
    manager
}

#[test]
fn stop_checkpoints_and_closes_session() {
    let project = demo();
    let mut state = StateStore::new(Arc::new(project.clone()));
    let mut manager = started(&project, &mut state);
    let rows = manager
        .append_batch(&vec![chunk(&project, 1, b"1,2,3\n")])
        .unwrap()
        .unwrap();
    manager.appended(&rows);
    let plan = manager.stop(&mut state).unwrap();
    assert!(matches!(checkpoint_verdict(0, 0, 0, 0, 1), CheckpointVerdict::Done));
    let stopped = manager.stopped(plan.recorder, Ok(()), &mut state).unwrap();
    assert_eq!(stopped.status, SessionStatus::Closed);
    assert!(!stopped.checkpoint_pending);
}

#[test]
fn a_stopped_session_is_closed() {
    let project = demo();
    let mut state = StateStore::new(Arc::new(project.clone()));
    let mut manager = started(&project, &mut state);
    assert_eq!(manager.snapshot().status, SessionStatus::Recording);
    let rows = manager
        .append_batch(&vec![chunk(&project, 1, b"1,2,3\n")])
        .unwrap()
        .unwrap();
    assert_eq!(rows.len(), 1);
    assert_eq!(rows[0].direction, "Rx");
    manager.appended(&rows);
    manager.show_bytes_written();
    assert_eq!(manager.snapshot().bytes_written, 6);
    let plan = manager.stop(&mut state).unwrap();
    assert_eq!(plan.bytes_written, 6);
    assert_eq!(manager.snapshot().status, SessionStatus::Finalizing);
    assert!(manager.snapshot().checkpoint_pending);
    let stopped = manager.stopped(plan.recorder, Ok(()), &mut state).unwrap();
    assert_eq!(stopped.status, SessionStatus::Closed);
    assert!(!stopped.checkpoint_pending);
    assert_eq!(stopped.message.as_deref(), Some("recording_committed"));
}

#[test]
fn a_log_that_stays_is_reported_but_the_session_is_closed() {
    let project = demo();
    let mut state = StateStore::new(Arc::new(project.clone()));
    let mut manager = started(&project, &mut state);
    let plan = manager.stop(&mut state).unwrap();
    let busy = match checkpoint_verdict(1, 5, 3, 5_000_000_000, 5_000_000_000) {
        CheckpointVerdict::GiveUp(error) => error,
        other => panic!("no verdict but {other:?} was expected"),
    };
    assert_eq!(busy.code, ErrorCode::SessionCheckpointBusy.as_str());
    let error = manager.stopped(plan.recorder, Err(busy), &mut state).unwrap_err();
    assert_eq!(error.message_key, "checkpoint_busy");
    let snapshot = manager.snapshot();
    assert_eq!(snapshot.status, SessionStatus::Closed);
    assert!(snapshot.checkpoint_pending);
    assert_eq!(snapshot.message.as_deref(), Some("data_committed_wal_not_merged"));
}

#[test]
fn interrupted_session_is_marked_before_replay() {
    let project = demo();
    let conn = Connection::open_in_memory().unwrap();
    conn.execute("CREATE TABLE sessions(id TEXT, status TEXT, ended_utc_ns INTEGER)", ())
        .unwrap();
    {
        let state = StateStore::new(Arc::new(project.clone()));
        let manager = SessionManager::new();
        let plan = manager
            .start(
                "interrupted.etdb".to_string(),
                false,
                &project,
                &source(&project),
                state.runtime_instance_id(),
                utc_now_ns(),
                100,
            )
            .unwrap();
        conn.execute(
            "INSERT INTO sessions(id, status) VALUES (?1, 'Recording')",
            (plan.session.id,),
        )
        .unwrap();
    }
    let stored = conn
        .query_row("SELECT id, status, ended_utc_ns FROM sessions", (), |row| {
            Ok(StoredSession {
                id: row.get(0)?,
                status: row.get(1)?,
                ended_utc_ns: row.get(2)?,
            })
        })
        .unwrap();
    let recovery = recover_interrupted_sessions(&vec![stored], vec![], utc_now_ns());
    for session in recovery.sessions {
        conn.execute(
            "UPDATE sessions SET status=?1, ended_utc_ns=?2 WHERE id=?3",
            (session.status, session.ended_utc_ns, session.id),
        )
        .unwrap();
    }
    let status: String = conn
        .query_row("SELECT status FROM sessions", (), |row| row.get(0))
        .unwrap();
    assert_eq!(status, "Interrupted");
}

#[test]
fn recovery_touches_only_what_was_cut_off() {
    let session = |status: &str, ended_utc_ns| StoredSession {
        id: status.to_string(),
        status: status.to_string(),
        ended_utc_ns,
    };
    let epoch = |ended_utc_ns, end_reason: Option<&str>| StoredEpoch {
        id: "epoch".to_string(),
        ended_utc_ns,
        end_reason: end_reason.map(str::to_string),
    };
    let sessions = vec![
        session("Closed", Some(1)),
        session("Suspended", Some(2)),
        session("Finalizing", None),
    ];
    let epochs = vec![epoch(Some(3), Some("UserDisconnect")), epoch(None, None)];
    let first = recover_interrupted_sessions(&sessions, epochs, 99);
    assert!(first.interrupted);
    let states: Vec<(&str, Option<i64>)> = first
        .sessions
        .iter()
        .map(|session| (session.status.as_str(), session.ended_utc_ns))
        .collect();
    assert_eq!(
        states,
        [("Closed", Some(1)), ("Interrupted", Some(2)), ("Interrupted", Some(99))]
    );
    assert_eq!(first.epochs[0].end_reason.as_deref(), Some("UserDisconnect"));
    assert_eq!(first.epochs[1].ended_utc_ns, Some(99));
    assert_eq!(first.epochs[1].end_reason.as_deref(), Some("Interrupted"));
    let second = recover_interrupted_sessions(&first.sessions, first.epochs, 100);
    assert!(!second.interrupted);
    assert_eq!(second.sessions[2].ended_utc_ns, Some(99));
    assert_eq!(second.epochs[1].ended_utc_ns, Some(99));
}

#[test]
fn recording_spans_disconnect_and_reconnect_epochs() {
    let conn = Connection::open_in_memory().unwrap();
    conn.execute("CREATE TABLE epochs(id TEXT, ended TEXT)", ()).unwrap();
    conn.execute("CREATE TABLE session_events(event_type TEXT)", ()).unwrap();
    let mut core: AppCore<f64> = AppCore::new(Arc::new(demo()));
    let config = SyntheticConfig {
        rate_hz: 500,
        ..SyntheticConfig::default()
    };
    let anchor = ClockAnchor {
        utc_anchor_unix_ns: utc_now_ns(),
        monotonic_anchor_ns: 100,
    };
    let (project, endpoint) = core.connect_synthetic(&config).unwrap();
    let runtime = core.connect_runtime(&project, "synthetic".to_string(), endpoint, anchor);
    let first = core.connected(runtime);
    let plan = core
        .start_session("multi-epoch.etdb".to_string(), false, utc_now_ns(), 100)
        .unwrap();
    let epoch = plan.epoch.unwrap();
    conn.execute("INSERT INTO epochs(id) VALUES (?1)", (epoch.id.clone(),)).unwrap();
    core.session_started(plan.recorder, epoch);

    core.disconnect(first.source_id, 1).unwrap();
    core.stop_leaving();
    let end = core.session.suspend_epoch().unwrap().unwrap();
    if let Some(row) = end.gap_row::<f64>(first.source_id, first.source_epoch, "UserDisconnect") {
        conn.execute("UPDATE epochs SET ended=?1 WHERE id=?2", (row.end_reason, row.epoch_id))
            .unwrap();
        conn.execute("INSERT INTO session_events(event_type) VALUES (?1)", (row.event_type,))
            .unwrap();
    }
    core.session.suspended("UserDisconnect", &mut core.store);
    core.left();
    core.disconnected(first.source_id);
    assert_eq!(core.session.snapshot().status, SessionStatus::Suspended);

    let (project, endpoint) = core.connect_synthetic(&config).unwrap();
    let mut runtime = core.connect_runtime(&project, "synthetic".to_string(), endpoint, anchor);
    let snapshot = runtime.snapshot();
    let epoch = core.session.resume_epoch(&snapshot).unwrap().unwrap();
    conn.execute("INSERT INTO epochs(id) VALUES (?1)", (epoch.id.clone(),)).unwrap();
    core.session.resumed(epoch, &mut core.store);
    runtime.set_recording(true);
    let second = core.connected(runtime);
    assert_eq!(second.source_epoch, 2);
    assert_eq!(core.session.snapshot().epoch_ordinal, Some(2));
    assert!(core.drain_recorder(2).unwrap());
    let plan = core.stop_session().unwrap();
    let stopped = core.session.stopped(plan.recorder, Ok(()), &mut core.store).unwrap();
    assert_eq!(stopped.status, SessionStatus::Closed);
    core.disconnect(second.source_id, 3).unwrap();

    let epochs: i64 = conn
        .query_row("SELECT COUNT(*) FROM epochs", (), |row| row.get(0))
        .unwrap();
    let gaps: i64 = conn
        .query_row(
            "SELECT COUNT(*) FROM session_events WHERE event_type='StreamGap'",
            (),
            |row| row.get(0),
        )
        .unwrap();
    assert_eq!(epochs, 2);
    assert_eq!(gaps, 1);
}

#[test]
fn a_session_starts_only_where_it_may() {
    let project = demo();
    let mut state = StateStore::new(Arc::new(project.clone()));
    let manager = SessionManager::new();
    let connected = source(&project);
    let mut faulted = source(&project);
    faulted.status = SourceStatus::Faulted;
    let path = "a.etdb".to_string();
    let key = |result: Result<(), ToolboxError>| result.unwrap_err().message_key;
    assert_eq!(key(manager.admit_start(&path, false, &faulted)), "source_not_connected");
    let exists = manager.admit_start(&path, true, &connected).unwrap_err();
    assert_eq!(exists.code, ErrorCode::SessionOpen.as_str());
    assert_eq!(exists.message_key, "session_path_exists");
    assert!(manager.admit_start(&path, false, &connected).is_ok());
    let running = started(&project, &mut state);
    assert_eq!(key(running.admit_start(&path, false, &connected)), "session_already_active");
    assert_eq!(
        key(running.admit_export(&"test.etdb".to_string())),
        "active_session_export_forbidden"
    );
    assert!(running.admit_export(&"other.etdb".to_string()).is_ok());
}

#[test]
fn an_epoch_needs_its_identity_and_its_clock() {
    let project = demo();
    let manager = SessionManager::new();
    let start = |snapshot: &SourceSnapshot| {
        manager
            .start("a".to_string(), false, &project, snapshot, Uuid::nil(), 0, 100)
            .unwrap()
            .epoch
            .unwrap_err()
    };
    let mut anonymous = source(&project);
    anonymous.epoch_id = None;
    assert_eq!(start(&anonymous).message_key, "epoch_identity_missing");
    let mut timeless = source(&project);
    timeless.clock_anchor = None;
    assert_eq!(start(&timeless).message_key, "clock_anchor_missing");
}

#[test]
fn a_failed_recording_can_still_be_stopped() {
    let project = demo();
    let mut state = StateStore::new(Arc::new(project.clone()));
    let mut manager = started(&project, &mut state);
    let error = ToolboxError::new(ErrorCode::SessionWrite, "session.append", "chunk_insert_failed");
    manager.fail_recording(&error, &mut state);
    assert_eq!(manager.snapshot().status, SessionStatus::Failed);
    assert_eq!(manager.snapshot().message.as_deref(), Some(ErrorCode::SessionWrite.as_str()));
    assert!(manager.append_batch(&vec![chunk(&project, 1, b"x")]).unwrap().is_none());
    assert!(manager.stop(&mut state).is_ok());
    assert_eq!(manager.stop(&mut state).unwrap_err().message_key, "recorder_missing");
    let mut idle = SessionManager::new();
    assert_eq!(idle.stop(&mut state).unwrap_err().message_key, "session_not_active");
}

fn replay_row(sequence: i64, ordinal: u32, bytes: &[u8]) -> ReplayRow {
    ReplayRow {
        source_id: "00112233-4455-6677-8899-aabbccddeeff".to_string(),
        source_epoch: 1,
        sequence,
        monotonic_offset_ns: 5,
        epoch_offset_ns: 1_000,
        direction: "Tx".to_string(),
        bytes: bytes.to_vec(),
        ordinal,
    }
}

#[test]
fn recorded_rows_play_back_as_chunks() {
    let mut unknown = replay_row(3, 2, b"c");
    unknown.source_id = "nonsense".to_string();
    unknown.direction = "Rx".to_string();
    let chunks = replay_chunks(vec![replay_row(1, 1, b"a"), replay_row(2, 1, b"b"), unknown]);
    assert_eq!(chunks[0].source_id, Uuid { value: 0x0011_2233_4455_6677_8899_aabb_ccdd_eeff });
    assert_eq!(chunks[0].session_offset_ns, 1_005);
    assert_eq!(chunks[0].direction, Direction::Tx);
    let changed: Vec<bool> = chunks.iter().map(|chunk| chunk.epoch_changed).collect();
    assert_eq!(changed, [false, false, true]);
    assert_eq!(chunks[2].source_id, Uuid::nil());
    assert_eq!(chunks[2].direction, Direction::Rx);
    let raw = chunks[2].to_raw();
    assert!(raw.gap_before);
    assert_eq!(*raw.bytes, b"c");
}

#[test]
fn exports_have_a_line_for_every_sample() {
    let project = demo();
    let chunks = replay_chunks(vec![replay_row(1, 1, b"1,2,3\n4,"), replay_row(2, 1, b"5,6\n")]);
    let rows = export_rows(Arc::new(project), &chunks, &Doubles).unwrap();
    let values: Vec<f64> = rows.iter().map(|row| row.sample.value).collect();
    assert_eq!(values, [1.0, 2.0, 3.0, 4.0, 5.0, 6.0]);
    assert_eq!(rows[0].session_offset_ns, 1_005);
    assert_eq!(rows[5].sample.frame_sequence, 2);
}

#[test]
fn small_rules_of_recording() {
    assert_eq!(direction_text(Direction::Rx), "Rx");
    assert_eq!(direction_text(Direction::Tx), "Tx");
    assert!(!should_checkpoint(29_999_999_999, 33_554_431));
    assert!(should_checkpoint(30_000_000_000, 0));
    assert!(should_checkpoint(0, 33_554_432));
    assert!(matches!(checkpoint_verdict(0, 7, 7, 0, 1), CheckpointVerdict::Done));
    assert!(matches!(checkpoint_verdict(0, 7, 6, 0, 1), CheckpointVerdict::Retry));
    assert_eq!(clamp_ns(u128::MAX), i64::MAX);
    assert_eq!(clamp_ns(5), 5);
    assert_eq!(time_of_reading(Some(7)), 7);
    assert_eq!(time_of_reading(Some(u128::MAX)), i64::MAX);
    assert_eq!(time_of_reading(None), 0);
    assert!(utc_now_ns() > 1_600_000_000_000_000_000);
    assert!(check_pipeline_version(&"1.0.0".to_string()).is_ok());
    let error = check_pipeline_version(&"2.0.0".to_string()).unwrap_err();
    assert_eq!(error.code, ErrorCode::PipelineVersionUnsupported.as_str());
    assert_eq!(default_recording_name(1_234_567_890_123), "session-1234567.etdb");
}

#[test]
fn a_gap_is_told_once_for_a_recorded_connection() {
    let project = demo();
    let mut state = StateStore::new(Arc::new(project.clone()));
    let mut manager = started(&project, &mut state);
    let end = manager.suspend_epoch().unwrap().unwrap();
    let row = end.gap_row::<f64>(project.source.id, 1, "UserDisconnect").unwrap();
    assert_eq!(row.session_id, end.session_id);
    assert_eq!(Some(row.epoch_id), end.epoch_id);
    assert_eq!(row.end_reason, "UserDisconnect");
    assert_eq!(row.event_type, "StreamGap");
    let EventPayload::Fields(fields) = row.payload else {
        panic!("named values were expected");
    };
    assert_eq!(fields.len(), 3);
    assert_eq!(fields[0].0, "sourceId");
    assert!(matches!(fields[0].1, EventValue::Id(id) if id == project.source.id));
    assert_eq!(fields[1].0, "sourceEpoch");
    assert!(matches!(fields[1].1, EventValue::Unsigned(1)));
    assert_eq!(fields[2].0, "reason");
    assert!(matches!(&fields[2].1, EventValue::Text(text) if text == "UserDisconnect"));
    manager.suspended("UserDisconnect", &mut state);
    assert_eq!(manager.snapshot().status, SessionStatus::Suspended);
    assert_eq!(manager.snapshot().message.as_deref(), Some("UserDisconnect"));
    assert!(manager.suspend_epoch().unwrap().is_none());
    let unrecorded = EpochEnd { session_id: "s".to_string(), epoch_id: None };
    assert!(unrecorded.gap_row::<f64>(project.source.id, 1, "x").is_none());
}

#[test]
fn export_lines_are_separated_by_commas() {
    assert_eq!(
        export_header(),
        "session_time_ns,source_id,source_epoch,frame_sequence,channel_id,value"
    );
    let row = ExportRow {
        session_offset_ns: i64::MIN,
        source_id: Uuid::nil(),
        source_epoch: 7,
        sample: SampleView {
            channel_id: Uuid { value: 0x0011_2233_4455_6677_8899_aabb_ccdd_eeff },
            monotonic_offset_ns: 0,
            value: 1.5,
            frame_sequence: 12,
        },
    };
    assert_eq!(
        row.line("1.5"),
        "-9223372036854775808,00000000-0000-0000-0000-000000000000,7,12,00112233-4455-6677-8899-aabbccddeeff,1.5"
    );
    let later = ExportRow { session_offset_ns: 40, ..row };
    assert!(later.line("2").starts_with("40,"));
    assert!(later.line("2").ends_with(",2"));
}
