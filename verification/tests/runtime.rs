use embedded_toolbox::envelope::PayloadType;
use embedded_toolbox::error::ErrorCode;
use embedded_toolbox::event::StateStore;
use embedded_toolbox::ident::Uuid;
use embedded_toolbox::math::{Operation, RawNumber, SampleMath};
use embedded_toolbox::model::{ClockAnchor, Direction, SourceStatus, ToolboxProject, TxRequest};
use embedded_toolbox::queue::PopOutcome;
use embedded_toolbox::runtime::{
    batches, sample_values, terminal_message, Fanout, ParserWorker, RecorderBatch, RecorderItem,
    SourceRuntime, StreamSequencer,
};
use embedded_toolbox::session::SessionManager;
use embedded_toolbox::tx::TxAction;
use std::sync::Arc;

struct Doubles;

impl SampleMath<f64> for Doubles {
    fn parse(&self, text: String) -> Result<f64, String> {
        text.parse::<f64>().map_err(|error| error.to_string())
    }

    fn number(&self, raw: RawNumber) -> f64 {
        match raw {
            RawNumber::Unsigned(value) => value as f64,
            _ => 0.0,
        }
    }

    fn evaluate(&self, operation: Operation<f64>) -> f64 {
        match operation {
            Operation::Blend { value, old, alpha } => alpha * value + (1.0 - alpha) * old,
            _ => 0.0,
        }
    }

    fn is_finite(&self, value: f64) -> bool {
        value.is_finite()
    }
}

fn project() -> ToolboxProject<f64> {
    ToolboxProject::demo(0.5, 0.0, 100.0)
}

fn runtime() -> SourceRuntime {
    SourceRuntime::start(
        &project(),
        3,
        "synthetic".to_string(),
        "seed".to_string(),
        ClockAnchor { utc_anchor_unix_ns: 0, monotonic_anchor_ns: 0 },
    )
}

fn names(state: &mut StateStore<f64>) -> Vec<String> {
    state
        .take_pending()
        .iter()
        .map(|delivery| delivery.event.event_type.clone())
        .collect()
}

#[test]
fn every_consumer_gets_every_chunk() {
    let mut fanout = Fanout::new(Uuid::nil(), 1);
    fanout.set_recording(true);
    assert!(fanout.has_room(3));
    let report = fanout.push(Direction::Rx, b"abc".to_vec(), None, 7);
    assert!(report.is_quiet());
    assert_eq!(fanout.depths(), (3, 3, 3));
    match fanout.take_parser(false) {
        PopOutcome::Item(chunk) => {
            assert_eq!(chunk.sequence, 1);
            assert_eq!(chunk.monotonic_offset_ns, 7);
            assert_eq!(*chunk.bytes, b"abc");
        }
        _ => panic!("a chunk was expected"),
    }
    assert_eq!(fanout.depths(), (3, 0, 3));
    assert!(matches!(fanout.take_parser(false), PopOutcome::Wait));
    assert!(matches!(fanout.take_parser(true), PopOutcome::Ended));
    assert_eq!(fanout.stats().rx_bytes, 3);
    let nothing = fanout.push(Direction::Rx, vec![], None, 8);
    assert!(nothing.is_quiet());
    assert_eq!(fanout.depths(), (3, 0, 3));
}

#[test]
fn a_recorder_that_cannot_keep_up_ends_the_recording() {
    let mut fanout = Fanout::new(Uuid::nil(), 1);
    let mut state = StateStore::new(Arc::new(project()));
    let mut session = SessionManager::new();
    fanout.set_recording(true);
    for _ in 0..16 {
        assert!(fanout.push(Direction::Rx, vec![0; 1_048_576], None, 0).recording_failed.is_none());
        while matches!(fanout.take_parser(true), PopOutcome::Item(_)) {}
        while matches!(fanout.take_terminal(true), PopOutcome::Item(_)) {}
    }
    let report = fanout.push(Direction::Rx, vec![0], None, 0);
    let error = report.recording_failed.as_ref().unwrap();
    assert_eq!(error.code, ErrorCode::RecordingBackpressure.as_str());
    report.publish(&mut session, &mut state);
    let quiet = fanout.push(Direction::Rx, vec![0], None, 0);
    assert!(quiet.is_quiet());
    assert_eq!(fanout.depths().0, 16_777_216);
}

#[test]
fn a_parser_that_cannot_keep_up_is_told_of_the_gap() {
    let mut fanout = Fanout::new(Uuid::nil(), 1);
    let mut state = StateStore::new(Arc::new(project()));
    let mut session = SessionManager::new();
    for _ in 0..4 {
        fanout.push(Direction::Rx, vec![0; 1_048_576], None, 0);
    }
    assert_eq!(fanout.gap_generation(), 0);
    let report = fanout.push(Direction::Rx, vec![0], None, 0);
    assert_eq!(fanout.gap_generation(), 1);
    assert_eq!(fanout.stats().parser_gaps, 1);
    report.publish(&mut session, &mut state);
    assert!(!names(&mut state).is_empty());
    let mut worker = ParserWorker::new(Arc::new(project()), 0).unwrap();
    let chunk = match fanout.take_parser(true) {
        PopOutcome::Item(chunk) => chunk,
        _ => panic!("a chunk was expected"),
    };
    worker.parse(chunk, fanout.gap_generation(), &Doubles);
}

#[test]
fn a_barrier_comes_after_the_chunks_before_it() {
    let mut fanout = Fanout::new(Uuid::nil(), 1);
    fanout.set_recording(true);
    fanout.push(Direction::Rx, b"ab".to_vec(), None, 0);
    assert!(fanout.push_barrier(9));
    fanout.push(Direction::Rx, b"c".to_vec(), None, 0);
    let mut batch = RecorderBatch::new();
    while batch.wants_more(0) {
        match fanout.take_recorder(true) {
            PopOutcome::Item(item) => {
                let last = matches!(item, RecorderItem::Barrier(_));
                batch.take(item);
                if last {
                    break;
                }
            }
            _ => break,
        }
    }
    assert_eq!(batch.chunks.len(), 1);
    assert_eq!(batch.barriers, [9]);
    assert_eq!(batch.bytes, 2);
    assert!(!batch.wants_more(100_000_000));
    fanout.close();
    assert!(!fanout.push_barrier(10));
}

#[test]
fn parsed_output_is_sent_in_batches() {
    let mut worker = ParserWorker::new(Arc::new(project()), 0).unwrap();
    let mut fanout = Fanout::new(Uuid::nil(), 1);
    fanout.push(Direction::Rx, b"1,2,3\nx\n".to_vec(), None, 4);
    let chunk = match fanout.take_parser(true) {
        PopOutcome::Item(chunk) => chunk,
        _ => panic!("a chunk was expected"),
    };
    let message = terminal_message(&chunk);
    assert_eq!(message.payload_type, PayloadType::RawBatch);
    assert_eq!(message.monotonic_offset_ns, 4);
    let output = worker.parse(chunk, 0, &Doubles);
    fanout.count_parsed(output.frames.len(), output.checksum_failures);
    assert_eq!(fanout.stats().parsed_frames, 2);
    assert_eq!(
        batches(&output),
        [
            PayloadType::SampleBatch,
            PayloadType::PacketBatch,
            PayloadType::DiagnosticBatch
        ]
    );
    let values: Vec<f64> = sample_values(&output.samples).iter().map(|pair| pair.1).collect();
    assert_eq!(values, [1.0, 2.0, 3.0]);
    let mut sequencer = StreamSequencer::new(Uuid::nil(), 1);
    let first = sequencer.envelope(&message);
    let second = sequencer.envelope(&message);
    assert_eq!(first[36..44], 1u64.to_le_bytes());
    assert_eq!(second[36..44], 2u64.to_le_bytes());
    worker.finish();
}

#[test]
fn old_messages_give_way_to_new_ones() {
    let mut runtime = runtime();
    let mut fanout = Fanout::new(Uuid::nil(), 1);
    fanout.push(Direction::Rx, b"abc".to_vec(), None, 0);
    let chunk = match fanout.take_terminal(true) {
        PopOutcome::Item(chunk) => chunk,
        _ => panic!("a chunk was expected"),
    };
    for _ in 0..256 {
        assert_eq!(runtime.send(terminal_message(&chunk)), 0);
    }
    let dropped = runtime.send(terminal_message(&chunk));
    assert_eq!(dropped, 1);
    runtime.fanout.count_dropped_batches(dropped);
    assert_eq!(runtime.snapshot().stats.ui_dropped_batches, 1);
}

#[test]
fn what_was_sent_is_handed_out_too() {
    let mut runtime = runtime();
    let mut state = StateStore::new(Arc::new(project()));
    let mut session = SessionManager::new();
    runtime
        .tx
        .enqueue(TxRequest {
            source_id: runtime.base.source_id,
            payload: b"1234".to_vec(),
            origin: "test".to_string(),
            not_before_unix_ms: None,
            deadline_unix_ms: None,
            min_gap_ms: None,
        })
        .unwrap();
    let job = match runtime.tx.step(0, 0, &mut state) {
        TxAction::Write(job) => job,
        other => panic!("a write was expected, not {other:?}"),
    };
    runtime.finish_write(&job, Ok(2), 5, 6, &mut session, &mut state);
    assert_eq!(runtime.fanout.stats().tx_bytes, 2);
    match runtime.fanout.take_terminal(true) {
        PopOutcome::Item(chunk) => {
            assert_eq!(chunk.direction, Direction::Tx);
            assert_eq!(*chunk.bytes, b"12");
            assert_eq!(chunk.tx_job_id, Some(job.id));
        }
        _ => panic!("a chunk was expected"),
    }
}

#[test]
fn a_fault_is_told_with_its_cause() {
    let mut runtime = runtime();
    let mut state = StateStore::new(Arc::new(project()));
    assert_eq!(runtime.snapshot().status, SourceStatus::Connected);
    runtime.fault();
    assert!(runtime.is_stopped());
    assert_eq!(runtime.snapshot().status, SourceStatus::Faulted);
    let error = embedded_toolbox::error::ToolboxError::new(
        ErrorCode::DeviceRead,
        "device.read",
        "serial_read_failed",
    );
    runtime.tell_fault(error, &mut state);
    assert_eq!(names(&mut state), ["error.raised", "source.faulted"]);
    runtime.stop();
    assert!(matches!(runtime.fanout.take_parser(false), PopOutcome::Ended));
}

#[test]
fn parsed_batches_and_shown_chunks_go_on_their_way() {
    let mut runtime = runtime();
    let mut state = StateStore::new(Arc::new(project()));
    let mut worker = ParserWorker::new(Arc::new(project()), 0).unwrap();
    runtime.fanout.push(Direction::Rx, b"1,2,3\n".to_vec(), None, 4);
    let shown = match runtime.fanout.take_terminal(true) {
        PopOutcome::Item(chunk) => chunk,
        _ => panic!("a chunk was expected"),
    };
    let chunk = match runtime.fanout.take_parser(true) {
        PopOutcome::Item(chunk) => chunk,
        _ => panic!("a chunk was expected"),
    };
    let output = worker.parse(chunk, 0, &Doubles);
    let payloads = vec![b"samples".to_vec(), b"frames".to_vec()];
    runtime.publish_parsed(&output, &payloads, 4, &mut state);
    runtime.show(&shown);
    assert_eq!(runtime.fanout.stats().parsed_frames, 1);
    assert_eq!(state.snapshot().latest_channel_values.len(), 3);
    let mut sent = Vec::new();
    while let Some(message) = runtime.ipc.try_pop() {
        sent.push((message.payload_type, message.payload));
    }
    assert_eq!(sent[0], (PayloadType::SampleBatch, b"samples".to_vec()));
    assert_eq!(sent[1], (PayloadType::PacketBatch, b"frames".to_vec()));
    assert_eq!(sent[2].0, PayloadType::RawBatch);
    assert!(sent[2].1.ends_with(b"1,2,3\n"));
    for _ in 0..257 {
        runtime.show(&shown);
    }
    assert_eq!(runtime.fanout.stats().ui_dropped_batches, 1);
}

#[test]
fn all_envelopes_of_a_connection_share_one_count() {
    let mut runtime = runtime();
    let base = runtime.snapshot();
    assert_eq!(base.source_epoch, 3);
    assert!(base.epoch_id.is_some());
    assert_eq!(base.status, SourceStatus::Connected);
    let mut state = StateStore::new(Arc::new(project()));
    let mut worker = ParserWorker::new(Arc::new(project()), 0).unwrap();
    runtime.fanout.push(Direction::Rx, b"1,2,3\n".to_vec(), None, 4);
    let chunk = match runtime.fanout.take_parser(true) {
        PopOutcome::Item(chunk) => chunk,
        _ => panic!("a chunk was expected"),
    };
    runtime.show(&chunk);
    let output = worker.parse(chunk, 0, &Doubles);
    runtime.publish_parsed(&output, &vec![vec![1], vec![2]], 4, &mut state);
    let mut sequencer = StreamSequencer::new(base.source_id, base.source_epoch);
    let mut count = 0u64;
    while let Some(message) = runtime.ipc.try_pop() {
        count += 1;
        let bytes = sequencer.envelope(&message);
        assert_eq!(bytes[8..10], 1u16.to_le_bytes());
        assert_eq!(bytes[12..28], base.source_id.to_bytes());
        assert_eq!(bytes[28..36], 3u64.to_le_bytes());
        assert_eq!(bytes[36..44], count.to_le_bytes());
    }
    assert_eq!(count, 3);
    runtime.stop();
    let after = runtime.snapshot();
    assert_eq!(after.status, SourceStatus::Faulted);
    assert_eq!(after.source_epoch, 3);
    assert_eq!(after.epoch_id, base.epoch_id);
    assert_eq!(after.transport, "synthetic");
    assert_eq!(after.endpoint, "seed");
}
