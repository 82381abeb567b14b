use embedded_toolbox::error::ErrorCode;
use embedded_toolbox::event::StateStore;
use embedded_toolbox::ident::Uuid;
use embedded_toolbox::model::{FaultPlan, ToolboxProject, TxRequest};
use embedded_toolbox::session::utc_now_ns;
use embedded_toolbox::tx::{SyntheticTxTarget, TxAction, TxScheduler, TxTarget};
use std::sync::Arc;

struct RecordingTarget(Vec<Vec<u8>>);

impl TxTarget for RecordingTarget {
    fn write_payload(&mut self, payload: &[u8]) -> Result<usize, String> {
        self.0.push(payload.to_vec());
        Ok(payload.len())
    }
}

fn store() -> StateStore<f64> {
    StateStore::new(Arc::new(ToolboxProject::demo(0.18, 0.0, 100.0)))
}

fn request(payload: Vec<u8>) -> TxRequest {
    TxRequest {
        source_id: Uuid::now_v7(),
        payload,
        origin: "test".to_string(),
        not_before_unix_ms: None,
        deadline_unix_ms: None,
        min_gap_ms: None,
    }
}

fn event_names(store: &mut StateStore<f64>) -> Vec<String> {
    store
        .take_pending()
        .iter()
        .map(|delivery| delivery.event.event_type.clone())
        .collect()
}

#[test]
fn synthetic_target_injects_partial_write() {
    let mut target = SyntheticTxTarget::new(FaultPlan {
        partial_write_every_jobs: Some(1),
        ..FaultPlan::default()
    });
    assert_eq!(target.write_payload(b"1234").unwrap(), 2);
}

#[test]
fn synthetic_target_fails_when_it_is_due() {
    let mut target = SyntheticTxTarget::new(FaultPlan {
        fail_write_every_jobs: Some(2),
        ..FaultPlan::default()
    });
    assert_eq!(target.write_payload(b"1234"), Ok(4));
    assert_eq!(
        target.write_payload(b"1234"),
        Err("synthetic injected write failure".to_string())
    );
}

#[test]
fn scheduler_preserves_fifo_and_skips_cancelled_or_expired_jobs() {
    let mut state = store();
    let mut writes = RecordingTarget(Vec::new());
    let mut scheduler = TxScheduler::new(1);
    let source_id = Uuid::now_v7();
    let request = |payload, not_before, deadline| TxRequest {
        source_id,
        payload,
        origin: "test".to_string(),
        not_before_unix_ms: not_before,
        deadline_unix_ms: deadline,
        min_gap_ms: Some(0),
    };
    scheduler.enqueue(request(vec![1], None, None)).unwrap();
    let cancelled = scheduler
        .enqueue(request(vec![2], Some(utc_now_ns() / 1_000_000 + 500), None))
        .unwrap();
    scheduler.cancel(cancelled.job_id);
    scheduler
        .enqueue(request(vec![3], None, Some(utc_now_ns() / 1_000_000 - 1)))
        .unwrap();
    let mut now_ns = 0;
    while now_ns < 80_000_000 {
        match scheduler.step(utc_now_ns() / 1_000_000, now_ns, &mut state) {
            TxAction::Write(job) => {
                let result = writes.write_payload(&job.request.payload);
                scheduler.finish_write(&job, result, now_ns, &mut state);
            }
            TxAction::Sleep { nanoseconds } => now_ns += nanoseconds.max(1),
            TxAction::Idle => now_ns += 20_000_000,
            TxAction::Again => {}
            TxAction::Finished => unreachable!(),
        }
    }
    scheduler.stop();
    assert_eq!(writes.0, vec![vec![1]]);
    assert_eq!(
        event_names(&mut state),
        ["tx.sending", "tx.sent", "tx.cancelled", "tx.failed"]
    );
}

#[test]
fn a_job_waits_for_its_time_and_its_gap() {
    let mut state = store();
    let mut scheduler = TxScheduler::new(1);
    let mut later = request(vec![1]);
    later.not_before_unix_ms = Some(1_010);
    scheduler.enqueue(later).unwrap();
    assert!(matches!(
        scheduler.step(1_000, 0, &mut state),
        TxAction::Sleep { nanoseconds: 10_000_000 }
    ));
    let first = match scheduler.step(1_010, 10_000_000, &mut state) {
        TxAction::Write(job) => job,
        other => panic!("a write was expected, not {other:?}"),
    };
    scheduler.finish_write(&first, Ok(1), 10_000_000, &mut state);
    let mut spaced = request(vec![2]);
    spaced.min_gap_ms = Some(50);
    scheduler.enqueue(spaced).unwrap();
    assert!(matches!(
        scheduler.step(1_010, 10_000_000, &mut state),
        TxAction::Sleep { nanoseconds: 20_000_000 }
    ));
    assert!(matches!(
        scheduler.step(1_055, 55_000_000, &mut state),
        TxAction::Sleep { nanoseconds: 5_000_000 }
    ));
    assert!(matches!(
        scheduler.step(1_060, 60_000_000, &mut state),
        TxAction::Write(_)
    ));
}

#[test]
fn partial_and_failed_writes_are_told() {
    let mut state = store();
    let mut scheduler = TxScheduler::new(1);
    for result in [Ok(2), Err("broken".to_string())] {
        scheduler.enqueue(request(vec![1, 2, 3, 4])).unwrap();
        match scheduler.step(0, 0, &mut state) {
            TxAction::Write(job) => scheduler.finish_write(&job, result, 0, &mut state),
            other => panic!("a write was expected, not {other:?}"),
        }
    }
    let errors = state.snapshot().recent_errors;
    assert_eq!(errors[0].code, ErrorCode::TxPartialWrite.as_str());
    assert_eq!(errors[1].code, ErrorCode::DeviceWrite.as_str());
    assert_eq!(errors[1].cause.as_deref(), Some("broken"));
}

#[test]
fn what_waits_is_cancelled_when_everything_stops() {
    let mut state = store();
    let mut scheduler = TxScheduler::new(1);
    scheduler.enqueue(request(vec![1])).unwrap();
    assert_eq!(scheduler.depth_bytes(), 1);
    scheduler.stop();
    assert!(matches!(scheduler.step(0, 0, &mut state), TxAction::Again));
    assert!(matches!(scheduler.step(0, 0, &mut state), TxAction::Finished));
    assert_eq!(event_names(&mut state), ["tx.cancelled"]);
    let error = scheduler.enqueue(request(vec![1])).unwrap_err();
    assert_eq!(error.code, ErrorCode::TxQueueFull.as_str());
}

#[test]
fn too_many_jobs_are_refused() {
    let mut scheduler = TxScheduler::new(1);
    for _ in 0..1024 {
        scheduler.enqueue(request(vec![0])).unwrap();
    }
    let error = scheduler.enqueue(request(vec![0])).unwrap_err();
    assert_eq!(error.message_key, "tx_queue_full");
    let mut heavy = TxScheduler::new(1);
    heavy.enqueue(request(vec![0; 1_048_576])).unwrap();
    assert!(heavy.enqueue(request(vec![0])).is_err());
}
