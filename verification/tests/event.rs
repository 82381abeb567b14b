use embedded_toolbox::error::{ErrorCode, ToolboxError};
use embedded_toolbox::event::{
    resume_requires_snapshot, DataHub, EventFields, EventPayload, EventValue, StateStore,
};
use embedded_toolbox::ident::Uuid;
use embedded_toolbox::model::{EventResume, ToolboxProject};
use std::sync::Arc;

fn store() -> StateStore<f64> {
    StateStore::new(Arc::new(ToolboxProject::demo(0.18, 0.0, 100.0)))
}

#[test]
fn snapshot_cursor_matches_mutated_state() {
    let mut store = store();
    store.emit_fields("test.one", EventFields::new().with("ok", EventValue::Flag(true)));
    store.update_latest_values(&[(Uuid::nil(), 42.0)]);
    let snapshot = store.snapshot();
    assert_eq!(snapshot.event_cursor, 1);
    assert_eq!(snapshot.latest_channel_values.get(Uuid::nil()), Some(&42.0));
}

#[test]
fn resume_rejects_process_restart_and_expired_cursor() {
    let runtime = Uuid::now_v7();
    assert!(resume_requires_snapshot(
        runtime,
        10,
        &EventResume {
            runtime_instance_id: Uuid::now_v7(),
            last_cursor: 9,
        },
    ));
    assert!(resume_requires_snapshot(
        runtime,
        10,
        &EventResume {
            runtime_instance_id: runtime,
            last_cursor: 1,
        },
    ));
    assert!(!resume_requires_snapshot(
        runtime,
        10,
        &EventResume {
            runtime_instance_id: runtime,
            last_cursor: 9,
        },
    ));
}

#[test]
fn a_returning_subscriber_gets_what_it_missed() {
    let mut store = store();
    let (first, missed) = store.subscribe(None, 1);
    assert_eq!(first.current_cursor, 0);
    assert!(!first.resync_required);
    assert!(missed.is_empty());
    for name in ["a", "b", "c"] {
        store.emit_fields(name, EventFields::new());
    }
    let resume = EventResume {
        runtime_instance_id: store.runtime_instance_id(),
        last_cursor: 1,
    };
    let (second, missed) = store.subscribe(Some(resume), 2);
    assert_eq!(second.current_cursor, 3);
    assert!(!second.resync_required);
    let names: Vec<&str> = missed.iter().map(|event| event.event_type.as_str()).collect();
    assert_eq!(names, ["b", "c"]);
    let cursors: Vec<u64> = missed.iter().map(|event| event.cursor).collect();
    assert_eq!(cursors, [2, 3]);
}

#[test]
fn a_subscriber_that_was_away_too_long_needs_a_snapshot() {
    let mut store = store();
    for _ in 0..4100 {
        store.emit_fields("tick", EventFields::new());
    }
    let runtime_instance_id = store.runtime_instance_id();
    let late = EventResume { runtime_instance_id, last_cursor: 3 };
    let (subscription, missed) = store.subscribe(Some(late), 1);
    assert!(subscription.resync_required);
    assert!(missed.is_empty());
    let just_in_time = EventResume { runtime_instance_id, last_cursor: 4 };
    let (subscription, missed) = store.subscribe(Some(just_in_time), 2);
    assert!(!subscription.resync_required);
    assert_eq!(missed.len(), 4096);
}

#[test]
fn events_are_delivered_to_those_who_were_there() {
    let mut store = store();
    store.subscribe(None, 7);
    store.emit_fields("one", EventFields::new());
    store.subscribe(None, 8);
    store.emit_fields("two", EventFields::new());
    let deliveries = store.take_pending();
    assert_eq!(deliveries.len(), 2);
    assert_eq!(deliveries[0].subscribers, [7]);
    assert_eq!(deliveries[1].subscribers, [7, 8]);
    assert!(store.take_pending().is_empty());
    store.drop_subscribers(&vec![7]);
    store.emit_fields("three", EventFields::new());
    assert_eq!(store.take_pending()[0].subscribers, [8]);
}

#[test]
fn errors_are_noted_and_only_the_latest_are_kept() {
    let mut store = store();
    for i in 0..201u64 {
        let error = ToolboxError::new(ErrorCode::Internal, "test", "test").cause(format!("{i}"));
        store.push_error(error);
    }
    let snapshot = store.snapshot();
    assert_eq!(snapshot.recent_errors.len(), 200);
    assert_eq!(snapshot.recent_errors[0].cause.as_deref(), Some("1"));
    assert_eq!(snapshot.recent_errors[199].cause.as_deref(), Some("200"));
    let deliveries = store.take_pending();
    assert_eq!(deliveries.len(), 201);
    assert_eq!(deliveries[0].event.event_type, "error.raised");
    assert!(matches!(deliveries[0].event.payload, EventPayload::Error(_)));
}

#[test]
fn setting_the_project_tells_its_name() {
    let mut store = store();
    let mut project = ToolboxProject::demo(0.18, 0.0, 100.0);
    project.name = "Other".to_string();
    let id = project.id;
    store.set_project(Arc::new(project));
    assert_eq!(store.project().id, id);
    let deliveries = store.take_pending();
    match &deliveries[0].event.payload {
        EventPayload::Project { project_id, name } => {
            assert_eq!(*project_id, id);
            assert_eq!(name, "Other");
        }
        _ => panic!("project expected"),
    }
}

#[test]
fn the_data_hub_counts_and_forgets() {
    let mut hub = DataHub::new();
    assert_eq!(hub.subscribe(3), 1);
    assert_eq!(hub.subscribe(4), 2);
    assert_eq!(hub.send(), [3, 4]);
    hub.drop_subscribers(&vec![3]);
    assert_eq!(hub.send(), [4]);
}

#[test]
fn a_snapshot_shows_what_was_set_last() {
    let mut store = store();
    let first = store.snapshot();
    assert_eq!(first.event_cursor, 0);
    assert!(first.sources.is_empty() && first.recent_errors.is_empty());
    let project: Arc<ToolboxProject<f64>> = Arc::new(ToolboxProject::demo(0.5, 1.0, 2.0));
    store.set_project(project.clone());
    store.update_latest_values(&[(Uuid::nil(), 1.0)]);
    store.update_latest_values(&[(Uuid::nil(), 2.0)]);
    store.push_error(ToolboxError::new(ErrorCode::ParseFailed, "test", "failed"));
    let snapshot = store.snapshot();
    assert_eq!(snapshot.event_cursor, 2);
    assert_eq!(snapshot.project.id, project.id);
    assert_eq!(snapshot.latest_channel_values.get(Uuid::nil()), Some(&2.0));
    assert_eq!(snapshot.recent_errors[0].message_key, "failed");
    assert_eq!(snapshot.runtime_instance_id, first.runtime_instance_id);
}
