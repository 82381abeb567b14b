use embedded_toolbox::event::StateStore;
use embedded_toolbox::ident::Uuid;
use embedded_toolbox::math::{Operation, RawNumber, SampleMath};
use embedded_toolbox::model::{Direction, ToolboxProject};
use embedded_toolbox::replay::{ReplayPlayer, ReplayStep};
use embedded_toolbox::session::{ReplayChunk, ReplayData};
use std::sync::Arc;

struct Doubles;

impl SampleMath<f64> for Doubles {
    fn parse(&self, text: String) -> Result<f64, String> {
        text.parse::<f64>().map_err(|error| error.to_string())
    }

    fn number(&self, raw: RawNumber) -> f64 {
        match raw {
            RawNumber::Unsigned(value) => value as f64,
            _ => 0.0,
        }
    }

    fn evaluate(&self, operation: Operation<f64>) -> f64 {
        match operation {
            Operation::Blend { value, old, alpha } => alpha * value + (1.0 - alpha) * old,
            _ => 0.0,
        }
    }

    fn is_finite(&self, value: f64) -> bool {
        value.is_finite()
    }
}

fn chunk(session_offset_ns: i64, source_epoch: u64, bytes: &[u8]) -> ReplayChunk {
    ReplayChunk {
        source_id: Uuid::nil(),
        source_epoch,
        sequence: 1,
        monotonic_offset_ns: session_offset_ns,
        session_offset_ns,
        direction: Direction::Rx,
        bytes: Arc::new(bytes.to_vec()),
        epoch_changed: false,
    }
}

fn player(chunks: Vec<ReplayChunk>) -> (ReplayPlayer<f64>, StateStore<f64>) {
    let project = Arc::new(ToolboxProject::demo(0.5, 0.0, 100.0));
    let state = StateStore::new(project.clone());
    (ReplayPlayer::new(ReplayData { project, chunks }).unwrap(), state)
}

fn names(state: &mut StateStore<f64>) -> Vec<String> {
    state
        .take_pending()
        .iter()
        .map(|delivery| delivery.event.event_type.clone())
        .collect()
}

#[test]
fn chunks_are_played_at_their_times() {
    let (mut player, mut state) = player(vec![chunk(5, 1, b"1,2,3\n"), chunk(12, 1, b"4,")]);
    assert_eq!(player.advance(false, None, &mut state), ReplayStep::Wait { nanoseconds: 5 });
    let first = player.play(&Doubles, &mut state);
    assert_eq!(first.raw[36..44], 1u64.to_le_bytes());
    assert_eq!(first.packets.unwrap().sequence, 2);
    assert_eq!(first.samples.unwrap().sequence, 3);
    assert_eq!(player.advance(false, None, &mut state), ReplayStep::Wait { nanoseconds: 7 });
    let second = player.play(&Doubles, &mut state);
    assert_eq!(second.raw[36..44], 4u64.to_le_bytes());
    assert!(second.packets.is_none());
    assert!(second.samples.is_none());
    assert_eq!(player.advance(false, None, &mut state), ReplayStep::Finished);
    player.finish(false, &mut state);
    assert_eq!(
        names(&mut state),
        ["replay.epochStart", "replay.epochEnd", "replay.completed"]
    );
}

#[test]
fn another_connection_begins_afresh() {
    let (mut player, mut state) = player(vec![chunk(0, 1, b"1,10,1\n9,9"), chunk(0, 2, b"2,20,2\n")]);
    player.advance(false, None, &mut state);
    player.play(&Doubles, &mut state);
    names(&mut state);
    player.advance(false, None, &mut state);
    assert_eq!(
        names(&mut state),
        ["replay.epochEnd", "replay.streamGap", "replay.epochStart"]
    );
    let played = player.play(&Doubles, &mut state);
    let values: Vec<f64> = played.output.samples.iter().map(|sample| sample.value).collect();
    assert_eq!(values, [2.0, 20.0, 2.0]);
}

#[test]
fn seeking_goes_to_the_first_chunk_from_there() {
    let (mut player, mut state) = player(vec![
        chunk(10, 1, b"1,1,1\n"),
        chunk(20, 1, b"2,2"),
        chunk(30, 1, b"3,3,3\n"),
    ]);
    player.advance(false, None, &mut state);
    names(&mut state);
    assert_eq!(
        player.advance(false, Some(15), &mut state),
        ReplayStep::Wait { nanoseconds: 0 }
    );
    assert_eq!(names(&mut state), ["replay.seeked", "replay.epochStart"]);
    assert!(player.play(&Doubles, &mut state).samples.is_none());
    assert!(names(&mut state).is_empty());
    assert_eq!(
        player.advance(false, Some(30), &mut state),
        ReplayStep::Wait { nanoseconds: 0 }
    );
    assert!(player.play(&Doubles, &mut state).samples.is_some());
    assert_eq!(
        names(&mut state),
        ["replay.seeked", "replay.epochStart", "replay.warmed"]
    );
}

#[test]
fn seeking_beyond_the_end_finishes() {
    let (mut player, mut state) = player(vec![chunk(10, 1, b"1,1,1\n")]);
    assert_eq!(player.advance(false, Some(11), &mut state), ReplayStep::Finished);
    assert!(names(&mut state).is_empty());
    assert!(player.has_room());
}

#[test]
fn a_player_stops_when_it_is_asked_to() {
    let (mut player, mut state) = player(vec![chunk(10, 1, b"1,1,1\n")]);
    assert_eq!(player.advance(true, None, &mut state), ReplayStep::Finished);
    player.finish(true, &mut state);
    assert_eq!(names(&mut state), ["replay.completed"]);
}
