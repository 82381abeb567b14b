use embedded_toolbox::error::ErrorCode;
use embedded_toolbox::ident::Uuid;
use embedded_toolbox::model::{FaultPlan, SyntheticConfig};
use embedded_toolbox::synthetic::{synthetic_pieces, SyntheticSource, SyntheticStep};

fn config(rate_hz: u32, seed: u64, faults: FaultPlan) -> SyntheticConfig {
    SyntheticConfig { rate_hz, seed, faults }
}

fn noise(source: &mut SyntheticSource) -> u64 {
    match source.step(Uuid::nil()) {
        SyntheticStep::Frame { noise_permille, .. } => noise_permille,
        SyntheticStep::Disconnect(_) => panic!("a frame was expected"),
    }
}

#[test]
fn the_same_seed_gives_the_same_stream() {
    let mut left = SyntheticSource::new(config(50, 0x5eed, FaultPlan::default()));
    let mut right = SyntheticSource::new(config(50, 0x5eed, FaultPlan::default()));
    let mut other = SyntheticSource::new(config(50, 1, FaultPlan::default()));
    let first: Vec<u64> = (0..50).map(|_| noise(&mut left)).collect();
    let second: Vec<u64> = (0..50).map(|_| noise(&mut right)).collect();
    let third: Vec<u64> = (0..50).map(|_| noise(&mut other)).collect();
    assert_eq!(first, second);
    assert_ne!(first, third);
}

#[test]
fn the_generator_follows_its_formula() {
    let mut source = SyntheticSource::new(config(50, 0, FaultPlan::default()));
    let mut random: u64 = 1;
    for _ in 0..10 {
        random ^= random << 13;
        random ^= random >> 7;
        random ^= random << 17;
        assert_eq!(noise(&mut source), random % 1000);
    }
    assert_eq!(source.frame_count(), 10);
}

#[test]
fn rates_are_brought_into_range() {
    let period = |rate| SyntheticSource::new(config(rate, 1, FaultPlan::default())).period_ns();
    assert_eq!(period(0), 1_000_000_000);
    assert_eq!(period(50), 20_000_000);
    assert_eq!(period(1_000_000), 10_000);
}

#[test]
fn the_setpoint_changes_every_four_seconds() {
    let mut source = SyntheticSource::new(config(1, 1, FaultPlan::default()));
    let levels: Vec<bool> = (0..9)
        .map(|_| match source.step(Uuid::nil()) {
            SyntheticStep::Frame { high, .. } => high,
            SyntheticStep::Disconnect(_) => panic!("a frame was expected"),
        })
        .collect();
    assert_eq!(levels, [false, false, false, true, true, true, true, false, false]);
}

#[test]
fn stalls_and_disconnects_are_injected() {
    let faults = FaultPlan {
        stall_every_frames: Some(2),
        disconnect_after_frames: Some(3),
        ..FaultPlan::default()
    };
    let mut source = SyntheticSource::new(config(1, 1, faults));
    assert!(matches!(source.step(Uuid::nil()), SyntheticStep::Frame { stall: false, .. }));
    assert!(matches!(source.step(Uuid::nil()), SyntheticStep::Frame { stall: true, .. }));
    match source.step(Uuid::nil()) {
        SyntheticStep::Disconnect(error) => {
            assert_eq!(error.code, ErrorCode::DeviceDisconnected.as_str());
            assert_eq!(error.message_key, "fault_disconnect_injected");
        }
        SyntheticStep::Frame { .. } => panic!("a disconnect was expected"),
    }
}

#[test]
fn frames_arrive_as_the_faults_say() {
    let bytes = || b"12345\n".to_vec();
    let none = FaultPlan::default();
    assert_eq!(synthetic_pieces(&none, 1, bytes()), [bytes()]);
    let dropped = FaultPlan { drop_every_frames: Some(1), ..none };
    assert!(synthetic_pieces(&dropped, 1, bytes()).is_empty());
    let spoilt = FaultPlan { corrupt_every_frames: Some(2), ..none };
    assert_eq!(synthetic_pieces(&spoilt, 1, bytes()), [bytes()]);
    assert_eq!(synthetic_pieces(&spoilt, 2, bytes()), [b"X2345\n".to_vec()]);
    let cut = FaultPlan { fragment_max_bytes: Some(4), ..none };
    assert_eq!(synthetic_pieces(&cut, 1, bytes()), [b"1234".to_vec(), b"5\n".to_vec()]);
    let twice = FaultPlan { duplicate_every_frames: Some(1), ..none };
    assert_eq!(synthetic_pieces(&twice, 1, bytes()).len(), 2);
    let burst = FaultPlan { burst_every_frames: Some(1), ..none };
    assert_eq!(synthetic_pieces(&burst, 1, bytes()).len(), 10);
}

fn arrived(faults: FaultPlan, frames: usize) -> Vec<Vec<u8>> {
    let mut source = SyntheticSource::new(config(50, 0x5eed, faults));
    let mut all = Vec::new();
    for _ in 0..frames {
        let line = format!("{}\n", noise(&mut source));
        all.extend(source.pieces(line.into_bytes()));
    }
    all
}

#[test]
fn fragments_change_the_pieces_but_not_the_bytes() {
    let faults = FaultPlan {
        corrupt_every_frames: Some(3),
        drop_every_frames: Some(5),
        ..FaultPlan::default()
    };
    let whole = arrived(faults, 20);
    let cut = arrived(FaultPlan { fragment_max_bytes: Some(2), ..faults }, 20);
    assert_eq!(whole.len(), 16);
    assert!(cut.len() > whole.len());
    assert_eq!(cut.concat(), whole.concat());
    assert!(cut.iter().all(|piece| piece.len() == 1 || piece.len() == 2));
}

#[test]
fn a_source_is_lost_at_the_frame_it_is_told() {
    for (limit, frames) in [(0, 0), (1, 0), (4, 3)] {
        let faults = FaultPlan { disconnect_after_frames: Some(limit), ..FaultPlan::default() };
        let mut source = SyntheticSource::new(config(1, 1, faults));
        for _ in 0..frames {
            assert!(matches!(source.step(Uuid::nil()), SyntheticStep::Frame { .. }));
        }
        assert!(matches!(source.step(Uuid::nil()), SyntheticStep::Disconnect(_)));
    }
}
