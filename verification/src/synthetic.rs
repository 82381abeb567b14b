//! A transport without a device: reproducible telemetry with injected faults.

use crate::error::{failure, ErrorCode, ToolboxError};
use crate::framer::{rule_defect, FramerState};
use crate::framer_laws::{
    indivisible_end, joined, law_fragmentation_does_not_matter, pushed_frames,
};
use crate::ident::Uuid;
use crate::model::{copy_bytes, FaultPlan, FramerRule, SyntheticConfig};
use crate::tx::{due, is_due};
use vstd::prelude::*;
use vstd::slice::slice_subrange;

verus! {

/// How long a stall lasts.
pub const STALL_MS: u64 = 250;

/// How many more times a frame comes in a burst.
pub const BURST_FRAMES: usize = 9;

/// The rate that is used for a rate that was asked for.
pub open spec fn usable_rate(rate_hz: u32) -> u32 {
    if rate_hz < 1 {
        1
    } else if rate_hz > 100_000 {
        100_000
    } else {
        rate_hz
    }
}

fn clamp_rate(rate_hz: u32) -> (rate: u32)
    ensures
        rate == usable_rate(rate_hz),
{
    if rate_hz < 1 {
        1
    } else if rate_hz > 100_000 {
        100_000
    } else {
        rate_hz
    }
}

/// The number after a number of the generator.
pub open spec fn next_random(value: u64) -> u64 {
    let a = value ^ (value << 13u64);
    let b = a ^ (a >> 7u64);
    b ^ (b << 17u64)
}

/// Where the generator starts.
pub open spec fn random_seed(seed: u64) -> u64 {
    if seed == 0 {
        1
    } else {
        seed
    }
}

/// Whether the setpoint is at its upper level: it changes every four seconds.
pub open spec fn setpoint_is_high(frame: u64, rate: u32) -> bool {
    (frame as int / (rate as int * 4)) % 2 != 0
}

/// What happens at one frame.
#[derive(Debug)]
pub enum SyntheticStep {
    /// The connection is lost.
    Disconnect(ToolboxError),
    /// A frame is due.
    Frame {
        /// Whether nothing happens for a while first.
        stall: bool,
        /// Whether the setpoint is at its upper level.
        high: bool,
        /// The noise, in thousandths.
        noise_permille: u64,
    },
}

/// Everything that a synthetic source keeps.
#[verifier::ext_equal]
pub struct SyntheticState {
    pub config: SyntheticConfig,
    pub frame: u64,
    pub random: u64,
}

/// What a step from one frame to the next does: the connection is lost where the plan of
/// faults says so, and otherwise a frame is due.
pub open spec fn stepped(
    before: SyntheticState,
    source_id: Uuid,
    step: SyntheticStep,
    after: SyntheticState,
) -> bool {
    &&& after.config == before.config
    &&& after.frame == before.frame + 1
    &&& if before.config.faults.disconnect_after_frames matches Some(limit)
        && after.frame >= limit {
        &&& after.random == before.random
        &&& step matches SyntheticStep::Disconnect(error)
        &&& error@ == failure(
            ErrorCode::DeviceDisconnected,
            "synthetic.read"@,
            "fault_disconnect_injected"@,
        ).at(source_id)
    } else {
        &&& after.random == next_random(before.random)
        &&& step matches SyntheticStep::Frame { stall, high, noise_permille }
        &&& stall == due(before.config.faults.stall_every_frames, after.frame)
        &&& high == setpoint_is_high(after.frame, usable_rate(before.config.rate_hz))
        &&& noise_permille == after.random % 1000
    }
}

/// A source of frames.
pub struct SyntheticSource {
    config: SyntheticConfig,
    frame: u64,
    random: u64,
}

impl View for SyntheticSource {
    type V = SyntheticState;

    closed spec fn view(&self) -> SyntheticState {
        SyntheticState { config: self.config, frame: self.frame, random: self.random }
    }
}

impl SyntheticSource {
    /// A source before its first frame.
    pub fn new(config: SyntheticConfig) -> (source: SyntheticSource)
        ensures
            source@ == (SyntheticState {
                config,
                frame: 0,
                random: random_seed(config.seed),
            }),
    {
        SyntheticSource {
            config,
            frame: 0,
            random: if config.seed == 0 {
                1
            } else {
                config.seed
            },
        }
    }

    /// The time between frames.
    pub fn period_ns(&self) -> (period: u64)
        ensures
            period == 1_000_000_000int / (usable_rate(self@.config.rate_hz) as int),
    {
        1_000_000_000u64 / clamp_rate(self.config.rate_hz) as u64
    }

    /// How many frames there have been.
    pub fn frame_count(&self) -> (count: u64)
        ensures
            count == self@.frame,
    {
        self.frame
    }

    /// The next frame.
    pub fn step(&mut self, source_id: Uuid) -> (step: SyntheticStep)
        requires
            old(self)@.frame < u64::MAX,
        ensures
            stepped(old(self)@, source_id, step, final(self)@),
    {
        self.frame = self.frame + 1;
        if let Some(limit) = self.config.faults.disconnect_after_frames {
            if self.frame >= limit {
                return SyntheticStep::Disconnect(
                    ToolboxError::new(
                        ErrorCode::DeviceDisconnected,
                        "synthetic.read",
                        "fault_disconnect_injected",
                    ).source(source_id),
                );
            }
        }
        let stall = is_due(self.config.faults.stall_every_frames, self.frame);
        let rate = clamp_rate(self.config.rate_hz);
        let high = (self.frame / (rate as u64 * 4)) % 2 != 0;
        let mut random = self.random;
        random = random ^ (random << 13u64);
        random = random ^ (random >> 7u64);
        random = random ^ (random << 17u64);
        self.random = random;
        SyntheticStep::Frame { stall, high, noise_permille: random % 1000 }
    }

    /// The pieces in which the bytes of the present frame arrive.
    pub fn pieces(&self, bytes: Vec<u8>) -> (pieces: Vec<Vec<u8>>)
        ensures
            piece_bytes(pieces@) == arriving(self@.config.faults, self@.frame, bytes@),
    {
        synthetic_pieces(&self.config.faults, self.frame, bytes)
    }
}

/// The bytes of pieces.
pub open spec fn piece_bytes(pieces: Seq<Vec<u8>>) -> Seq<Seq<u8>> {
    pieces.map_values(|piece: Vec<u8>| piece@)
}

/// Bytes with the first one spoilt.
pub open spec fn spoilt(bytes: Seq<u8>) -> Seq<u8> {
    if bytes.len() > 0 {
        bytes.update(0, 0x58)
    } else {
        bytes
    }
}

/// Bytes in pieces of a length; the last one may be shorter.
pub open spec fn fragments(bytes: Seq<u8>, length: nat) -> Seq<Seq<u8>>
    decreases bytes.len(),
{
    if bytes.len() == 0 || length == 0 {
        Seq::empty()
    } else if bytes.len() <= length {
        seq![bytes]
    } else {
        seq![bytes.take(length as int)] + fragments(bytes.skip(length as int), length)
    }
}

/// The same bytes a number of times.
pub open spec fn repeated(bytes: Seq<u8>, count: nat) -> Seq<Seq<u8>> {
    Seq::new(count, |i: int| bytes)
}

/// The pieces in which the bytes of a frame arrive under a plan of faults.
pub open spec fn arriving(faults: FaultPlan, frame: u64, bytes: Seq<u8>) -> Seq<Seq<u8>> {
    let bytes = if due(faults.corrupt_every_frames, frame) {
        spoilt(bytes)
    } else {
        bytes
    };
    if due(faults.drop_every_frames, frame) {
        Seq::empty()
    } else {
        let once = match faults.fragment_max_bytes {
            Some(length) => if length > 0 {
                fragments(bytes, length as nat)
            } else {
                seq![bytes]
            },
            None => seq![bytes],
        };
        let duplicate = if due(faults.duplicate_every_frames, frame) {
            seq![bytes]
        } else {
            Seq::empty()
        };
        let burst = if due(faults.burst_every_frames, frame) {
            repeated(bytes, BURST_FRAMES as nat)
        } else {
            Seq::empty()
        };
        once + duplicate + burst
    }
}

fn push_piece(pieces: &mut Vec<Vec<u8>>, bytes: &Vec<u8>)
    ensures
        piece_bytes(final(pieces)@) == piece_bytes(old(pieces)@).push(bytes@),
{
    pieces.push(copy_bytes(bytes));
    assert(piece_bytes(pieces@) =~= piece_bytes(old(pieces)@).push(bytes@));
}

/// Appends bytes in pieces of a length.
fn push_fragments(pieces: &mut Vec<Vec<u8>>, bytes: &Vec<u8>, length: usize)
    requires
        length > 0,
    ensures
        piece_bytes(final(pieces)@) == piece_bytes(old(pieces)@) + fragments(
            bytes@,
            length as nat,
        ),
{
    let mut at: usize = 0;
    let len = bytes.len();
    assert(bytes@.skip(0) =~= bytes@);
    while at < len
        invariant
            at <= len,
            len == bytes@.len(),
            length > 0,
            piece_bytes(pieces@) + fragments(bytes@.skip(at as int), length as nat) == piece_bytes(
                old(pieces)@,
            ) + fragments(bytes@, length as nat),
        decreases len - at,
    {
        let ghost before = piece_bytes(pieces@);
        let ghost rest = bytes@.skip(at as int);
        let to = if len - at <= length {
            len
        } else {
            at + length
        };
        let mut piece: Vec<u8> = Vec::new();
        piece.extend_from_slice(slice_subrange(bytes.as_slice(), at, to));
        assert(piece@ =~= bytes@.subrange(at as int, to as int));
        push_piece(pieces, &piece);
        proof {
            if len - at <= length {
                assert(piece@ =~= rest);
                assert(bytes@.skip(to as int) =~= Seq::<u8>::empty());
            } else {
                assert(piece@ =~= rest.take(length as int));
                assert(bytes@.skip(to as int) =~= rest.skip(length as int));
            }
            assert(piece_bytes(pieces@) + fragments(bytes@.skip(to as int), length as nat)
                =~= before + fragments(rest, length as nat));
        }
        at = to;
    }
    assert(bytes@.skip(at as int) =~= Seq::<u8>::empty());
    assert(piece_bytes(pieces@) =~= piece_bytes(pieces@) + fragments(
        bytes@.skip(at as int),
        length as nat,
    ));
}

/// The pieces in which the bytes of a frame arrive under a plan of faults.
pub fn synthetic_pieces(faults: &FaultPlan, frame: u64, bytes: Vec<u8>) -> (pieces: Vec<Vec<u8>>)
    ensures
        piece_bytes(pieces@) == arriving(*faults, frame, bytes@),
{
    let ghost given = bytes@;
    let mut bytes = bytes;
    if is_due(faults.corrupt_every_frames, frame) && bytes.len() > 0 {
        bytes.set(0, 0x58);
    }
    let ghost sent = if due(faults.corrupt_every_frames, frame) {
        spoilt(given)
    } else {
        given
    };
    assert(bytes@ =~= sent);
    let mut pieces: Vec<Vec<u8>> = Vec::new();
    assert(piece_bytes(pieces@) =~= Seq::<Seq<u8>>::empty());
    if is_due(faults.drop_every_frames, frame) {
        return pieces;
    }
    let mut length: usize = 0;
    if let Some(wanted) = faults.fragment_max_bytes {
        length = wanted;
    }
    if length > 0 {
        push_fragments(&mut pieces, &bytes, length);
    } else {
        push_piece(&mut pieces, &bytes);
    }
    let ghost once = piece_bytes(pieces@);
    assert(once =~= match faults.fragment_max_bytes {
        Some(length) => if length > 0 {
            fragments(sent, length as nat)
        } else {
            seq![sent]
        },
        None => seq![sent],
    });
    let ghost duplicate: Seq<Seq<u8>> = if due(faults.duplicate_every_frames, frame) {
        seq![sent]
    } else {
        Seq::empty()
    };
    if is_due(faults.duplicate_every_frames, frame) {
        push_piece(&mut pieces, &bytes);
    }
    assert(piece_bytes(pieces@) =~= once + duplicate);
    let ghost burst: Seq<Seq<u8>> = if due(faults.burst_every_frames, frame) {
        repeated(sent, BURST_FRAMES as nat)
    } else {
        Seq::empty()
    };
    if is_due(faults.burst_every_frames, frame) {
        let mut k: usize = 0;
        assert(piece_bytes(pieces@) =~= once + duplicate + repeated(sent, 0));
        while k < BURST_FRAMES
            invariant
                k <= BURST_FRAMES,
                bytes@ == sent,
                piece_bytes(pieces@) == once + duplicate + repeated(sent, k as nat),
            decreases BURST_FRAMES - k,
        {
            push_piece(&mut pieces, &bytes);
            assert(piece_bytes(pieces@) =~= once + duplicate + repeated(sent, (k + 1) as nat));
            k += 1;
        }
    }
    assert(piece_bytes(pieces@) =~= once + duplicate + burst);
    pieces
}

/// Fragments are the bytes that were cut up, none is longer than the length that was
/// asked for, and none is empty.
pub proof fn law_fragments_are_the_frame(bytes: Seq<u8>, length: nat)
    requires
        length > 0,
    ensures
        joined(fragments(bytes, length)) == bytes,
        forall|i: int|
            0 <= i < fragments(bytes, length).len() ==> 0 < (
            #[trigger] fragments(bytes, length)[i]).len() <= length,
    decreases bytes.len(),
{
    let parts = fragments(bytes, length);
    if bytes.len() == 0 {
        assert(joined(parts) =~= bytes);
    } else if bytes.len() <= length {
        assert(parts.drop_first() =~= Seq::<Seq<u8>>::empty());
        assert(joined(parts.drop_first()) =~= Seq::<u8>::empty());
        assert(joined(parts) =~= bytes);
    } else {
        let rest = bytes.skip(length as int);
        law_fragments_are_the_frame(rest, length);
        assert(parts.drop_first() =~= fragments(rest, length));
        assert(joined(parts) =~= bytes);
        assert forall|i: int| 0 <= i < parts.len() implies 0 < (#[trigger] parts[i]).len()
            <= length by {
            if i > 0 {
                assert(parts[i] == fragments(rest, length)[i - 1]);
            }
        }
    }
}

/// Where the end of a frame is marked by at most one byte, cutting a frame into
/// fragments does not change what comes out of framing.
pub proof fn law_fragments_frame_alike(
    rule: FramerRule,
    state: FramerState,
    bytes: Seq<u8>,
    length: nat,
)
    requires
        rule_defect(rule) is None,
        indivisible_end(rule),
        state.dropping ==> rule is EndDelimiter,
        bytes.len() > 0,
        length > 0,
    ensures
        pushed_frames(rule, state, fragments(bytes, length)) == pushed_frames(
            rule,
            state,
            seq![bytes],
        ),
{
    law_fragments_are_the_frame(bytes, length);
    assert(seq![bytes].drop_first() =~= Seq::<Seq<u8>>::empty());
    assert(joined(seq![bytes].drop_first()) =~= Seq::<u8>::empty());
    assert(joined(seq![bytes]) =~= bytes);
    law_fragmentation_does_not_matter(rule, state, fragments(bytes, length), seq![bytes]);
}

/// Without faults a frame arrives once and whole.
pub proof fn law_without_faults_a_frame_arrives_whole(frame: u64, bytes: Seq<u8>)
    ensures
        arriving(crate::model::no_faults(), frame, bytes) == seq![bytes],
{
    assert(arriving(crate::model::no_faults(), frame, bytes) =~= seq![bytes]);
}

/// The generator never gets stuck: from a number other than zero it goes to a number
/// other than zero, and different numbers lead to different numbers.
pub proof fn law_the_generator_never_gets_stuck(a: u64, b: u64)
    ensures
        random_seed(a) != 0,
        a != 0 ==> next_random(a) != 0,
        a != b ==> next_random(a) != next_random(b),
{
    let a1 = a ^ (a << 13u64);
    let b1 = b ^ (b << 13u64);
    assert(a != b ==> a ^ (a << 13u64) != b ^ (b << 13u64)) by (bit_vector);
    let a2 = a1 ^ (a1 >> 7u64);
    let b2 = b1 ^ (b1 >> 7u64);
    assert(a1 != b1 ==> a1 ^ (a1 >> 7u64) != b1 ^ (b1 >> 7u64)) by (bit_vector);
    assert(a2 != b2 ==> a2 ^ (a2 << 17u64) != b2 ^ (b2 << 17u64)) by (bit_vector);
    assert(a != 0 ==> a ^ (a << 13u64) != 0) by (bit_vector);
    assert(a1 != 0 ==> a1 ^ (a1 >> 7u64) != 0) by (bit_vector);
    assert(a2 != 0 ==> a2 ^ (a2 << 17u64) != 0) by (bit_vector);
}

} // verus!
