//! What holds of a synthetic source from its start to its end.

use crate::error::{failure, ErrorCode};
use crate::framer_laws::joined;
use crate::ident::Uuid;
use crate::model::{FaultPlan, SyntheticConfig};
use crate::synthetic::{
    arriving, fragments, law_fragments_are_the_frame, piece_bytes, random_seed, repeated, spoilt,
    stepped, synthetic_pieces, SyntheticSource, SyntheticState, SyntheticStep, BURST_FRAMES,
};
use crate::tx::due;
use vstd::prelude::*;

verus! {

/// A step of a source, and the pieces of the frame that it gave.
pub struct SyntheticCall {
    pub step: SyntheticStep,
    pub pieces: Seq<Seq<u8>>,
}

/// What the frames of a run were computed from.
pub open spec fn inputs(calls: Seq<SyntheticCall>) -> Seq<(bool, u64)>
    decreases calls.len(),
{
    if calls.len() == 0 {
        Seq::empty()
    } else {
        match calls.last().step {
            SyntheticStep::Frame { high, noise_permille, .. } => inputs(calls.drop_last()).push(
                (high, noise_permille),
            ),
            SyntheticStep::Disconnect(_) => inputs(calls.drop_last()),
        }
    }
}

/// All pieces of a run, in order.
pub open spec fn all_pieces(calls: Seq<SyntheticCall>) -> Seq<Seq<u8>>
    decreases calls.len(),
{
    if calls.len() == 0 {
        Seq::empty()
    } else {
        all_pieces(calls.drop_last()) + calls.last().pieces
    }
}

/// A run of a source: it steps from frame to frame, each frame is the line that `line`
/// computes from everything so far, and it arrives as the plan of faults says. Nothing
/// comes after the connection is lost.
pub open spec fn synthetic_run(
    config: SyntheticConfig,
    source_id: Uuid,
    line: spec_fn(Seq<(bool, u64)>) -> Seq<u8>,
    states: Seq<SyntheticState>,
    calls: Seq<SyntheticCall>,
) -> bool {
    &&& states.len() == calls.len() + 1
    &&& states[0] == (SyntheticState { config, frame: 0, random: random_seed(config.seed) })
    &&& forall|i: int|
        #![trigger calls[i]]
        0 <= i < calls.len() ==> {
            &&& stepped(states[i], source_id, calls[i].step, states[i + 1])
            &&& calls[i].pieces == match calls[i].step {
                SyntheticStep::Frame { .. } => arriving(
                    config.faults,
                    states[i + 1].frame,
                    line(inputs(calls.take(i + 1))),
                ),
                SyntheticStep::Disconnect(_) => Seq::empty(),
            }
            &&& calls[i].step is Disconnect ==> i == calls.len() - 1
        }
}

/// The two differ at most in the length of fragments.
pub open spec fn differ_in_fragments(left: SyntheticConfig, right: SyntheticConfig) -> bool {
    right == (SyntheticConfig {
        faults: FaultPlan {
            fragment_max_bytes: right.faults.fragment_max_bytes,
            ..left.faults
        },
        ..left
    })
}

/// Pieces behind others are joined behind them.
proof fn lemma_joined(left: Seq<Seq<u8>>, right: Seq<Seq<u8>>)
    ensures
        joined(left + right) == joined(left) + joined(right),
    decreases left.len(),
{
    if left.len() == 0 {
        assert(left + right =~= right);
        assert(joined(left) + joined(right) =~= joined(right));
    } else {
        lemma_joined(left.drop_first(), right);
        assert((left + right).drop_first() =~= left.drop_first() + right);
        assert(joined(left + right) =~= joined(left) + joined(right));
    }
}

/// The bytes of a frame do not depend on how it is cut up.
proof fn lemma_arriving_bytes(left: FaultPlan, right: FaultPlan, frame: u64, bytes: Seq<u8>)
    requires
        right == (FaultPlan { fragment_max_bytes: right.fragment_max_bytes, ..left }),
    ensures
        joined(arriving(left, frame, bytes)) == joined(arriving(right, frame, bytes)),
{
    let bytes = if due(left.corrupt_every_frames, frame) {
        spoilt(bytes)
    } else {
        bytes
    };
    let duplicate = if due(left.duplicate_every_frames, frame) {
        seq![bytes]
    } else {
        Seq::empty()
    };
    let burst = if due(left.burst_every_frames, frame) {
        repeated(bytes, BURST_FRAMES as nat)
    } else {
        Seq::empty()
    };
    let once_left = cut(left, bytes);
    let once_right = cut(right, bytes);
    lemma_cut(left, bytes);
    lemma_cut(right, bytes);
    lemma_joined(once_left + duplicate, burst);
    lemma_joined(once_left, duplicate);
    lemma_joined(once_right + duplicate, burst);
    lemma_joined(once_right, duplicate);
}

/// A frame as it comes once.
spec fn cut(faults: FaultPlan, bytes: Seq<u8>) -> Seq<Seq<u8>> {
    match faults.fragment_max_bytes {
        Some(length) => if length > 0 {
            fragments(bytes, length as nat)
        } else {
            seq![bytes]
        },
        None => seq![bytes],
    }
}

proof fn lemma_cut(faults: FaultPlan, bytes: Seq<u8>)
    ensures
        joined(cut(faults, bytes)) == bytes,
{
    assert(seq![bytes].drop_first() =~= Seq::<Seq<u8>>::empty());
    assert(joined(seq![bytes].drop_first()) =~= Seq::<u8>::empty());
    assert(joined(seq![bytes]) =~= bytes);
    if let Some(length) = faults.fragment_max_bytes {
        if length > 0 {
            law_fragments_are_the_frame(bytes, length as nat);
        }
    }
}

proof fn lemma_state(
    config: SyntheticConfig,
    source_id: Uuid,
    line: spec_fn(Seq<(bool, u64)>) -> Seq<u8>,
    states: Seq<SyntheticState>,
    calls: Seq<SyntheticCall>,
    count: int,
)
    requires
        synthetic_run(config, source_id, line, states, calls),
        0 <= count <= calls.len(),
    ensures
        states[count].config == config,
        states[count].frame == count,
    decreases count,
{
    if count > 0 {
        lemma_state(config, source_id, line, states, calls, count - 1);
        assert(stepped(states[count - 1], source_id, calls[count - 1].step, states[count]));
    }
}

proof fn lemma_runs_agree(
    left: SyntheticConfig,
    right: SyntheticConfig,
    source_id: Uuid,
    line: spec_fn(Seq<(bool, u64)>) -> Seq<u8>,
    left_states: Seq<SyntheticState>,
    left_calls: Seq<SyntheticCall>,
    right_states: Seq<SyntheticState>,
    right_calls: Seq<SyntheticCall>,
    count: int,
)
    requires
        differ_in_fragments(left, right),
        synthetic_run(left, source_id, line, left_states, left_calls),
        synthetic_run(right, source_id, line, right_states, right_calls),
        0 <= count <= left_calls.len(),
        left_calls.len() == right_calls.len(),
    ensures
        left_states[count].random == right_states[count].random,
        inputs(left_calls.take(count)) == inputs(right_calls.take(count)),
        joined(all_pieces(left_calls.take(count))) == joined(all_pieces(right_calls.take(count))),
    decreases count,
{
    lemma_state(left, source_id, line, left_states, left_calls, count);
    lemma_state(right, source_id, line, right_states, right_calls, count);
    if count > 0 {
        let i = count - 1;
        lemma_runs_agree(
            left,
            right,
            source_id,
            line,
            left_states,
            left_calls,
            right_states,
            right_calls,
            i,
        );
        lemma_state(left, source_id, line, left_states, left_calls, i);
        lemma_state(right, source_id, line, right_states, right_calls, i);
        assert(left_calls.take(count).drop_last() =~= left_calls.take(i));
        assert(right_calls.take(count).drop_last() =~= right_calls.take(i));
        assert(stepped(left_states[i], source_id, left_calls[i].step, left_states[count]));
        assert(stepped(right_states[i], source_id, right_calls[i].step, right_states[count]));
        assert(left_calls[i].step is Disconnect <==> right_calls[i].step is Disconnect);
        assert(inputs(left_calls.take(count)) == inputs(right_calls.take(count)));
        if left_calls[i].step is Frame {
            lemma_arriving_bytes(
                left.faults,
                right.faults,
                left_states[count].frame,
                line(inputs(left_calls.take(count))),
            );
        }
        lemma_joined(all_pieces(left_calls.take(i)), left_calls[i].pieces);
        lemma_joined(all_pieces(right_calls.take(i)), right_calls[i].pieces);
    }
}

/// The length of fragments decides how the bytes of a source are cut up, not what they
/// are: two runs that are otherwise set up alike give the same bytes.
pub proof fn law_fragments_do_not_change_the_bytes(
    left: SyntheticConfig,
    right: SyntheticConfig,
    source_id: Uuid,
    line: spec_fn(Seq<(bool, u64)>) -> Seq<u8>,
    left_states: Seq<SyntheticState>,
    left_calls: Seq<SyntheticCall>,
    right_states: Seq<SyntheticState>,
    right_calls: Seq<SyntheticCall>,
)
    requires
        differ_in_fragments(left, right),
        synthetic_run(left, source_id, line, left_states, left_calls),
        synthetic_run(right, source_id, line, right_states, right_calls),
        left_calls.len() == right_calls.len(),
    ensures
        joined(all_pieces(left_calls)) == joined(all_pieces(right_calls)),
{
    let count = left_calls.len() as int;
    lemma_runs_agree(
        left,
        right,
        source_id,
        line,
        left_states,
        left_calls,
        right_states,
        right_calls,
        count,
    );
    assert(left_calls.take(count) =~= left_calls);
    assert(right_calls.take(count) =~= right_calls);
}

/// Where nothing is sent twice or in bursts, no piece is longer than the fragments that
/// were asked for, and none is empty.
pub proof fn law_pieces_are_short(
    config: SyntheticConfig,
    source_id: Uuid,
    line: spec_fn(Seq<(bool, u64)>) -> Seq<u8>,
    states: Seq<SyntheticState>,
    calls: Seq<SyntheticCall>,
    length: usize,
    i: int,
    j: int,
)
    requires
        synthetic_run(config, source_id, line, states, calls),
        config.faults.fragment_max_bytes == Some(length),
        length > 0,
        0 <= i < calls.len(),
        !due(config.faults.duplicate_every_frames, (i + 1) as u64),
        !due(config.faults.burst_every_frames, (i + 1) as u64),
        0 <= j < calls[i].pieces.len(),
    ensures
        1 <= calls[i].pieces[j].len() <= length,
{
    lemma_state(config, source_id, line, states, calls, i);
    assert(stepped(states[i], source_id, calls[i].step, states[i + 1]));
    let bytes = line(inputs(calls.take(i + 1)));
    let bytes = if due(config.faults.corrupt_every_frames, states[i + 1].frame) {
        spoilt(bytes)
    } else {
        bytes
    };
    law_fragments_are_the_frame(bytes, length as nat);
    if !due(config.faults.drop_every_frames, states[i + 1].frame) {
        assert(calls[i].pieces =~= fragments(bytes, length as nat));
    }
}

/// A source that is to be lost after so many frames gives all frames before that one, and
/// is lost in its place: at the first step where the number is zero or one.
pub proof fn law_the_source_is_lost_in_time(
    config: SyntheticConfig,
    source_id: Uuid,
    line: spec_fn(Seq<(bool, u64)>) -> Seq<u8>,
    states: Seq<SyntheticState>,
    calls: Seq<SyntheticCall>,
    limit: u64,
)
    requires
        synthetic_run(config, source_id, line, states, calls),
        config.faults.disconnect_after_frames == Some(limit),
    ensures
        calls.len() <= if limit == 0 {
            1
        } else {
            limit
        },
        forall|i: int|
            0 <= i < calls.len() ==> {
                &&& (#[trigger] calls[i]).step is Frame <==> i + 1 < limit
                &&& calls[i].step matches SyntheticStep::Disconnect(error) ==> {
                    &&& i == calls.len() - 1
                    &&& error@ == failure(
                        ErrorCode::DeviceDisconnected,
                        "synthetic.read"@,
                        "fault_disconnect_injected"@,
                    ).at(source_id)
                    &&& calls[i].pieces.len() == 0
                }
            },
{
    assert forall|i: int| 0 <= i < calls.len() implies {
        &&& (#[trigger] calls[i]).step is Frame <==> i + 1 < limit
        &&& calls[i].step matches SyntheticStep::Disconnect(error) ==> {
            &&& i == calls.len() - 1
            &&& error@ == failure(
                ErrorCode::DeviceDisconnected,
                "synthetic.read"@,
                "fault_disconnect_injected"@,
            ).at(source_id)
            &&& calls[i].pieces.len() == 0
        }
    } by {
        lemma_state(config, source_id, line, states, calls, i);
        assert(stepped(states[i], source_id, calls[i].step, states[i + 1]));
    }
    if limit == 0 {
        if calls.len() > 1 {
            assert(calls[0].step is Disconnect);
        }
    } else if calls.len() > limit {
        assert(calls[limit - 1].step is Disconnect);
    }
}

/// A source gives its frames at the rate that it was set up for, in whole nanoseconds; none is
/// slower than one in a second, nor faster than a hundred thousand.
pub proof fn law_frames_come_at_the_rate(source: &SyntheticSource, period: u64)
    requires
        call_ensures(SyntheticSource::period_ns, (source,), period),
    ensures
        1 <= source@.config.rate_hz <= 100_000 ==> period * source@.config.rate_hz
            <= 1_000_000_000 < (period + 1) * source@.config.rate_hz,
        source@.config.rate_hz == 0 ==> period == 1_000_000_000,
        source@.config.rate_hz > 100_000 ==> period == 10_000,
{
    let rate = source@.config.rate_hz as int;
    if 1 <= rate <= 100_000 {
        vstd::arithmetic::div_mod::lemma_fundamental_div_mod(1_000_000_000, rate);
        assert(period as int * rate == rate * period as int) by (nonlinear_arith);
        assert((period + 1) * rate == period * rate + rate) by (nonlinear_arith);
    }
}

/// A source begins before its first frame, and each step is one frame: it is lost where the
/// plan says so, stalls where the plan says so, and changes its setpoint every four seconds,
/// which it begins low. The noise is less than a thousand thousandths.
pub proof fn law_a_step_is_a_frame(
    config: SyntheticConfig,
    fresh: SyntheticSource,
    source: &mut SyntheticSource,
    source_id: Uuid,
    step: SyntheticStep,
    after: &SyntheticSource,
    count: u64,
    turns: int,
    within: int,
)
    requires
        call_ensures(SyntheticSource::new, (config,), fresh),
        old(source)@.frame < u64::MAX,
        1 <= old(source)@.config.rate_hz <= 100_000,
        call_ensures(SyntheticSource::step, (source, source_id), step),
        *after == *final(source),
        call_ensures(SyntheticSource::frame_count, (after,), count),
        count == turns * (4 * old(source)@.config.rate_hz) + within,
        0 <= within < 4 * old(source)@.config.rate_hz,
        0 <= turns,
    ensures
        fresh@.config == config,
        fresh@.frame == 0,
        fresh@.random != 0,
        config.seed != 0 ==> fresh@.random == config.seed,
        count == old(source)@.frame + 1,
        final(source)@.config == old(source)@.config,
        step is Disconnect <==> old(source)@.config.faults.disconnect_after_frames is Some && count
            >= old(source)@.config.faults.disconnect_after_frames->Some_0,
        step is Disconnect ==> step->Disconnect_0.source_id == Some(source_id)
            && step->Disconnect_0.message_key@ == "fault_disconnect_injected"@,
        step is Frame ==> {
            &&& step->stall == due(old(source)@.config.faults.stall_every_frames, count)
            &&& step->high == (turns % 2 == 1)
            &&& step->noise_permille < 1000
        },
{
    let rate = old(source)@.config.rate_hz as int;
    let span = rate * 4;
    assert(turns * (4 * rate) == turns * span);
    vstd::arithmetic::div_mod::lemma_fundamental_div_mod_converse(
        count as int,
        span,
        turns,
        within,
    );
}

/// The noise comes from a generator that shifts by thirteen, seven and seventeen bits, and is
/// what is left of its number over thousands.
pub proof fn law_noise_comes_from_the_generator(
    source: &mut SyntheticSource,
    source_id: Uuid,
    step: SyntheticStep,
    first: u64,
    second: u64,
)
    requires
        old(source)@.frame < u64::MAX,
        call_ensures(SyntheticSource::step, (source, source_id), step),
        first == old(source)@.random ^ (old(source)@.random << 13u64),
        second == first ^ (first >> 7u64),
    ensures
        step is Frame ==> final(source)@.random == second ^ (second << 17u64),
        step is Frame ==> step->noise_permille == (second ^ (second << 17u64)) % 1000,
        step is Disconnect ==> final(source)@.random == old(source)@.random,
{
}

/// How often a frame comes again behind its pieces.
pub open spec fn echoes(faults: FaultPlan, frame: u64) -> int {
    (if due(faults.duplicate_every_frames, frame) {
        1int
    } else {
        0
    }) + (if due(faults.burst_every_frames, frame) {
        9int
    } else {
        0
    })
}

/// A frame that is dropped gives nothing. Any other arrives once, in pieces that are its bytes
/// in order, all of the length that was asked for but for the last, or in one piece; then it
/// comes again whole, once where it is doubled and nine times in a burst. A spoilt frame
/// differs in its first byte, which is an `X`.
pub proof fn law_a_frame_arrives_as_planned(
    faults: &FaultPlan,
    frame: u64,
    bytes: Vec<u8>,
    pieces: Vec<Vec<u8>>,
    sent: Seq<u8>,
    once: int,
)
    requires
        call_ensures(synthetic_pieces, (faults, frame, bytes), pieces),
        sent.len() == bytes@.len(),
        forall|i: int|
            0 <= i < sent.len() ==> #[trigger] sent[i] == if i == 0 && due(
                faults.corrupt_every_frames,
                frame,
            ) {
                88u8
            } else {
                bytes@[i]
            },
        once == pieces@.len() - echoes(*faults, frame),
    ensures
        due(faults.drop_every_frames, frame) ==> pieces@.len() == 0,
        !due(faults.drop_every_frames, frame) ==> {
            &&& 0 <= once
            &&& joined(piece_bytes(pieces@).take(once)) == sent
            &&& forall|i: int|
                once <= i < pieces@.len() ==> (#[trigger] pieces@[i])@ == sent
            &&& faults.fragment_max_bytes is None || faults.fragment_max_bytes == Some(0usize)
                ==> once == 1
            &&& faults.fragment_max_bytes is Some && faults.fragment_max_bytes->Some_0 > 0
                ==> forall|i: int|
                0 <= i < once ==> {
                    &&& 1 <= (#[trigger] pieces@[i])@.len() <= faults.fragment_max_bytes->Some_0
                    &&& i < once - 1 ==> pieces@[i]@.len() == faults.fragment_max_bytes->Some_0
                }
        },
{
    let whole = if due(faults.corrupt_every_frames, frame) {
        spoilt(bytes@)
    } else {
        bytes@
    };
    assert(whole =~= sent);
    let all = piece_bytes(pieces@);
    assert forall|i: int| 0 <= i < pieces@.len() implies (#[trigger] pieces@[i])@ == all[i] by {}
    if !due(faults.drop_every_frames, frame) {
        let first = match faults.fragment_max_bytes {
            Some(length) => if length > 0 {
                fragments(sent, length as nat)
            } else {
                seq![sent]
            },
            None => seq![sent],
        };
        assert(all.len() == first.len() + echoes(*faults, frame));
        assert(all.take(once) =~= first);
        if faults.fragment_max_bytes is Some && faults.fragment_max_bytes->Some_0 > 0 {
            let length = faults.fragment_max_bytes->Some_0 as nat;
            law_fragments_are_the_frame(sent, length);
            lemma_fragments_are_full(sent, length);
            assert forall|i: int| 0 <= i < once implies {
                &&& 1 <= (#[trigger] pieces@[i])@.len() <= length
                &&& i < once - 1 ==> pieces@[i]@.len() == length
            } by {
                assert(pieces@[i]@ == first[i]);
            }
        } else {
            assert(first.drop_first() =~= Seq::<Seq<u8>>::empty());
            assert(joined(first.drop_first()) =~= Seq::<u8>::empty());
            assert(joined(first) =~= sent);
        }
    }
}

proof fn lemma_fragments_are_full(bytes: Seq<u8>, length: nat)
    requires
        length > 0,
    ensures
        forall|i: int|
            0 <= i < fragments(bytes, length).len() - 1 ==> (
            #[trigger] fragments(bytes, length)[i]).len() == length,
    decreases bytes.len(),
{
    if bytes.len() > length {
        let rest = bytes.skip(length as int);
        let parts = fragments(bytes, length);
        lemma_fragments_are_full(rest, length);
        assert forall|i: int| 0 <= i < parts.len() - 1 implies (#[trigger] parts[i]).len()
            == length by {
            if i > 0 {
                assert(parts[i] == fragments(rest, length)[i - 1]);
            }
        }
    }
}

/// The pieces of a frame follow the plan of its source and the number of the frame.
pub proof fn law_a_source_cuts_its_present_frame(
    source: &SyntheticSource,
    bytes: Vec<u8>,
    pieces: Vec<Vec<u8>>,
    count: u64,
    expected: Vec<Vec<u8>>,
)
    requires
        call_ensures(SyntheticSource::pieces, (source, bytes), pieces),
        call_ensures(SyntheticSource::frame_count, (source,), count),
        call_ensures(synthetic_pieces, (&source@.config.faults, count, bytes), expected),
    ensures
        pieces@.len() == expected@.len(),
        forall|i: int| 0 <= i < pieces@.len() ==> (#[trigger] pieces@[i])@ == expected@[i]@,
{
    let own = piece_bytes(pieces@);
    let planned = piece_bytes(expected@);
    assert(own == planned);
    assert(own.len() == pieces@.len() && planned.len() == expected@.len());
    assert forall|i: int| 0 <= i < pieces@.len() implies (#[trigger] pieces@[i])@
        == expected@[i]@ by {
        assert(own[i] == pieces@[i]@);
        assert(planned[i] == expected@[i]@);
    }
}

} // verus!
