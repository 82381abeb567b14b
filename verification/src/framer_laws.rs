//! What holds of framing as a whole: how a stream is cut into pushes does not
//! matter, what was framed comes out again, and nothing comes out too long.

use crate::framer::{
    after_step, declared_length, drained, frame_bytes, lemma_step_shape, next_step, read_length,
    rule_defect, Framer, FramerOutput, FramerState,
};
use crate::model::{ByteOrder, FramerRule, FramerSpec};
use crate::numeral::{big_endian, little_endian, unsigned};
use crate::search::{
    first_match, lemma_first_match, lemma_first_match_beyond, lemma_first_match_extend,
    lemma_first_match_later_start, lemma_first_match_none, lemma_first_match_skip, lemma_first_match_unique, matches_at,
};
use vstd::prelude::*;

verus! {

/// The frames that a list of pushes gives, one push after another.
pub open spec fn pushed_frames(
    rule: FramerRule,
    state: FramerState,
    pushes: Seq<Seq<u8>>,
) -> Seq<Seq<u8>>
    decreases pushes.len(),
{
    if pushes.len() == 0 {
        Seq::empty()
    } else {
        let first = drained(rule, state.receive(pushes[0]));
        first.frames + pushed_frames(rule, first.rest, pushes.drop_first())
    }
}

/// How often framing starts over during a list of pushes.
pub open spec fn pushed_resyncs(
    rule: FramerRule,
    state: FramerState,
    pushes: Seq<Seq<u8>>,
) -> nat
    decreases pushes.len(),
{
    if pushes.len() == 0 {
        0
    } else {
        let first = drained(rule, state.receive(pushes[0]));
        first.resyncs + pushed_resyncs(rule, first.rest, pushes.drop_first())
    }
}

/// A rule under which a frame begins where the last one ended, so that no bytes are
/// skipped in search of a beginning.
pub open spec fn without_start(rule: FramerRule) -> bool {
    rule is EndDelimiter || rule is FixedLength
}

/// The bytes of a list of pushes.
pub open spec fn joined(pushes: Seq<Seq<u8>>) -> Seq<u8>
    decreases pushes.len(),
{
    if pushes.len() == 0 {
        Seq::empty()
    } else {
        pushes[0] + joined(pushes.drop_first())
    }
}

/// Whether the decision at the head of the buffer is the one that would be taken
/// if `more` had already arrived.
///
/// Only an end marker that is still incomplete can make a difference: the bytes of
/// it that have arrived count as payload, and may push a payload that fits over
/// the limit.
pub open spec fn decision_stands(rule: FramerRule, state: FramerState, more: Seq<u8>) -> bool {
    match rule {
        FramerRule::EndDelimiter { delimiter, max } => {
            first_match(state.buffer, delimiter, 0) is None && state.buffer.len() > max
                && !state.dropping ==> match first_match(state.buffer + more, delimiter, 0) {
                Some(p) => p > max,
                None => true,
            }
        },
        FramerRule::StartEnd { start, end, max } => {
            match first_match(state.buffer, start, 0) {
                Some(s) => {
                    let body = s + start.len();
                    first_match(state.buffer, end, body) is None && state.buffer.len() - body > max
                        ==> match first_match(state.buffer + more, end, body) {
                        Some(e) => e - body > max,
                        None => true,
                    }
                },
                None => true,
            }
        },
        _ => true,
    }
}

/// Whether every decision taken before `more` arrives stands.
pub open spec fn clean_cut(rule: FramerRule, state: FramerState, more: Seq<u8>) -> bool
    decreases state.buffer.len(),
{
    let step = next_step(rule, state);
    &&& decision_stands(rule, state, more)
    &&& step.done || step.consumed == 0 || step.consumed > state.buffer.len() || clean_cut(
        rule,
        after_step(state, step),
        more,
    )
}

/// Whether every decision taken between pushes stands.
pub open spec fn clean_cuts(rule: FramerRule, state: FramerState, pushes: Seq<Seq<u8>>) -> bool
    decreases pushes.len(),
{
    pushes.len() > 0 ==> {
        &&& clean_cut(rule, state.receive(pushes[0]), joined(pushes.drop_first()))
        &&& clean_cuts(
            rule,
            drained(rule, state.receive(pushes[0])).rest,
            pushes.drop_first(),
        )
    }
}

/// A rule under which no cut can separate a marker that ends a frame: it has none,
/// or one of a single byte.
pub open spec fn indivisible_end(rule: FramerRule) -> bool {
    match rule {
        FramerRule::EndDelimiter { delimiter, .. } => delimiter.len() == 1,
        FramerRule::StartEnd { end, .. } => end.len() == 1,
        _ => true,
    }
}

/// With an end marker of one byte every decision stands.
proof fn lemma_indivisible_clean(rule: FramerRule, state: FramerState, more: Seq<u8>)
    requires
        rule_defect(rule) is None,
        indivisible_end(rule),
    ensures
        clean_cut(rule, state, more),
    decreases state.buffer.len(),
{
    lemma_step_shape(rule, state);
    match rule {
        FramerRule::EndDelimiter { delimiter, max } => {
            if first_match(state.buffer, delimiter, 0) is None {
                lemma_first_match_beyond(state.buffer, more, delimiter, 0);
            }
        },
        FramerRule::StartEnd { start, end, max } => {
            lemma_first_match(state.buffer, start, 0);
            match first_match(state.buffer, start, 0) {
                Some(s) => {
                    let body = s + start.len();
                    if first_match(state.buffer, end, body) is None {
                        lemma_first_match_beyond(state.buffer, more, end, body);
                    }
                },
                None => {},
            }
        },
        _ => {},
    }
    let step = next_step(rule, state);
    if !step.done {
        lemma_indivisible_clean(rule, after_step(state, step), more);
    }
}

/// A decision that does not wait is the same with more bytes at hand.
proof fn lemma_step_stable(rule: FramerRule, state: FramerState, more: Seq<u8>)
    requires
        rule_defect(rule) is None,
        decision_stands(rule, state, more),
        !next_step(rule, state).done,
    ensures
        next_step(rule, state.receive(more)) == next_step(rule, state),
        after_step(state.receive(more), next_step(rule, state)) == after_step(
            state,
            next_step(rule, state),
        ).receive(more),
{
    let step = next_step(rule, state);
    lemma_step_shape(rule, state);
    let buffer = state.buffer;
    let longer = buffer + more;
    match rule {
        FramerRule::EndDelimiter { delimiter, max } => {
            lemma_first_match(buffer, delimiter, 0);
            lemma_first_match_extend(buffer, more, delimiter, 0);
            let p = first_match(buffer, delimiter, 0)->Some_0;
            assert(longer.take(p) =~= buffer.take(p));
        },
        FramerRule::StartEnd { start, end, max } => {
            lemma_first_match(buffer, start, 0);
            lemma_first_match_extend(buffer, more, start, 0);
            let s = first_match(buffer, start, 0)->Some_0;
            let body = s + start.len();
            lemma_first_match(buffer, end, body);
            match first_match(buffer, end, body) {
                Some(e) => {
                    lemma_first_match_extend(buffer, more, end, body);
                    assert(longer.subrange(body, e) =~= buffer.subrange(body, e));
                },
                None => {},
            }
        },
        FramerRule::FixedLength { length, max } => {
            assert(longer.take(length as int) =~= buffer.take(length as int));
        },
        FramerRule::LengthField { sync, offset, width, order, adjustment, max } => {
            lemma_first_match(buffer, sync, 0);
            lemma_first_match_extend(buffer, more, sync, 0);
            let s = first_match(buffer, sync, 0)->Some_0;
            let frame = buffer.skip(s);
            let longer_frame = longer.skip(s);
            assert(longer_frame.subrange(offset as int, (offset + width) as int) =~= frame.subrange(
                offset as int,
                (offset + width) as int,
            ));
            let length = declared_length(frame, offset, width, order, adjustment);
            if 0 < length <= frame.len() {
                assert(longer_frame.take(length) =~= frame.take(length));
            }
        },
    }
    assert(longer.skip(step.consumed as int) =~= buffer.skip(step.consumed as int) + more);
}

/// Where the marker that begins a frame comes first, for rules that have one.
pub open spec fn first_start(rule: FramerRule, buffer: Seq<u8>) -> Option<int> {
    match rule {
        FramerRule::StartEnd { start, .. } => first_match(buffer, start, 0),
        FramerRule::LengthField { sync, .. } => first_match(buffer, sync, 0),
        _ => None,
    }
}

/// Bytes before the first start marker, or before the place where one may still
/// begin, do not change which frames come out. They count as one start over, unless some
/// stay before the marker.
proof fn lemma_leading_noise(rule: FramerRule, state: FramerState, noise: int)
    requires
        rule_defect(rule) is None,
        rule is StartEnd || rule is LengthField,
        0 <= noise <= state.buffer.len(),
        first_start(rule, state.buffer) matches Some(p) ==> noise <= p,
    ensures
        drained(rule, state).frames == drained(
            rule,
            FramerState { buffer: state.buffer.skip(noise), dropping: state.dropping },
        ).frames,
        drained(rule, state).resyncs == drained(
            rule,
            FramerState { buffer: state.buffer.skip(noise), dropping: state.dropping },
        ).resyncs + if first_start(rule, state.buffer) == Some(noise) && noise > 0 {
            1nat
        } else {
            0
        },
        drained(rule, state).oversize == drained(
            rule,
            FramerState { buffer: state.buffer.skip(noise), dropping: state.dropping },
        ).oversize,
        first_start(rule, state.buffer) is Some ==> drained(rule, state).rest == drained(
            rule,
            FramerState { buffer: state.buffer.skip(noise), dropping: state.dropping },
        ).rest,
{
    let buffer = state.buffer;
    let short = buffer.skip(noise);
    let short_state = FramerState { buffer: short, dropping: state.dropping };
    lemma_step_shape(rule, state);
    lemma_step_shape(rule, short_state);
    let step = next_step(rule, state);
    let short_step = next_step(rule, short_state);
    match rule {
        FramerRule::StartEnd { start, end, max } => {
            lemma_first_match(buffer, start, 0);
            lemma_first_match_later_start(buffer, start, 0, noise);
            lemma_first_match_skip(buffer, start, noise, 0);
            match first_match(buffer, start, 0) {
                Some(s) => {
                    let body = s + start.len();
                    lemma_first_match(buffer, end, body);
                    lemma_first_match_skip(buffer, end, noise, body - noise);
                    match first_match(buffer, end, body) {
                        Some(e) => {
                            assert(short.subrange(body - noise, e - noise) =~= buffer.subrange(
                                body,
                                e,
                            ));
                        },
                        None => {},
                    }
                },
                None => {},
            }
        },
        FramerRule::LengthField { sync, offset, width, order, adjustment, max } => {
            lemma_first_match(buffer, sync, 0);
            lemma_first_match_later_start(buffer, sync, 0, noise);
            lemma_first_match_skip(buffer, sync, noise, 0);
            match first_match(buffer, sync, 0) {
                Some(s) => {
                    assert(short.skip(s - noise) =~= buffer.skip(s));
                },
                None => {},
            }
        },
        _ => {},
    }
    if !step.done {
        assert(short.skip(short_step.consumed as int) =~= buffer.skip(step.consumed as int));
        assert(after_step(short_state, short_step) =~= after_step(state, step));
    }
}

/// Once a delimited frame is known to be too long, the bytes that cannot begin its
/// delimiter do not matter.
proof fn lemma_overlong_forgotten(
    delimiter: Seq<u8>,
    max: nat,
    state: FramerState,
    forgotten: int,
)
    requires
        rule_defect(FramerRule::EndDelimiter { delimiter, max }) is None,
        0 <= forgotten <= state.buffer.len(),
        match first_match(state.buffer, delimiter, 0) {
            Some(p) => forgotten <= p && (state.dropping || p > max),
            None => true,
        },
    ensures
        drained(FramerRule::EndDelimiter { delimiter, max }, state).frames == drained(
            FramerRule::EndDelimiter { delimiter, max },
            FramerState { buffer: state.buffer.skip(forgotten), dropping: true },
        ).frames,
        drained(FramerRule::EndDelimiter { delimiter, max }, state).resyncs == drained(
            FramerRule::EndDelimiter { delimiter, max },
            FramerState { buffer: state.buffer.skip(forgotten), dropping: true },
        ).resyncs,
{
    let rule = FramerRule::EndDelimiter { delimiter, max };
    let buffer = state.buffer;
    let short = buffer.skip(forgotten);
    let short_state = FramerState { buffer: short, dropping: true };
    lemma_step_shape(rule, state);
    lemma_step_shape(rule, short_state);
    lemma_first_match(buffer, delimiter, 0);
    lemma_first_match_later_start(buffer, delimiter, 0, forgotten);
    lemma_first_match_skip(buffer, delimiter, forgotten, 0);
    match first_match(buffer, delimiter, 0) {
        Some(p) => {
            assert(short.skip(p - forgotten + delimiter.len()) =~= buffer.skip(
                p + delimiter.len(),
            ));
            assert(after_step(short_state, next_step(rule, short_state)) =~= after_step(
                state,
                next_step(rule, state),
            ));
        },
        None => {},
    }
}

/// Draining what is at hand and then the rest gives the frames of draining all, and starts
/// over no more often.
proof fn lemma_cut(rule: FramerRule, state: FramerState, more: Seq<u8>)
    requires
        rule_defect(rule) is None,
        state.dropping ==> rule is EndDelimiter,
        clean_cut(rule, state, more),
    ensures
        drained(rule, state.receive(more)).frames == drained(rule, state).frames + drained(
            rule,
            drained(rule, state).rest.receive(more),
        ).frames,
        drained(rule, state).resyncs + drained(
            rule,
            drained(rule, state).rest.receive(more),
        ).resyncs <= drained(rule, state.receive(more)).resyncs,
        without_start(rule) ==> drained(rule, state).resyncs + drained(
            rule,
            drained(rule, state).rest.receive(more),
        ).resyncs == drained(rule, state.receive(more)).resyncs,
    decreases state.buffer.len(),
{
    lemma_step_shape(rule, state);
    let step = next_step(rule, state);
    let after = after_step(state, step);
    let longer = state.receive(more);
    if !step.done {
        lemma_step_stable(rule, state, more);
        lemma_step_shape(rule, longer);
        lemma_cut(rule, after, more);
        match step.frame {
            Some(frame) => {
                assert(seq![frame] + (drained(rule, after).frames + drained(
                    rule,
                    drained(rule, after).rest.receive(more),
                ).frames) =~= (seq![frame] + drained(rule, after).frames) + drained(
                    rule,
                    drained(rule, after).rest.receive(more),
                ).frames);
            },
            None => {},
        }
    } else {
        let rest = drained(rule, state).rest;
        assert(rest == after);
        assert(drained(rule, state).frames =~= Seq::<Seq<u8>>::empty());
        let consumed = step.consumed as int;
        assert(rest.receive(more).buffer =~= longer.buffer.skip(consumed));
        match rule {
            FramerRule::EndDelimiter { delimiter, max } => {
                lemma_first_match_beyond(state.buffer, more, delimiter, 0);
                lemma_first_match(longer.buffer, delimiter, 0);
                if state.buffer.len() > max {
                    lemma_overlong_forgotten(delimiter, max, longer, consumed);
                    assert(rest.receive(more) =~= FramerState {
                        buffer: longer.buffer.skip(consumed),
                        dropping: true,
                    });
                } else {
                    assert(rest.receive(more) =~= longer);
                }
            },
            FramerRule::StartEnd { start, end, max } => {
                lemma_first_match(state.buffer, start, 0);
                match first_match(state.buffer, start, 0) {
                    Some(s) => {
                        lemma_first_match_extend(state.buffer, more, start, 0);
                    },
                    None => {
                        lemma_first_match_beyond(state.buffer, more, start, 0);
                    },
                }
                lemma_leading_noise(rule, longer, consumed);
                assert(rest.receive(more) =~= FramerState {
                    buffer: longer.buffer.skip(consumed),
                    dropping: longer.dropping,
                });
            },
            FramerRule::FixedLength { length, max } => {
                assert(rest.receive(more) =~= longer);
            },
            FramerRule::LengthField { sync, offset, width, order, adjustment, max } => {
                lemma_first_match(state.buffer, sync, 0);
                match first_match(state.buffer, sync, 0) {
                    Some(s) => {
                        lemma_first_match_extend(state.buffer, more, sync, 0);
                    },
                    None => {
                        lemma_first_match_beyond(state.buffer, more, sync, 0);
                    },
                }
                lemma_leading_noise(rule, longer, consumed);
                assert(rest.receive(more) =~= FramerState {
                    buffer: longer.buffer.skip(consumed),
                    dropping: longer.dropping,
                });
            },
        }
        assert(drained(rule, longer).frames =~= drained(rule, state).frames + drained(
            rule,
            rest.receive(more),
        ).frames);
    }
}

/// What draining leaves is dropping only where frames are delimited.
proof fn lemma_rest_dropping(rule: FramerRule, state: FramerState)
    requires
        rule_defect(rule) is None,
    ensures
        drained(rule, state).rest.dropping ==> rule is EndDelimiter,
    decreases state.buffer.len(),
{
    lemma_step_shape(rule, state);
    let step = next_step(rule, state);
    if !step.done {
        lemma_rest_dropping(rule, after_step(state, step));
    }
}

/// However a stream is cut into pushes, the same frames come out, as long as no
/// cut separates an end marker in the way that `clean_cuts` describes. Framing starts over
/// no more often than for the whole stream, and just as often where frames have no
/// beginning to search for. (Where they have one, bytes that cannot belong to it are
/// forgotten between pushes without being counted.)
pub proof fn law_pushes_give_the_frames_of_the_stream(
    rule: FramerRule,
    state: FramerState,
    pushes: Seq<Seq<u8>>,
)
    requires
        rule_defect(rule) is None,
        state.dropping ==> rule is EndDelimiter,
        pushes.len() > 0,
        clean_cuts(rule, state, pushes),
    ensures
        pushed_frames(rule, state, pushes) == drained(rule, state.receive(joined(pushes))).frames,
        pushed_resyncs(rule, state, pushes) <= drained(
            rule,
            state.receive(joined(pushes)),
        ).resyncs,
        without_start(rule) ==> pushed_resyncs(rule, state, pushes) == drained(
            rule,
            state.receive(joined(pushes)),
        ).resyncs,
    decreases pushes.len(),
{
    let head = state.receive(pushes[0]);
    let tail = pushes.drop_first();
    let rest = drained(rule, head).rest;
    lemma_rest_dropping(rule, head);
    lemma_cut(rule, head, joined(tail));
    assert(head.receive(joined(tail)) =~= state.receive(joined(pushes)));
    if tail.len() > 0 {
        law_pushes_give_the_frames_of_the_stream(rule, rest, tail);
    } else {
        assert(head.receive(joined(tail)) =~= head);
        assert(pushed_frames(rule, rest, tail) =~= Seq::<Seq<u8>>::empty());
        assert(pushed_resyncs(rule, rest, tail) == 0);
        assert(pushed_frames(rule, state, pushes) =~= drained(rule, head).frames);
    }
}

/// Where the end of a frame is marked by at most one byte, it never matters how a
/// stream is cut into pushes: the same frames come out, and where frames have no beginning
/// to search for, framing starts over just as often.
pub proof fn law_fragmentation_does_not_matter(
    rule: FramerRule,
    state: FramerState,
    left: Seq<Seq<u8>>,
    right: Seq<Seq<u8>>,
)
    requires
        rule_defect(rule) is None,
        indivisible_end(rule),
        state.dropping ==> rule is EndDelimiter,
        left.len() > 0,
        right.len() > 0,
        joined(left) == joined(right),
    ensures
        pushed_frames(rule, state, left) == pushed_frames(rule, state, right),
        without_start(rule) ==> pushed_resyncs(rule, state, left) == pushed_resyncs(
            rule,
            state,
            right,
        ),
{
    lemma_indivisible_cuts_clean(rule, state, left);
    lemma_indivisible_cuts_clean(rule, state, right);
    law_pushes_give_the_frames_of_the_stream(rule, state, left);
    law_pushes_give_the_frames_of_the_stream(rule, state, right);
}

proof fn lemma_indivisible_cuts_clean(
    rule: FramerRule,
    state: FramerState,
    pushes: Seq<Seq<u8>>,
)
    requires
        rule_defect(rule) is None,
        indivisible_end(rule),
    ensures
        clean_cuts(rule, state, pushes),
    decreases pushes.len(),
{
    if pushes.len() > 0 {
        lemma_indivisible_clean(rule, state.receive(pushes[0]), joined(pushes.drop_first()));
        lemma_indivisible_cuts_clean(
            rule,
            drained(rule, state.receive(pushes[0])).rest,
            pushes.drop_first(),
        );
    }
}

/// The bytes that carry a payload as one frame. A frame with a length field carries
/// itself.
pub open spec fn enclosed(rule: FramerRule, payload: Seq<u8>) -> Seq<u8> {
    match rule {
        FramerRule::EndDelimiter { delimiter, .. } => payload + delimiter,
        FramerRule::StartEnd { start, end, .. } => start + payload + end,
        FramerRule::FixedLength { .. } => payload,
        FramerRule::LengthField { .. } => payload,
    }
}

/// Whether a payload can be carried as one frame: it fits, and it neither contains
/// the marker that ends it nor contradicts the length that it declares.
pub open spec fn carriable(rule: FramerRule, payload: Seq<u8>) -> bool {
    match rule {
        FramerRule::EndDelimiter { delimiter, max } => {
            &&& payload.len() <= max
            &&& first_match(payload + delimiter, delimiter, 0) == Some(payload.len() as int)
        },
        FramerRule::StartEnd { start, end, max } => {
            &&& payload.len() <= max
            &&& first_match(payload + end, end, 0) == Some(payload.len() as int)
        },
        FramerRule::FixedLength { length, .. } => payload.len() == length,
        FramerRule::LengthField { sync, offset, width, order, adjustment, max } => {
            &&& 0 < payload.len() <= max
            &&& offset + width <= payload.len()
            &&& matches_at(payload, sync, 0)
            &&& declared_length(payload, offset, width, order, adjustment) == payload.len()
        },
    }
}

/// What every frame under a rule looks like. It fits. One that a marker ends does not
/// hold that marker, not even with a part of the one that ends it; one of a fixed length
/// has that length; one that carries its length has that length, and begins with the sync
/// bytes as far as it goes.
pub open spec fn shaped(rule: FramerRule, frame: Seq<u8>) -> bool {
    &&& frame.len() <= rule.max_frame_bytes()
    &&& match rule {
        FramerRule::EndDelimiter { delimiter, .. } => {
            &&& first_match(frame, delimiter, 0) is None
            &&& carriable(rule, frame)
        },
        FramerRule::StartEnd { end, .. } => {
            &&& first_match(frame, end, 0) is None
            &&& carriable(rule, frame)
        },
        FramerRule::FixedLength { length, .. } => frame.len() == length,
        FramerRule::LengthField { sync, offset, width, order, adjustment, .. } => {
            &&& 0 < frame.len()
            &&& offset + width <= frame.len()
            &&& declared_length(frame, offset, width, order, adjustment) == frame.len()
            &&& forall|i: int|
                0 <= i < frame.len() && i < sync.len() ==> #[trigger] frame[i] == sync[i]
        },
    }
}

/// What stands before the first match holds none, and none before its end.
proof fn lemma_before_match(buffer: Seq<u8>, needle: Seq<u8>, from: int)
    requires
        needle.len() > 0,
        0 <= from,
        first_match(buffer, needle, from) is Some,
    ensures
        ({
            let p = first_match(buffer, needle, from)->Some_0;
            let payload = buffer.subrange(from, p);
            &&& from <= p <= buffer.len()
            &&& first_match(payload, needle, 0) is None
            &&& first_match(payload + needle, needle, 0) == Some(payload.len() as int)
        }),
{
    let p = first_match(buffer, needle, from)->Some_0;
    lemma_first_match(buffer, needle, from);
    let payload = buffer.subrange(from, p);
    let whole = payload + needle;
    assert(buffer.subrange(p, p + needle.len()) == needle);
    assert(whole =~= buffer.subrange(from, p + needle.len()));
    assert(whole.subrange(payload.len() as int, whole.len() as int) =~= needle);
    assert(matches_at(whole, needle, payload.len() as int));
    assert forall|j: int| 0 <= j < payload.len() implies !#[trigger] matches_at(
        whole,
        needle,
        j,
    ) by {
        if j + needle.len() <= whole.len() {
            assert(whole.subrange(j, j + needle.len()) =~= buffer.subrange(
                from + j,
                from + j + needle.len(),
            ));
            assert(!matches_at(buffer, needle, from + j));
        }
    }
    lemma_first_match_unique(whole, needle, 0, payload.len() as int);
    assert forall|j: int| 0 <= j implies !#[trigger] matches_at(payload, needle, j) by {
        if j + needle.len() <= payload.len() {
            assert(payload.subrange(j, j + needle.len()) =~= whole.subrange(j, j + needle.len()));
            assert(!matches_at(whole, needle, j));
        }
    }
    lemma_first_match_none(payload, needle, 0);
}

/// A frame that comes out has the shape that the rule asks for.
proof fn lemma_step_shaped(rule: FramerRule, state: FramerState)
    requires
        rule_defect(rule) is None,
    ensures
        next_step(rule, state).frame matches Some(frame) ==> shaped(rule, frame),
{
    let buffer = state.buffer;
    let step = next_step(rule, state);
    if let Some(frame) = step.frame {
        match rule {
            FramerRule::EndDelimiter { delimiter, max } => {
                lemma_before_match(buffer, delimiter, 0);
                let p = first_match(buffer, delimiter, 0)->Some_0;
                assert(buffer.take(p) =~= buffer.subrange(0, p));
            },
            FramerRule::StartEnd { start, end, max } => {
                lemma_first_match(buffer, start, 0);
                let s = first_match(buffer, start, 0)->Some_0;
                lemma_before_match(buffer, end, s + start.len());
            },
            FramerRule::FixedLength { length, max } => {},
            FramerRule::LengthField { sync, offset, width, order, adjustment, max } => {
                lemma_first_match(buffer, sync, 0);
                let s = first_match(buffer, sync, 0)->Some_0;
                let rest = buffer.skip(s);
                assert(frame.subrange(offset as int, (offset + width) as int) =~= rest.subrange(
                    offset as int,
                    (offset + width) as int,
                ));
                let found = buffer.subrange(s, s + sync.len());
                assert(found == sync);
                assert forall|i: int| 0 <= i < frame.len() && i < sync.len() implies
                    #[trigger] frame[i] == sync[i] by {
                    assert(frame[i] == found[i]);
                }
            },
        }
    }
}

/// No frame is longer than the rule allows, none that a marker ends holds that marker, and
/// every other one has the length that the rule gives or that it declares itself.
pub proof fn law_frames_respect_the_limit(rule: FramerRule, state: FramerState)
    requires
        rule_defect(rule) is None,
    ensures
        forall|i: int|
            0 <= i < drained(rule, state).frames.len() ==> {
                &&& (#[trigger] drained(rule, state).frames[i]).len() <= rule.max_frame_bytes()
                &&& shaped(rule, drained(rule, state).frames[i])
            },
    decreases state.buffer.len(),
{
    lemma_step_shape(rule, state);
    let step = next_step(rule, state);
    if !step.done {
        let later = after_step(state, step);
        law_frames_respect_the_limit(rule, later);
        lemma_step_shaped(rule, state);
        let frames = drained(rule, state).frames;
        assert forall|i: int| 0 <= i < frames.len() implies shaped(rule, #[trigger] frames[i]) by {
            match step.frame {
                Some(frame) => {
                    if i > 0 {
                        assert(frames[i] == drained(rule, later).frames[i - 1]);
                    }
                },
                None => {
                    assert(frames[i] == drained(rule, later).frames[i]);
                },
            }
        }
    }
}

/// The bytes that carry payloads one after another.
pub open spec fn all_enclosed(rule: FramerRule, payloads: Seq<Seq<u8>>) -> Seq<u8>
    decreases payloads.len(),
{
    if payloads.len() == 0 {
        Seq::empty()
    } else {
        enclosed(rule, payloads[0]) + all_enclosed(rule, payloads.drop_first())
    }
}

/// One enclosed payload at the head of the buffer is taken off whole.
proof fn lemma_enclosed_step(rule: FramerRule, payload: Seq<u8>, more: Seq<u8>)
    requires
        rule_defect(rule) is None,
        carriable(rule, payload),
    ensures
        ({
            let step = next_step(rule, FramerState::fresh().receive(enclosed(rule, payload) + more));
            &&& !step.done
            &&& step.consumed == enclosed(rule, payload).len()
            &&& step.frame == Some(payload)
            &&& step.oversize == 0
            &&& step.resyncs == 0
            &&& !step.dropping
        }),
{
    let whole = enclosed(rule, payload);
    let buffer = whole + more;
    assert(FramerState::fresh().receive(buffer).buffer =~= buffer);
    match rule {
        FramerRule::EndDelimiter { delimiter, max } => {
            lemma_first_match_extend(whole, more, delimiter, 0);
            assert(buffer.take(payload.len() as int) =~= payload);
        },
        FramerRule::StartEnd { start, end, max } => {
            assert(buffer.subrange(0, start.len() as int) =~= start);
            assert(matches_at(buffer, start, 0));
            lemma_first_match_unique(buffer, start, 0, 0);
            let body = start.len() as int;
            assert(whole.skip(body) =~= payload + end);
            lemma_first_match_skip(whole, end, body, 0);
            assert(first_match(whole, end, body) == Some(body + payload.len()));
            lemma_first_match_extend(whole, more, end, body);
            assert(buffer.subrange(body, body + payload.len()) =~= payload);
        },
        FramerRule::FixedLength { length, max } => {
            assert(buffer.take(length as int) =~= payload);
        },
        FramerRule::LengthField { sync, offset, width, order, adjustment, max } => {
            crate::search::lemma_matches_extend(payload, more, sync, 0);
            lemma_first_match_unique(buffer, sync, 0, 0);
            assert(buffer.skip(0) =~= buffer);
            assert(buffer.subrange(offset as int, (offset + width) as int) =~= payload.subrange(
                offset as int,
                (offset + width) as int,
            ));
            assert(buffer.take(payload.len() as int) =~= payload);
        },
    }
}

/// Payloads that were enclosed one after another come out as they went in, in
/// order, with nothing left over and nothing complained about.
pub proof fn law_enclosed_payloads_come_out(rule: FramerRule, payloads: Seq<Seq<u8>>)
    requires
        rule_defect(rule) is None,
        forall|i: int| 0 <= i < payloads.len() ==> carriable(rule, #[trigger] payloads[i]),
    ensures
        drained(rule, FramerState::fresh().receive(all_enclosed(rule, payloads))).frames
            == payloads,
        drained(rule, FramerState::fresh().receive(all_enclosed(rule, payloads))).rest
            == FramerState::fresh(),
        drained(rule, FramerState::fresh().receive(all_enclosed(rule, payloads))).oversize == 0,
        drained(rule, FramerState::fresh().receive(all_enclosed(rule, payloads))).resyncs == 0,
    decreases payloads.len(),
{
    let bytes = all_enclosed(rule, payloads);
    let state = FramerState::fresh().receive(bytes);
    assert(state.buffer =~= bytes);
    lemma_step_shape(rule, state);
    let step = next_step(rule, state);
    if payloads.len() == 0 {
        assert(state =~= FramerState::fresh());
        match rule {
            FramerRule::EndDelimiter { delimiter, max } => {
                lemma_first_match(bytes, delimiter, 0);
            },
            FramerRule::StartEnd { start, end, max } => {
                lemma_first_match(bytes, start, 0);
            },
            FramerRule::FixedLength { length, max } => {},
            FramerRule::LengthField { sync, offset, width, order, adjustment, max } => {
                lemma_first_match(bytes, sync, 0);
            },
        }
        assert(after_step(state, step) =~= FramerState::fresh());
        assert(drained(rule, state).frames =~= payloads);
    } else {
        let tail = payloads.drop_first();
        let more = all_enclosed(rule, tail);
        assert forall|i: int| 0 <= i < tail.len() implies carriable(rule, #[trigger] tail[i]) by {
            assert(tail[i] == payloads[i + 1]);
        }
        lemma_enclosed_step(rule, payloads[0], more);
        law_enclosed_payloads_come_out(rule, tail);
        assert(bytes.skip(step.consumed as int) =~= more);
        assert(after_step(state, step) =~= FramerState::fresh().receive(more));
        assert(seq![payloads[0]] + tail =~= payloads);
    }
}

/// After a delimited frame that was too long, everything up to the next delimiter
/// is skipped and counted once, and what follows comes out as if nothing had
/// happened.
pub proof fn law_framing_resynchronizes_at_the_delimiter(
    delimiter: Seq<u8>,
    max: nat,
    state: FramerState,
    junk: Seq<u8>,
    payloads: Seq<Seq<u8>>,
)
    requires
        rule_defect(FramerRule::EndDelimiter { delimiter, max }) is None,
        state.dropping,
        first_match(state.buffer + junk + delimiter, delimiter, 0) == Some(
            (state.buffer.len() + junk.len()) as int,
        ),
        forall|i: int|
            0 <= i < payloads.len() ==> carriable(
                FramerRule::EndDelimiter { delimiter, max },
                #[trigger] payloads[i],
            ),
    ensures
        ({
            let rule = FramerRule::EndDelimiter { delimiter, max };
            let result = drained(
                rule,
                state.receive(junk + delimiter + all_enclosed(rule, payloads)),
            );
            &&& result.frames == payloads
            &&& result.resyncs == 1
            &&& result.oversize == 0
            &&& result.rest == FramerState::fresh()
        }),
{
    let rule = FramerRule::EndDelimiter { delimiter, max };
    let more = all_enclosed(rule, payloads);
    let received = state.receive(junk + delimiter + more);
    let head = state.buffer + junk + delimiter;
    assert(received.buffer =~= head + more);
    lemma_first_match_extend(head, more, delimiter, 0);
    lemma_step_shape(rule, received);
    let step = next_step(rule, received);
    assert(received.buffer.skip(step.consumed as int) =~= more);
    assert(after_step(received, step) =~= FramerState::fresh().receive(more));
    law_enclosed_payloads_come_out(rule, payloads);
}

/// The number that a length field spells: its bytes weighed one by one, the first the
/// heaviest in one byte order, and the last in the other.
pub open spec fn field_number(frame: Seq<u8>, at: int, width: int, order: ByteOrder) -> int {
    let byte = |i: int| frame[at + i] as int;
    match order {
        ByteOrder::Big => if width == 1 {
            byte(0)
        } else if width == 2 {
            byte(0) * 0x100 + byte(1)
        } else {
            byte(0) * 0x100_0000 + byte(1) * 0x1_0000 + byte(2) * 0x100 + byte(3)
        },
        ByteOrder::Little => if width == 1 {
            byte(0)
        } else if width == 2 {
            byte(0) + byte(1) * 0x100
        } else {
            byte(0) + byte(1) * 0x100 + byte(2) * 0x1_0000 + byte(3) * 0x100_0000
        },
    }
}

/// A length field spells its number.
pub proof fn lemma_field_value(frame: Seq<u8>, at: int, width: int, order: ByteOrder)
    requires
        width == 1 || width == 2 || width == 4,
        0 <= at,
        at + width <= frame.len(),
    ensures
        unsigned(frame.subrange(at, at + width), order) == field_number(frame, at, width, order),
{
    let field = frame.subrange(at, at + width);
    reveal_with_fuel(little_endian, 5);
    reveal_with_fuel(big_endian, 5);
    assert(forall|i: int| 0 <= i < width ==> #[trigger] field[i] == frame[at + i]);
}

proof fn lemma_field_number(
    frame: Seq<u8>,
    offset: nat,
    width: nat,
    order: ByteOrder,
    adjustment: int,
)
    requires
        width == 1 || width == 2 || width == 4,
        offset + width <= frame.len(),
    ensures
        declared_length(frame, offset, width, order, adjustment) == field_number(
            frame,
            offset as int,
            width as int,
            order,
        ) + adjustment,
{
    lemma_field_value(frame, offset as int, width as int, order);
}

/// No mark comes to its end before the payload that it ends.
pub open spec fn ends_only_at(payload: Seq<u8>, mark: Seq<u8>) -> bool {
    forall|i: int|
        0 <= i < payload.len() ==> (#[trigger] (payload + mark).subrange(i, i + mark.len()))
            != mark
}

/// A payload that a device may send as one frame.
pub open spec fn sendable(spec: FramerSpec, payload: Seq<u8>) -> bool {
    match spec {
        FramerSpec::EndDelimiter { delimiter, max_frame_bytes, .. } => {
            payload.len() <= max_frame_bytes && ends_only_at(payload, delimiter@)
        },
        FramerSpec::StartEnd { end, max_frame_bytes, .. } => {
            payload.len() <= max_frame_bytes && ends_only_at(payload, end@)
        },
        FramerSpec::FixedLength { length, .. } => payload.len() == length,
        FramerSpec::LengthField {
            sync_prefix,
            length_offset,
            length_width,
            byte_order,
            length_adjustment,
            max_frame_bytes,
            ..
        } => {
            &&& 0 < payload.len() <= max_frame_bytes
            &&& sync_prefix@.len() <= payload.len()
            &&& length_offset + length_width <= payload.len()
            &&& payload.take(sync_prefix@.len() as int) == sync_prefix@
            &&& field_number(payload, length_offset as int, length_width as int, byte_order)
                + length_adjustment == payload.len()
        },
    }
}

/// A payload as a device sends it.
pub open spec fn sent(spec: FramerSpec, payload: Seq<u8>) -> Seq<u8> {
    match spec {
        FramerSpec::EndDelimiter { delimiter, .. } => payload + delimiter@,
        FramerSpec::StartEnd { start, end, .. } => start@ + payload + end@,
        FramerSpec::FixedLength { .. } => payload,
        FramerSpec::LengthField { .. } => payload,
    }
}

/// Payloads as a device sends them one after the other.
pub open spec fn all_sent(spec: FramerSpec, payloads: Seq<Seq<u8>>) -> Seq<u8>
    decreases payloads.len(),
{
    if payloads.len() == 0 {
        Seq::empty()
    } else {
        sent(spec, payloads[0]) + all_sent(spec, payloads.drop_first())
    }
}

proof fn lemma_ends_only_at(payload: Seq<u8>, mark: Seq<u8>)
    requires
        ends_only_at(payload, mark),
    ensures
        first_match(payload + mark, mark, 0) == Some(payload.len() as int),
{
    let whole = payload + mark;
    assert(whole.subrange(payload.len() as int, whole.len() as int) =~= mark);
    lemma_first_match_unique(whole, mark, 0, payload.len() as int);
}

proof fn lemma_sendable(spec: FramerSpec, payload: Seq<u8>)
    requires
        rule_defect(spec@) is None,
        sendable(spec, payload),
    ensures
        carriable(spec@, payload),
        enclosed(spec@, payload) == sent(spec, payload),
{
    match spec {
        FramerSpec::EndDelimiter { delimiter, .. } => {
            lemma_ends_only_at(payload, delimiter@);
        },
        FramerSpec::StartEnd { end, .. } => {
            lemma_ends_only_at(payload, end@);
        },
        FramerSpec::FixedLength { .. } => {},
        FramerSpec::LengthField {
            sync_prefix,
            length_offset,
            length_width,
            byte_order,
            length_adjustment,
            ..
        } => {
            lemma_field_number(
                payload,
                length_offset as nat,
                length_width as nat,
                byte_order,
                length_adjustment as int,
            );
            assert(payload.subrange(0, sync_prefix@.len() as int) =~= payload.take(
                sync_prefix@.len() as int,
            ));
        },
    }
}

proof fn lemma_all_sent(spec: FramerSpec, payloads: Seq<Seq<u8>>)
    requires
        rule_defect(spec@) is None,
        forall|i: int| 0 <= i < payloads.len() ==> sendable(spec, #[trigger] payloads[i]),
    ensures
        forall|i: int| 0 <= i < payloads.len() ==> carriable(spec@, #[trigger] payloads[i]),
        all_enclosed(spec@, payloads) == all_sent(spec, payloads),
    decreases payloads.len(),
{
    assert forall|i: int| 0 <= i < payloads.len() implies carriable(
        spec@,
        #[trigger] payloads[i],
    ) by {
        lemma_sendable(spec, payloads[i]);
    }
    if payloads.len() > 0 {
        let tail = payloads.drop_first();
        assert forall|i: int| 0 <= i < tail.len() implies sendable(spec, #[trigger] tail[i]) by {
            assert(tail[i] == payloads[i + 1]);
        }
        lemma_all_sent(spec, tail);
        lemma_sendable(spec, payloads[0]);
    }
}

/// A new framer hands out what a device has framed: every payload once, whole and in
/// order, and nothing else. For frames that carry their length, the bytes of the length
/// field are weighed in the configured order.
pub proof fn law_a_framer_hands_out_what_was_sent(
    spec: FramerSpec,
    framer: Framer,
    pushing: &mut Framer,
    bytes: &[u8],
    output: FramerOutput,
    payloads: Seq<Seq<u8>>,
)
    requires
        call_ensures(Framer::new, (spec,), Ok::<Framer, String>(framer)),
        *old(pushing) == framer,
        call_ensures(Framer::push, (pushing, bytes), output),
        forall|i: int| 0 <= i < payloads.len() ==> sendable(spec, #[trigger] payloads[i]),
        bytes@ == all_sent(spec, payloads),
    ensures
        output.frames@.len() == payloads.len(),
        forall|i: int| 0 <= i < payloads.len() ==> (#[trigger] output.frames@[i])@ == payloads[i],
        output.oversize_frames == 0,
        output.resyncs == 0,
        final(pushing).state().buffer.len() == 0,
{
    lemma_all_sent(spec, payloads);
    law_enclosed_payloads_come_out(spec@, payloads);
    assert(frame_bytes(output.frames@) == payloads);
    assert forall|i: int| 0 <= i < payloads.len() implies (#[trigger] output.frames@[i])@
        == payloads[i] by {
        assert(frame_bytes(output.frames@)[i] == output.frames@[i]@);
    }
}

/// Whatever a framer has received before, the frames that it hands out keep to its rule:
/// none is longer than allowed, none that a mark ends holds that mark, and the others have
/// the configured length or the one that their length field spells in the configured byte
/// order, behind the sync bytes.
pub proof fn law_handed_out_frames_keep_to_the_rule(
    spec: FramerSpec,
    pushing: &mut Framer,
    bytes: &[u8],
    output: FramerOutput,
    i: int,
)
    requires
        old(pushing).wf(),
        old(pushing).rule() == spec@,
        call_ensures(Framer::push, (pushing, bytes), output),
        0 <= i < output.frames@.len(),
    ensures
        match spec {
            FramerSpec::EndDelimiter { delimiter, max_frame_bytes, .. } => {
                &&& output.frames@[i]@.len() <= max_frame_bytes
                &&& ends_only_at(output.frames@[i]@, delimiter@)
            },
            FramerSpec::StartEnd { end, max_frame_bytes, .. } => {
                &&& output.frames@[i]@.len() <= max_frame_bytes
                &&& ends_only_at(output.frames@[i]@, end@)
            },
            FramerSpec::FixedLength { length, .. } => output.frames@[i]@.len() == length,
            FramerSpec::LengthField {
                sync_prefix,
                length_offset,
                length_width,
                byte_order,
                length_adjustment,
                max_frame_bytes,
                ..
            } => {
                let frame = output.frames@[i]@;
                &&& frame.len() <= max_frame_bytes
                &&& length_offset + length_width <= frame.len()
                &&& frame.len() == field_number(
                    frame,
                    length_offset as int,
                    length_width as int,
                    byte_order,
                ) + length_adjustment
                &&& forall|j: int|
                    0 <= j < frame.len() && j < sync_prefix@.len() ==> #[trigger] frame[j]
                        == sync_prefix@[j]
            },
        },
{
    let rule = spec@;
    let received = old(pushing).state().receive(bytes@);
    law_frames_respect_the_limit(rule, received);
    let frame = frame_bytes(output.frames@)[i];
    assert(frame == output.frames@[i]@);
    assert(shaped(rule, drained(rule, received).frames[i]));
    match spec {
        FramerSpec::EndDelimiter { delimiter, .. } => {
            lemma_first_ends(frame, delimiter@);
        },
        FramerSpec::StartEnd { end, .. } => {
            lemma_first_ends(frame, end@);
        },
        FramerSpec::FixedLength { .. } => {},
        FramerSpec::LengthField {
            length_offset,
            length_width,
            byte_order,
            length_adjustment,
            ..
        } => {
            lemma_field_number(
                frame,
                length_offset as nat,
                length_width as nat,
                byte_order,
                length_adjustment as int,
            );
        },
    }
}

proof fn lemma_first_ends(payload: Seq<u8>, mark: Seq<u8>)
    requires
        first_match(payload + mark, mark, 0) == Some(payload.len() as int),
    ensures
        ends_only_at(payload, mark),
{
    let whole = payload + mark;
    lemma_first_match(whole, mark, 0);
    assert forall|i: int| 0 <= i < payload.len() implies (
    #[trigger] whole.subrange(i, i + mark.len())) != mark by {
        assert(!matches_at(whole, mark, i));
    }
}

/// Noise before the mark that begins a frame is skipped and counted once; what follows
/// comes out as if the noise had not been there.
pub proof fn law_noise_before_a_frame_is_skipped(spec: FramerSpec, noise: Seq<u8>, rest: Seq<u8>)
    requires
        rule_defect(spec@) is None,
        noise.len() > 0,
        match spec {
            FramerSpec::StartEnd { start, .. } => {
                &&& ends_only_at(noise, start@)
                &&& start@.len() <= rest.len()
                &&& rest.take(start@.len() as int) == start@
            },
            FramerSpec::LengthField { sync_prefix, .. } => {
                &&& ends_only_at(noise, sync_prefix@)
                &&& sync_prefix@.len() <= rest.len()
                &&& rest.take(sync_prefix@.len() as int) == sync_prefix@
            },
            _ => false,
        },
    ensures
        ({
            let noisy = drained(spec@, FramerState::fresh().receive(noise + rest));
            let clean = drained(spec@, FramerState::fresh().receive(rest));
            &&& noisy.frames == clean.frames
            &&& noisy.resyncs == clean.resyncs + 1
            &&& noisy.oversize == clean.oversize
            &&& noisy.rest == clean.rest
        }),
{
    let mark = match spec {
        FramerSpec::StartEnd { start, .. } => start@,
        FramerSpec::LengthField { sync_prefix, .. } => sync_prefix@,
        _ => Seq::empty(),
    };
    let state = FramerState::fresh().receive(noise + rest);
    lemma_ends_only_at(noise, mark);
    assert(noise + mark + rest.skip(mark.len() as int) =~= noise + rest);
    lemma_first_match_extend(noise + mark, rest.skip(mark.len() as int), mark, 0);
    assert(state.buffer =~= noise + rest);
    lemma_leading_noise(spec@, state, noise.len() as int);
    assert(state.buffer.skip(noise.len() as int) =~= rest);
    assert(FramerState::fresh().receive(rest) =~= FramerState {
        buffer: rest,
        dropping: state.dropping,
    });
}

/// A delimited frame that is too long does not come out. It is skipped, and counted once
/// as a start over; what follows it comes out as if it had not been there.
pub proof fn law_a_delimited_frame_that_is_too_long_is_skipped(
    spec: FramerSpec,
    payload: Seq<u8>,
    rest: Seq<u8>,
)
    requires
        rule_defect(spec@) is None,
        spec matches FramerSpec::EndDelimiter { delimiter, max_frame_bytes, .. } && payload.len()
            > max_frame_bytes && ends_only_at(payload, delimiter@),
    ensures
        ({
            let delimiter = spec->EndDelimiter_delimiter@;
            let whole = drained(spec@, FramerState::fresh().receive(payload + delimiter + rest));
            let later = drained(spec@, FramerState::fresh().receive(rest));
            &&& whole.frames == later.frames
            &&& whole.resyncs == later.resyncs + 1
            &&& whole.oversize == later.oversize
            &&& whole.rest == later.rest
        }),
{
    let delimiter = spec->EndDelimiter_delimiter@;
    let state = FramerState::fresh().receive(payload + delimiter + rest);
    lemma_ends_only_at(payload, delimiter);
    assert(state.buffer =~= (payload + delimiter) + rest);
    lemma_first_match_extend(payload + delimiter, rest, delimiter, 0);
    lemma_step_shape(spec@, state);
    let step = next_step(spec@, state);
    assert(state.buffer.skip(step.consumed as int) =~= rest);
    assert(after_step(state, step) =~= FramerState::fresh().receive(rest));
}

/// Bytes without a delimiter beyond the limit are counted as one frame that is too long,
/// and nothing comes out. Where nothing is too long, the bytes are kept and nothing is
/// counted.
pub proof fn law_a_delimiter_is_awaited(spec: FramerSpec, bytes: Seq<u8>)
    requires
        rule_defect(spec@) is None,
        spec matches FramerSpec::EndDelimiter { delimiter, .. } && forall|i: int|
            0 <= i && i + delimiter@.len() <= bytes.len() ==> (
            #[trigger] bytes.subrange(i, i + delimiter@.len())) != delimiter@,
    ensures
        ({
            let result = drained(spec@, FramerState::fresh().receive(bytes));
            let too_long = bytes.len() > spec->EndDelimiter_max_frame_bytes;
            &&& result.frames.len() == 0
            &&& result.resyncs == 0
            &&& result.oversize == if too_long {
                1nat
            } else {
                0
            }
            &&& result.rest.dropping == too_long
            &&& !too_long ==> result.rest.buffer == bytes
        }),
{
    let delimiter = spec->EndDelimiter_delimiter@;
    let state = FramerState::fresh().receive(bytes);
    assert(state.buffer =~= bytes);
    assert forall|j: int| 0 <= j implies !#[trigger] matches_at(bytes, delimiter, j) by {
        if j + delimiter.len() <= bytes.len() {
            assert(bytes.subrange(j, j + delimiter.len()) != delimiter);
        }
    }
    lemma_first_match_none(bytes, delimiter, 0);
    lemma_step_shape(spec@, state);
    let step = next_step(spec@, state);
    if step.consumed == 0 {
        assert(state.buffer.skip(0) =~= bytes);
    }
}

/// A frame between marks that is too long does not come out: it is counted once as too
/// long and once as a start over, and the search goes on right behind its start mark.
pub proof fn law_a_marked_frame_that_is_too_long_is_given_up(
    spec: FramerSpec,
    payload: Seq<u8>,
    rest: Seq<u8>,
)
    requires
        rule_defect(spec@) is None,
        spec matches FramerSpec::StartEnd { end, max_frame_bytes, .. } && payload.len()
            > max_frame_bytes && ends_only_at(payload, end@),
    ensures
        ({
            let start = spec->StartEnd_start@;
            let tail = payload + spec->StartEnd_end@ + rest;
            let whole = drained(spec@, FramerState::fresh().receive(start + tail));
            let later = drained(spec@, FramerState::fresh().receive(tail));
            &&& whole.frames == later.frames
            &&& whole.resyncs == later.resyncs + 1
            &&& whole.oversize == later.oversize + 1
            &&& whole.rest == later.rest
        }),
{
    let start = spec->StartEnd_start@;
    let end = spec->StartEnd_end@;
    let tail = payload + end + rest;
    let state = FramerState::fresh().receive(start + tail);
    let body = start.len() as int;
    assert(state.buffer =~= start + tail);
    assert(state.buffer.subrange(0, body) =~= start);
    assert(matches_at(state.buffer, start, 0));
    lemma_first_match_unique(state.buffer, start, 0, 0);
    lemma_ends_only_at(payload, end);
    lemma_first_match_extend(payload + end, rest, end, 0);
    assert((payload + end) + rest =~= tail);
    assert(state.buffer.skip(body) =~= tail);
    lemma_first_match_skip(state.buffer, end, body, 0);
    lemma_step_shape(spec@, state);
    let step = next_step(spec@, state);
    assert(after_step(state, step) =~= FramerState::fresh().receive(tail));
}

/// Sync bytes before an impossible length begin no frame: that is counted as a start over,
/// and as a frame that is too long where the length is beyond the limit or negative. The
/// search goes on one byte further.
pub proof fn law_an_impossible_length_is_given_up(spec: FramerSpec, bytes: Seq<u8>)
    requires
        rule_defect(spec@) is None,
        spec matches FramerSpec::LengthField {
            sync_prefix,
            length_offset,
            length_width,
            byte_order,
            length_adjustment,
            max_frame_bytes,
            ..
        } && {
            let length = field_number(bytes, length_offset as int, length_width as int, byte_order)
                + length_adjustment;
            &&& sync_prefix@.len() <= bytes.len()
            &&& bytes.take(sync_prefix@.len() as int) == sync_prefix@
            &&& length_offset + length_width <= bytes.len()
            &&& length <= 0 || length > max_frame_bytes || length < length_offset + length_width
        },
    ensures
        ({
            let length = field_number(
                bytes,
                spec->length_offset as int,
                spec->length_width as int,
                spec->byte_order,
            ) + spec->length_adjustment;
            let whole = drained(spec@, FramerState::fresh().receive(bytes));
            let later = drained(spec@, FramerState::fresh().receive(bytes.skip(1)));
            &&& whole.frames == later.frames
            &&& whole.resyncs == later.resyncs + 1
            &&& whole.oversize == later.oversize + if length < 0 || length
                > spec->LengthField_max_frame_bytes {
                1nat
            } else {
                0
            }
            &&& whole.rest == later.rest
        }),
{
    let state = FramerState::fresh().receive(bytes);
    let sync = spec->sync_prefix@;
    assert(state.buffer =~= bytes);
    assert(bytes.subrange(0, sync.len() as int) =~= bytes.take(sync.len() as int));
    lemma_first_match_unique(bytes, sync, 0, 0);
    assert(bytes.skip(0) =~= bytes);
    lemma_field_number(
        bytes,
        spec->length_offset as nat,
        spec->length_width as nat,
        spec->byte_order,
        spec->length_adjustment as int,
    );
    lemma_step_shape(spec@, state);
    let step = next_step(spec@, state);
    assert(after_step(state, step) =~= FramerState::fresh().receive(bytes.skip(1)));
}

/// A length is read with the weight that its byte order gives to each of its bytes.
pub proof fn law_a_length_is_read_by_weight(bytes: &[u8], order: ByteOrder, length: u32)
    requires
        bytes@.len() == 1 || bytes@.len() == 2 || bytes@.len() == 4,
        call_ensures(read_length, (bytes, order), length),
    ensures
        length == field_number(bytes@, 0, bytes@.len() as int, order),
{
    lemma_field_value(bytes@, 0, bytes@.len() as int, order);
    assert(bytes@.subrange(0, bytes@.len() as int) =~= bytes@);
}

/// A rule is accepted if its frames can be found and are bounded: the longest frame has at
/// least one byte and at most four mebibytes; what marks a frame is not empty; a fixed length
/// is within the bound; a length field has one, two or four bytes. A framer begins with
/// nothing, and goes back there when it is reset.
pub proof fn law_a_rule_is_accepted_if_frames_can_be_found(
    spec: FramerSpec,
    result: Result<Framer, String>,
    framer: &mut Framer,
)
    requires
        call_ensures(Framer::new, (spec,), result),
        old(framer).wf(),
        call_ensures(Framer::reset, (framer,), ()),
    ensures
        result is Ok <==> match spec {
            FramerSpec::EndDelimiter { delimiter, max_frame_bytes, .. } => {
                &&& 1 <= max_frame_bytes <= 4 * 1024 * 1024
                &&& delimiter@.len() > 0
            },
            FramerSpec::StartEnd { start, end, max_frame_bytes, .. } => {
                &&& 1 <= max_frame_bytes <= 4 * 1024 * 1024
                &&& start@.len() > 0
                &&& end@.len() > 0
            },
            FramerSpec::FixedLength { length, max_frame_bytes, .. } => {
                &&& 1 <= max_frame_bytes <= 4 * 1024 * 1024
                &&& 1 <= length <= max_frame_bytes
            },
            FramerSpec::LengthField { sync_prefix, length_width, max_frame_bytes, .. } => {
                &&& 1 <= max_frame_bytes <= 4 * 1024 * 1024
                &&& sync_prefix@.len() > 0
                &&& length_width == 1 || length_width == 2 || length_width == 4
            },
        },
        result is Ok ==> {
            &&& result->Ok_0.state().buffer.len() == 0
            &&& !result->Ok_0.state().dropping
        },
        final(framer).state().buffer.len() == 0,
        !final(framer).state().dropping,
        final(framer).rule() == old(framer).rule(),
{
}

} // verus!
