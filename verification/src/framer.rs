//! Cutting a byte stream into frames.

use crate::model::{ByteOrder, FramerRule, FramerSpec};
use crate::numeral::{lemma_span_values, lemma_unsigned_bound, read_unsigned, unsigned};
use crate::search::{find_from, find_subslice, first_match, lemma_first_match};
use vstd::prelude::*;
use vstd::slice::slice_subrange;

verus! {

/// No frame may be longer than this, whatever a project asks for.
pub const HARD_MAX_FRAME_BYTES: usize = 4_194_304;

/// What one push of bytes gave.
#[derive(Debug)]
pub struct FramerOutput {
    pub frames: Vec<Vec<u8>>,
    pub oversize_frames: u64,
    pub resyncs: u64,
}

/// The bytes of each frame.
pub open spec fn frame_bytes(frames: Seq<Vec<u8>>) -> Seq<Seq<u8>> {
    frames.map_values(|frame: Vec<u8>| frame@)
}

/// What a framer keeps between pushes: the bytes that belong to no finished
/// frame yet, and whether they continue a frame that is already too long.
#[verifier::ext_equal]
pub struct FramerState {
    pub buffer: Seq<u8>,
    pub dropping: bool,
}

impl FramerState {
    /// The state of a framer that has seen nothing.
    pub open spec fn fresh() -> FramerState {
        FramerState { buffer: Seq::empty(), dropping: false }
    }

    /// The state with more bytes received.
    pub open spec fn receive(self, bytes: Seq<u8>) -> FramerState {
        FramerState { buffer: self.buffer + bytes, dropping: self.dropping }
    }
}

/// One decision at the head of the buffer.
///
/// `consumed` bytes leave the buffer; they may carry a frame. With `done` there
/// is nothing more to decide until further bytes arrive.
#[verifier::ext_equal]
pub struct FrameStep {
    pub consumed: nat,
    pub frame: Option<Seq<u8>>,
    pub oversize: nat,
    pub resyncs: nat,
    pub dropping: bool,
    pub done: bool,
}

/// Waiting with nothing taken from the buffer.
pub open spec fn wait(dropping: bool) -> FrameStep {
    FrameStep { consumed: 0, frame: None, oversize: 0, resyncs: 0, dropping, done: true }
}

/// Waiting after bytes were skipped to get to where a frame may begin.
pub open spec fn wait_at(skipped: int) -> FrameStep {
    FrameStep {
        consumed: skipped as nat,
        frame: None,
        oversize: 0,
        resyncs: if skipped > 0 { 1 } else { 0 },
        dropping: false,
        done: true,
    }
}

/// Waiting with only so many of the newest bytes kept, since nothing older can
/// begin a frame.
pub open spec fn wait_keeping(len: nat, keep: int) -> FrameStep {
    FrameStep {
        consumed: if len > keep { (len - keep) as nat } else { 0 },
        frame: None,
        oversize: 0,
        resyncs: 0,
        dropping: false,
        done: true,
    }
}

/// A frame after `skipped` bytes that led to it.
pub open spec fn accept(skipped: int, frame: Seq<u8>, consumed: int) -> FrameStep {
    FrameStep {
        consumed: consumed as nat,
        frame: Some(frame),
        oversize: 0,
        resyncs: if skipped > 0 { 1 } else { 0 },
        dropping: false,
        done: false,
    }
}

/// A candidate given up after `skipped` bytes that led to it.
pub open spec fn give_up(skipped: int, consumed: int, oversize: bool) -> FrameStep {
    FrameStep {
        consumed: consumed as nat,
        frame: None,
        oversize: if oversize { 1 } else { 0 },
        resyncs: if skipped > 0 { 2 } else { 1 },
        dropping: false,
        done: false,
    }
}

/// The decision for frames that end with a delimiter.
pub open spec fn end_delimiter_step(state: FramerState, delimiter: Seq<u8>, max: nat) -> FrameStep {
    let len = state.buffer.len();
    match first_match(state.buffer, delimiter, 0) {
        None => if len > max {
            FrameStep {
                oversize: 1,
                dropping: true,
                ..wait_keeping(len, delimiter.len() - 1)
            }
        } else {
            wait(state.dropping)
        },
        Some(p) => if state.dropping || p > max {
            give_up(0, p + delimiter.len(), false)
        } else {
            accept(0, state.buffer.take(p), p + delimiter.len())
        },
    }
}

/// The decision for frames between a start and an end marker.
pub open spec fn start_end_step(buffer: Seq<u8>, start: Seq<u8>, end: Seq<u8>, max: nat) -> FrameStep {
    match first_match(buffer, start, 0) {
        None => wait_keeping(buffer.len(), start.len() - 1),
        Some(s) => {
            let body = s + start.len();
            match first_match(buffer, end, body) {
                None => if buffer.len() - body > max {
                    give_up(s, body, true)
                } else {
                    wait_at(s)
                },
                Some(e) => if e - body > max {
                    give_up(s, body, true)
                } else {
                    accept(s, buffer.subrange(body, e), e + end.len())
                },
            }
        },
    }
}

/// The decision for frames of one length.
pub open spec fn fixed_step(buffer: Seq<u8>, length: nat) -> FrameStep {
    if buffer.len() >= length {
        accept(0, buffer.take(length as int), length as int)
    } else {
        wait(false)
    }
}

/// The length that the head of a frame declares for the whole frame.
pub open spec fn declared_length(
    frame: Seq<u8>,
    offset: nat,
    width: nat,
    order: ByteOrder,
    adjustment: int,
) -> int {
    unsigned(frame.subrange(offset as int, (offset + width) as int), order) + adjustment
}

/// The decision for a frame that carries its length and begins after `skipped`
/// bytes.
pub open spec fn sized_frame_step(
    frame: Seq<u8>,
    skipped: int,
    offset: nat,
    width: nat,
    order: ByteOrder,
    adjustment: int,
    max: nat,
) -> FrameStep {
    let length = declared_length(frame, offset, width, order, adjustment);
    if frame.len() < offset + width {
        wait_at(skipped)
    } else if length <= 0 || length > max || length < offset + width {
        give_up(skipped, skipped + 1, length < 0 || length > max)
    } else if frame.len() < length {
        wait_at(skipped)
    } else {
        accept(skipped, frame.take(length), skipped + length)
    }
}

/// The decision for frames that carry their length.
pub open spec fn length_step(
    buffer: Seq<u8>,
    sync: Seq<u8>,
    offset: nat,
    width: nat,
    order: ByteOrder,
    adjustment: int,
    max: nat,
) -> FrameStep {
    match first_match(buffer, sync, 0) {
        None => wait_keeping(buffer.len(), sync.len() - 1),
        Some(s) => sized_frame_step(buffer.skip(s), s, offset, width, order, adjustment, max),
    }
}

/// The decision at the head of the buffer.
pub open spec fn next_step(rule: FramerRule, state: FramerState) -> FrameStep {
    match rule {
        FramerRule::EndDelimiter { delimiter, max } => end_delimiter_step(state, delimiter, max),
        FramerRule::StartEnd { start, end, max } => start_end_step(state.buffer, start, end, max),
        FramerRule::FixedLength { length, max } => fixed_step(state.buffer, length),
        FramerRule::LengthField { sync, offset, width, order, adjustment, max } => length_step(
            state.buffer,
            sync,
            offset,
            width,
            order,
            adjustment,
            max,
        ),
    }
}

/// The state that a decision leaves.
pub open spec fn after_step(state: FramerState, step: FrameStep) -> FramerState {
    FramerState { buffer: state.buffer.skip(step.consumed as int), dropping: step.dropping }
}

/// What a buffer yields until nothing more can be decided.
#[verifier::ext_equal]
pub struct Drained {
    pub frames: Seq<Seq<u8>>,
    pub oversize: nat,
    pub resyncs: nat,
    pub rest: FramerState,
}

/// All decisions that the bytes at hand allow, one after another.
pub open spec fn drained(rule: FramerRule, state: FramerState) -> Drained
    decreases state.buffer.len(),
{
    let step = next_step(rule, state);
    if step.done || step.consumed == 0 || step.consumed > state.buffer.len() {
        Drained {
            frames: Seq::empty(),
            oversize: step.oversize,
            resyncs: step.resyncs,
            rest: after_step(state, step),
        }
    } else {
        let later = drained(rule, after_step(state, step));
        Drained {
            frames: match step.frame {
                Some(frame) => seq![frame] + later.frames,
                None => later.frames,
            },
            oversize: step.oversize + later.oversize,
            resyncs: step.resyncs + later.resyncs,
            rest: later.rest,
        }
    }
}

/// What is wrong with a framing rule, if anything.
pub open spec fn rule_defect(rule: FramerRule) -> Option<Seq<char>> {
    if rule.max_frame_bytes() == 0 || rule.max_frame_bytes() > HARD_MAX_FRAME_BYTES {
        Some("maxFrameBytes must be between 1 and 4194304"@)
    } else {
        match rule {
            FramerRule::EndDelimiter { delimiter, .. } => if delimiter.len() == 0 {
                Some("delimiter must not be empty"@)
            } else {
                None
            },
            FramerRule::StartEnd { start, end, .. } => if start.len() == 0 || end.len() == 0 {
                Some("start/end must not be empty"@)
            } else {
                None
            },
            FramerRule::FixedLength { length, max } => if length == 0 || length > max {
                Some("fixed length exceeds maxFrameBytes"@)
            } else {
                None
            },
            FramerRule::LengthField { sync, width, .. } => if sync.len() == 0 || !(width == 1
                || width == 2 || width == 4) {
                Some("length field requires sync prefix and width 1, 2, or 4"@)
            } else {
                None
            },
        }
    }
}

/// How many bytes a framer may keep between pushes.
pub open spec fn retention(rule: FramerRule) -> nat {
    match rule {
        FramerRule::EndDelimiter { delimiter, max } => if delimiter.len() > max + 1 {
            (delimiter.len() - 1) as nat
        } else {
            max
        },
        FramerRule::StartEnd { start, end, max } => max + start.len(),
        FramerRule::FixedLength { length, max } => (length - 1) as nat,
        FramerRule::LengthField { sync, offset, width, max, .. } => max + offset + width
            + sync.len(),
    }
}

/// Every decision on a valid rule takes at most the buffer, and takes something
/// unless it waits.
pub proof fn lemma_step_shape(rule: FramerRule, state: FramerState)
    requires
        rule_defect(rule) is None,
    ensures
        next_step(rule, state).consumed <= state.buffer.len(),
        !next_step(rule, state).done ==> next_step(rule, state).consumed > 0,
        next_step(rule, state).oversize <= 1,
        next_step(rule, state).resyncs <= next_step(rule, state).consumed,
        next_step(rule, state).dropping ==> rule is EndDelimiter,
        next_step(rule, state).done ==> state.buffer.len() - next_step(rule, state).consumed
            <= retention(rule),
{
    match rule {
        FramerRule::EndDelimiter { delimiter, max } => {
            lemma_first_match(state.buffer, delimiter, 0);
        },
        FramerRule::StartEnd { start, end, max } => {
            lemma_first_match(state.buffer, start, 0);
            match first_match(state.buffer, start, 0) {
                Some(s) => {
                    lemma_first_match(state.buffer, end, s + start.len());
                },
                None => {},
            }
        },
        FramerRule::FixedLength { length, max } => {},
        FramerRule::LengthField { sync, offset, width, order, adjustment, max } => {
            lemma_first_match(state.buffer, sync, 0);
        },
    }
}

/// Cuts a byte stream into frames, across pushes.
pub struct Framer {
    spec: FramerSpec,
    buffer: Vec<u8>,
    dropping_oversize: bool,
}

/// A decision of the framer in executable form; `frame` gives the ends of the
/// frame in the buffer.
struct Decision {
    consumed: usize,
    frame: Option<(usize, usize)>,
    oversize: bool,
    resyncs: u64,
    dropping: bool,
    done: bool,
}

impl Decision {
    spec fn is(&self, buffer: Seq<u8>, step: FrameStep) -> bool {
        &&& self.consumed == step.consumed
        &&& match self.frame {
            Some((from, to)) => from <= to && to <= buffer.len() && step.frame == Some(
                buffer.subrange(from as int, to as int),
            ),
            None => step.frame is None,
        }
        &&& step.oversize == if self.oversize { 1nat } else { 0nat }
        &&& self.resyncs == step.resyncs
        &&& self.dropping == step.dropping
        &&& self.done == step.done
    }
}

impl Framer {
    /// The framing rule.
    pub closed spec fn rule(&self) -> FramerRule {
        self.spec@
    }

    /// What the framer keeps between pushes.
    pub closed spec fn state(&self) -> FramerState {
        FramerState { buffer: self.buffer@, dropping: self.dropping_oversize }
    }

    /// The rule is valid, and only delimited frames are ever dropped half-way.
    pub open spec fn wf(&self) -> bool {
        &&& rule_defect(self.rule()) is None
        &&& self.state().dropping ==> self.rule() is EndDelimiter
    }

    /// A framer for a rule, or what is wrong with the rule.
    pub fn new(spec: FramerSpec) -> (result: Result<Framer, String>)
        ensures
            match result {
                Ok(framer) => framer.wf() && framer.rule() == spec@ && framer.state()
                    == FramerState::fresh(),
                Err(message) => rule_defect(spec@) == Some(message@),
            },
    {
        let max = spec.max_frame_bytes();
        if max == 0 || max > HARD_MAX_FRAME_BYTES {
            return Err("maxFrameBytes must be between 1 and 4194304".to_owned());
        }
        match &spec {
            FramerSpec::EndDelimiter { delimiter, .. } => {
                if delimiter.len() == 0 {
                    return Err("delimiter must not be empty".to_owned());
                }
            },
            FramerSpec::StartEnd { start, end, .. } => {
                if start.len() == 0 || end.len() == 0 {
                    return Err("start/end must not be empty".to_owned());
                }
            },
            FramerSpec::FixedLength { length, max_frame_bytes, .. } => {
                if *length == 0 || *length > *max_frame_bytes {
                    return Err("fixed length exceeds maxFrameBytes".to_owned());
                }
            },
            FramerSpec::LengthField { sync_prefix, length_width, .. } => {
                if sync_prefix.len() == 0 || !(*length_width == 1 || *length_width == 2
                    || *length_width == 4) {
                    return Err(
                        "length field requires sync prefix and width 1, 2, or 4".to_owned(),
                    );
                }
            },
        }
        let framer = Framer { spec, buffer: Vec::new(), dropping_oversize: false };
        assert(framer.state() =~= FramerState::fresh());
        Ok(framer)
    }

    /// Forgets everything that was received.
    pub fn reset(&mut self)
        requires
            old(self).wf(),
        ensures
            final(self).wf(),
            final(self).rule() == old(self).rule(),
            final(self).state() == FramerState::fresh(),
    {
        self.buffer.clear();
        self.dropping_oversize = false;
        assert(self.state() =~= FramerState::fresh());
    }

    /// Receives bytes and hands out the frames that they complete.
    pub fn push(&mut self, bytes: &[u8]) -> (output: FramerOutput)
        requires
            old(self).wf(),
        ensures
            final(self).wf(),
            final(self).rule() == old(self).rule(),
            final(self).state() == drained(old(self).rule(), old(self).state().receive(bytes@)).rest,
            frame_bytes(output.frames@) == drained(
                old(self).rule(),
                old(self).state().receive(bytes@),
            ).frames,
            output.oversize_frames == drained(
                old(self).rule(),
                old(self).state().receive(bytes@),
            ).oversize,
            output.resyncs == drained(old(self).rule(), old(self).state().receive(bytes@)).resyncs,
            final(self).state().buffer.len() <= retention(old(self).rule()),
    {
        self.buffer.extend_from_slice(bytes);
        let ghost rule = self.rule();
        let ghost received = old(self).state().receive(bytes@);
        assert(self.buffer@ =~= received.buffer);
        let ghost whole = drained(rule, received);
        let mut output = FramerOutput { frames: Vec::new(), oversize_frames: 0, resyncs: 0 };
        let mut done = false;
        let total = self.buffer.len();
        assert(frame_bytes(output.frames@) =~= Seq::<Seq<u8>>::empty());
        assert(whole.frames =~= frame_bytes(output.frames@) + whole.frames);
        while !done
            invariant
                self.wf(),
                self.rule() == rule,
                whole == drained(rule, received),
                self.buffer@.len() <= total,
                done ==> self.state().buffer.len() <= retention(rule),
                done ==> self.state() == whole.rest && whole.frames == frame_bytes(output.frames@)
                    && whole.oversize == output.oversize_frames && whole.resyncs == output.resyncs,
                !done ==> whole.frames == frame_bytes(output.frames@) + drained(
                    rule,
                    self.state(),
                ).frames,
                !done ==> whole.oversize == output.oversize_frames + drained(
                    rule,
                    self.state(),
                ).oversize,
                !done ==> whole.resyncs == output.resyncs + drained(rule, self.state()).resyncs,
                !done ==> whole.rest == drained(rule, self.state()).rest,
                !done ==> output.oversize_frames + self.buffer@.len() <= total,
                !done ==> output.resyncs + self.buffer@.len() <= total,
            decreases (if done { 0nat } else { self.buffer@.len() + 1 }),
        {
            let ghost before = self.state();
            let decision = self.decide();
            let ghost step = next_step(rule, before);
            proof {
                lemma_step_shape(rule, before);
            }
            match decision.frame {
                Some((from, to)) => {
                    let frame_slice = slice_subrange(self.buffer.as_slice(), from, to);
                    let mut frame: Vec<u8> = Vec::new();
                    frame.extend_from_slice(frame_slice);
                    assert(frame@ =~= step.frame->Some_0);
                    let ghost earlier = output.frames@;
                    output.frames.push(frame);
                    assert(frame_bytes(output.frames@) =~= frame_bytes(earlier).push(frame@));
                },
                None => {},
            }
            if decision.oversize {
                output.oversize_frames = output.oversize_frames + 1;
            }
            output.resyncs = output.resyncs + decision.resyncs;
            discard_front(&mut self.buffer, decision.consumed);
            self.dropping_oversize = decision.dropping;
            done = decision.done;
            assert(self.state() =~= after_step(before, step));
            proof {
                if done {
                    assert(whole.frames =~= frame_bytes(output.frames@));
                } else {
                    assert(whole.frames =~= frame_bytes(output.frames@) + drained(
                        rule,
                        self.state(),
                    ).frames);
                }
            }
        }
        output
    }

    /// The decision at the head of the buffer.
    fn decide(&self) -> (decision: Decision)
        requires
            self.wf(),
        ensures
            decision.is(self.state().buffer, next_step(self.rule(), self.state())),
    {
        match &self.spec {
            FramerSpec::EndDelimiter { delimiter, max_frame_bytes, .. } => {
                self.decide_end_delimiter(delimiter.as_slice(), *max_frame_bytes)
            },
            FramerSpec::StartEnd { start, end, max_frame_bytes, .. } => {
                self.decide_start_end(start.as_slice(), end.as_slice(), *max_frame_bytes)
            },
            FramerSpec::FixedLength { length, .. } => { self.decide_fixed(*length) },
            FramerSpec::LengthField {
                sync_prefix,
                length_offset,
                length_width,
                byte_order,
                length_adjustment,
                max_frame_bytes,
                ..
            } => {
                self.decide_length(
                    sync_prefix.as_slice(),
                    *length_offset,
                    *length_width,
                    *byte_order,
                    *length_adjustment,
                    *max_frame_bytes,
                )
            },
        }
    }

    fn decide_end_delimiter(&self, delimiter: &[u8], max: usize) -> (decision: Decision)
        requires
            delimiter@.len() > 0,
        ensures
            decision.is(
                self.state().buffer,
                end_delimiter_step(self.state(), delimiter@, max as nat),
            ),
    {
        let len = self.buffer.len();
        match find_subslice(self.buffer.as_slice(), delimiter) {
            None => {
                if len > max {
                    let keep = delimiter.len() - 1;
                    Decision {
                        consumed: if len > keep {
                            len - keep
                        } else {
                            0
                        },
                        frame: None,
                        oversize: true,
                        resyncs: 0,
                        dropping: true,
                        done: true,
                    }
                } else {
                    Decision {
                        consumed: 0,
                        frame: None,
                        oversize: false,
                        resyncs: 0,
                        dropping: self.dropping_oversize,
                        done: true,
                    }
                }
            },
            Some(position) => {
                let rejected = self.dropping_oversize || position > max;
                assert(self.buffer@.take(position as int) =~= self.buffer@.subrange(
                    0,
                    position as int,
                ));
                Decision {
                    consumed: position + delimiter.len(),
                    frame: if rejected {
                        None
                    } else {
                        Some((0, position))
                    },
                    oversize: false,
                    resyncs: if rejected {
                        1
                    } else {
                        0
                    },
                    dropping: false,
                    done: false,
                }
            },
        }
    }

    fn decide_start_end(&self, start: &[u8], end: &[u8], max: usize) -> (decision: Decision)
        requires
            start@.len() > 0,
            end@.len() > 0,
        ensures
            decision.is(
                self.state().buffer,
                start_end_step(self.state().buffer, start@, end@, max as nat),
            ),
    {
        let len = self.buffer.len();
        let start_pos: usize = match find_subslice(self.buffer.as_slice(), start) {
            Some(position) => position,
            None => {
                return wait_for_marker(len, start.len());
            },
        };
        let body = start_pos + start.len();
        let skipped: u64 = if start_pos > 0 {
            1
        } else {
            0
        };
        match find_from(self.buffer.as_slice(), end, body) {
            None => {
                if len - body > max {
                    Decision {
                        consumed: body,
                        frame: None,
                        oversize: true,
                        resyncs: skipped + 1,
                        dropping: false,
                        done: false,
                    }
                } else {
                    Decision {
                        consumed: start_pos,
                        frame: None,
                        oversize: false,
                        resyncs: skipped,
                        dropping: false,
                        done: true,
                    }
                }
            },
            Some(end_pos) => {
                if end_pos - body > max {
                    Decision {
                        consumed: body,
                        frame: None,
                        oversize: true,
                        resyncs: skipped + 1,
                        dropping: false,
                        done: false,
                    }
                } else {
                    Decision {
                        consumed: end_pos + end.len(),
                        frame: Some((body, end_pos)),
                        oversize: false,
                        resyncs: skipped,
                        dropping: false,
                        done: false,
                    }
                }
            },
        }
    }

    fn decide_fixed(&self, length: usize) -> (decision: Decision)
        requires
            !self.state().dropping,
        ensures
            decision.is(self.state().buffer, fixed_step(self.state().buffer, length as nat)),
    {
        if self.buffer.len() >= length {
            assert(self.buffer@.take(length as int) =~= self.buffer@.subrange(0, length as int));
            Decision {
                consumed: length,
                frame: Some((0, length)),
                oversize: false,
                resyncs: 0,
                dropping: false,
                done: false,
            }
        } else {
            Decision {
                consumed: 0,
                frame: None,
                oversize: false,
                resyncs: 0,
                dropping: false,
                done: true,
            }
        }
    }

    fn decide_length(
        &self,
        sync: &[u8],
        offset: usize,
        width: usize,
        order: ByteOrder,
        adjustment: i32,
        max: usize,
    ) -> (decision: Decision)
        requires
            sync@.len() > 0,
            width == 1 || width == 2 || width == 4,
            max <= HARD_MAX_FRAME_BYTES,
        ensures
            decision.is(
                self.state().buffer,
                length_step(
                    self.state().buffer,
                    sync@,
                    offset as nat,
                    width as nat,
                    order,
                    adjustment as int,
                    max as nat,
                ),
            ),
    {
        match find_subslice(self.buffer.as_slice(), sync) {
            Some(position) => self.decide_sized(position, offset, width, order, adjustment, max),
            None => wait_for_marker(self.buffer.len(), sync.len()),
        }
    }

    /// The decision for a frame that begins at a position.
    fn decide_sized(
        &self,
        position: usize,
        offset: usize,
        width: usize,
        order: ByteOrder,
        adjustment: i32,
        max: usize,
    ) -> (decision: Decision)
        requires
            position <= self.state().buffer.len(),
            width == 1 || width == 2 || width == 4,
            max <= HARD_MAX_FRAME_BYTES,
        ensures
            decision.is(
                self.state().buffer,
                sized_frame_step(
                    self.state().buffer.skip(position as int),
                    position as int,
                    offset as nat,
                    width as nat,
                    order,
                    adjustment as int,
                    max as nat,
                ),
            ),
    {
        let available = self.buffer.len() - position;
        let skipped: u64 = if position > 0 {
            1
        } else {
            0
        };
        let waiting = Decision {
            consumed: position,
            frame: None,
            oversize: false,
            resyncs: skipped,
            dropping: false,
            done: true,
        };
        if available < width || available - width < offset {
            return waiting;
        }
        let declared = self.declared_at(position, offset, width, order);
        match frame_length(declared, adjustment, offset + width, max) {
            Err(oversize) => Decision {
                consumed: position + 1,
                frame: None,
                oversize,
                resyncs: skipped + 1,
                dropping: false,
                done: false,
            },
            Ok(length) => if available < length {
                waiting
            } else {
                proof {
                    lemma_skip_take(self.buffer@, position as int, length as int);
                }
                Decision {
                    consumed: position + length,
                    frame: Some((position, position + length)),
                    oversize: false,
                    resyncs: skipped,
                    dropping: false,
                    done: false,
                }
            },
        }
    }

    /// The length field of a frame that begins at a position.
    fn declared_at(&self, position: usize, offset: usize, width: usize, order: ByteOrder) -> (length:
        u32)
        requires
            position + offset + width <= self.state().buffer.len(),
            width <= 4,
        ensures
            length == unsigned(
                self.state().buffer.skip(position as int).subrange(
                    offset as int,
                    offset + width,
                ),
                order,
            ),
    {
        let len = self.buffer.len();
        let head = slice_subrange(
            self.buffer.as_slice(),
            position + offset,
            position + offset + width,
        );
        assert(head@ =~= self.buffer@.skip(position as int).subrange(
            offset as int,
            offset + width,
        ));
        read_length(head, order)
    }
}

/// Bytes after a skipped prefix.
proof fn lemma_skip_take(buffer: Seq<u8>, skip: int, count: int)
    requires
        0 <= skip,
        0 <= count,
        skip + count <= buffer.len(),
    ensures
        buffer.skip(skip).take(count) == buffer.subrange(skip, skip + count),
{
    assert(buffer.skip(skip).take(count) =~= buffer.subrange(skip, skip + count));
}

/// The length of a whole frame, or whether it is rather too long than impossible.
fn frame_length(declared: u32, adjustment: i32, head: usize, max: usize) -> (result: Result<
    usize,
    bool,
>)
    requires
        max <= HARD_MAX_FRAME_BYTES,
    ensures
        match result {
            Ok(length) => {
                &&& length == declared + adjustment
                &&& 0 < length <= max
                &&& head <= length
            },
            Err(oversize) => {
                let length = declared + adjustment;
                &&& length <= 0 || length > max || length < head
                &&& oversize == (length < 0 || length > max)
            },
        },
{
    let length: i64 = declared as i64 + adjustment as i64;
    if length <= 0 || length > max as i64 || (length as usize) < head {
        Err(length < 0 || length > max as i64)
    } else {
        Ok(length as usize)
    }
}

/// Waits for a marker that did not occur, keeping what may be its beginning.
fn wait_for_marker(len: usize, marker_len: usize) -> (decision: Decision)
    requires
        marker_len > 0,
    ensures
        decision.consumed == wait_keeping(len as nat, marker_len - 1).consumed,
        decision.frame is None,
        !decision.oversize,
        decision.resyncs == 0,
        !decision.dropping,
        decision.done,
{
    let keep = marker_len - 1;
    Decision {
        consumed: if len > keep {
            len - keep
        } else {
            0
        },
        frame: None,
        oversize: false,
        resyncs: 0,
        dropping: false,
        done: true,
    }
}

/// Drops bytes from the front of a buffer.
fn discard_front(buffer: &mut Vec<u8>, count: usize)
    requires
        count <= old(buffer)@.len(),
    ensures
        final(buffer)@ == old(buffer)@.skip(count as int),
{
    if count > 0 {
        let rest = buffer.split_off(count);
        *buffer = rest;
    }
    assert(buffer@ =~= old(buffer)@.skip(count as int));
}

/// Reads a length of at most four bytes.
pub fn read_length(bytes: &[u8], order: ByteOrder) -> (length: u32)
    requires
        bytes@.len() <= 4,
    ensures
        length == unsigned(bytes@, order),
{
    proof {
        lemma_span_values();
        lemma_unsigned_bound(bytes@, order);
        crate::numeral::lemma_span_monotone(bytes@.len(), 4);
    }
    read_unsigned(bytes, order) as u32
}

} // verus!
