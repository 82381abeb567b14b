//! Playing a recorded session back.

use crate::envelope::{
    encode, encode_raw_payload, envelope_bytes, raw_payload, EnvelopeMeta, PayloadType,
};
use crate::error::{failure, ErrorCode, ToolboxError, ToolboxResult};
use crate::event::{
    delivery_says, latest_says, lemma_latest_says, lemma_told_is_on_its_way, told_fields,
    EventData, EventDatum, EventFields, EventValue, StateStore, StoreState,
};
use crate::framer::{rule_defect, FramerState};
use crate::ident::Uuid;
use crate::math::SampleMath;
use crate::model::{RawChunk, ResetReason, ToolboxProject};
use crate::pipeline::{
    chunk_processed, frame_data, still_warming, Pipeline, PipelineOutput, PipelineState,
};
use crate::pipeline_laws::{chunk_gave, lemma_chunk_gave};
use crate::session::{is_raw_of, ReplayChunk, ReplayData};
use crate::transform::{warms_up, Memories};
use vstd::prelude::*;

verus! {

/// The first chunk that is not before a time, or the number of chunks.
pub open spec fn first_from(chunks: Seq<ReplayChunk>, target_ns: i64) -> nat
    decreases chunks.len(),
{
    if chunks.len() == 0 {
        0
    } else {
        let before = first_from(chunks.drop_last(), target_ns);
        if before < chunks.len() - 1 {
            before
        } else if chunks.last().session_offset_ns >= target_ns {
            (chunks.len() - 1) as nat
        } else {
            chunks.len()
        }
    }
}

/// Seeking goes to the first chunk that is not before the time asked for.
pub proof fn law_seeking_finds_the_first_chunk(chunks: Seq<ReplayChunk>, target_ns: i64)
    ensures
        first_from(chunks, target_ns) <= chunks.len(),
        first_from(chunks, target_ns) < chunks.len() ==> chunks[first_from(
            chunks,
            target_ns,
        ) as int].session_offset_ns >= target_ns,
        forall|i: int|
            0 <= i < first_from(chunks, target_ns) ==> (#[trigger] chunks[i]).session_offset_ns
                < target_ns,
    decreases chunks.len(),
{
    if chunks.len() > 0 {
        let head = chunks.drop_last();
        law_seeking_finds_the_first_chunk(head, target_ns);
        assert(forall|i: int| 0 <= i < head.len() ==> #[trigger] chunks[i] == head[i]);
    }
}

fn find_first_from(chunks: &Vec<ReplayChunk>, target_ns: i64) -> (index: usize)
    ensures
        index == first_from(chunks@, target_ns),
        index <= chunks@.len(),
{
    let mut i: usize = 0;
    assert(chunks@.take(0) =~= Seq::<ReplayChunk>::empty());
    while i < chunks.len() && chunks[i].session_offset_ns < target_ns
        invariant
            i <= chunks@.len(),
            first_from(chunks@.take(i as int), target_ns) == i,
        decreases chunks@.len() - i,
    {
        assert(chunks@.take(i + 1).drop_last() =~= chunks@.take(i as int));
        i += 1;
    }
    if i < chunks.len() {
        proof {
            assert(chunks@.take(i + 1).drop_last() =~= chunks@.take(i as int));
            lemma_first_from_prefix(chunks@, target_ns, i + 1);
        }
    } else {
        assert(chunks@.take(i as int) =~= chunks@);
    }
    i
}

proof fn lemma_first_from_prefix(chunks: Seq<ReplayChunk>, target_ns: i64, count: int)
    requires
        0 <= count <= chunks.len(),
        first_from(chunks.take(count), target_ns) < count,
    ensures
        first_from(chunks, target_ns) == first_from(chunks.take(count), target_ns),
    decreases chunks.len() - count,
{
    if count < chunks.len() {
        assert(chunks.take(count + 1).drop_last() =~= chunks.take(count));
        lemma_first_from_prefix(chunks, target_ns, count + 1);
    } else {
        assert(chunks.take(count) =~= chunks);
    }
}

/// Where a player stands.
#[verifier::ext_equal]
pub struct PlayerState<V> {
    pub index: nat,
    pub previous_session_ns: i64,
    pub previous_epoch: Option<(Uuid, u64)>,
    pub warming: bool,
    pub envelope_sequence: u64,
    pub framing: FramerState,
    pub pipeline: PipelineState<V>,
    pub last_reset: Option<ResetReason>,
    pub filters_warming: bool,
}

impl<V> PlayerState<V> {
    /// The same place, with everything forgotten that was received, and why.
    pub open spec fn forgotten(self, reason: ResetReason) -> PlayerState<V> {
        PlayerState {
            framing: FramerState::fresh(),
            pipeline: PipelineState { memories: Memories::<V>::empty(), ..self.pipeline },
            last_reset: Some(reason),
            filters_warming: warms_up(reason),
            ..self
        }
    }

    /// The place that is sought.
    pub open spec fn at(self, index: nat) -> PlayerState<V> {
        PlayerState { index, ..self }
    }

    /// A place that was sought and found, with everything to be warmed up again.
    pub open spec fn sought(self, session_ns: i64) -> PlayerState<V> {
        PlayerState {
            previous_session_ns: session_ns,
            previous_epoch: None,
            warming: true,
            ..self.forgotten(ResetReason::ReplaySeek)
        }
    }

    /// The same place within a connection.
    pub open spec fn within(self, epoch: (Uuid, u64)) -> PlayerState<V> {
        PlayerState { previous_epoch: Some(epoch), ..self }
    }
}

/// What an event says of a place that was sought.
pub open spec fn seeked_data<V>(target_ns: i64) -> EventData<V> {
    seq![
        ("sessionOffsetNs"@, EventDatum::Signed(target_ns)),
        ("warming"@, EventDatum::Flag(true)),
    ]
}

/// What an event says of a connection.
pub open spec fn epoch_data<V>(epoch: (Uuid, u64)) -> EventData<V> {
    seq![("sourceId"@, EventDatum::Id(epoch.0)), ("sourceEpoch"@, EventDatum::Unsigned(epoch.1))]
}

/// What an event says of the gap between connections.
pub open spec fn stream_gap_data<V>(epoch: (Uuid, u64)) -> EventData<V> {
    epoch_data(epoch).push(("reason"@, EventDatum::Text("EpochChanged"@)))
}

/// The connection of a chunk.
pub open spec fn epoch_of(chunk: ReplayChunk) -> (Uuid, u64) {
    (chunk.source_id, chunk.source_epoch)
}

/// A request to seek, if there is one, was followed.
pub open spec fn seek_followed<V>(
    before: PlayerState<V>,
    chunks: Seq<ReplayChunk>,
    seek: Option<i64>,
    store: StoreState<V>,
    after: PlayerState<V>,
    store_after: StoreState<V>,
) -> bool {
    match seek {
        Some(target) => if target < 0 {
            after == before && store_after == store
        } else {
            let moved = before.at(first_from(chunks, target));
            if moved.index >= chunks.len() {
                after == moved && store_after == store
            } else {
                &&& after == moved.sought(chunks[moved.index as int].session_offset_ns)
                &&& told_fields(store, "replay.seeked"@, seeked_data(target), store_after)
            }
        },
        None => after == before && store_after == store,
    }
}

/// The end of a connection was told, if the next chunk is of another one, and what was
/// received of it was forgotten.
pub open spec fn epoch_left<V>(
    before: PlayerState<V>,
    epoch: (Uuid, u64),
    store: StoreState<V>,
    after: PlayerState<V>,
    store_after: StoreState<V>,
) -> bool {
    match before.previous_epoch {
        Some(previous) => if previous == epoch {
            after == before && store_after == store
        } else {
            &&& after == before.forgotten(ResetReason::EpochChanged)
            &&& exists|between: StoreState<V>|
                {
                    &&& #[trigger] told_fields(
                        store,
                        "replay.epochEnd"@,
                        epoch_data(previous),
                        between,
                    )
                    &&& told_fields(
                        between,
                        "replay.streamGap"@,
                        stream_gap_data(previous),
                        store_after,
                    )
                }
        },
        None => after == before && store_after == store,
    }
}

/// The connection of the next chunk was entered, and told if it is another one.
pub open spec fn epoch_entered<V>(
    before: PlayerState<V>,
    epoch: (Uuid, u64),
    store: StoreState<V>,
    after: PlayerState<V>,
    store_after: StoreState<V>,
) -> bool {
    exists|left: PlayerState<V>, between: StoreState<V>|
        {
            &&& #[trigger] epoch_left(before, epoch, store, left, between)
            &&& if before.previous_epoch == Some(epoch) {
                after == left && store_after == between
            } else {
                &&& after == left.within(epoch)
                &&& told_fields(between, "replay.epochStart"@, epoch_data(epoch), store_after)
            }
        }
}

/// How long to wait before a chunk, at the speed of the recording.
pub open spec fn wait_before(previous_ns: i64, session_ns: i64) -> u64 {
    let delta = session_ns - previous_ns;
    if delta <= 0 {
        0
    } else if delta > i64::MAX {
        i64::MAX as u64
    } else {
        delta as u64
    }
}

fn wait_nanoseconds(previous_ns: i64, session_ns: i64) -> (nanoseconds: u64)
    ensures
        nanoseconds == wait_before(previous_ns, session_ns),
{
    if session_ns <= previous_ns {
        0
    } else {
        match session_ns.checked_sub(previous_ns) {
            Some(delta) => delta as u64,
            None => i64::MAX as u64,
        }
    }
}

/// What a player does next.
#[derive(Debug, Clone, Copy, PartialEq, Eq, Structural)]
pub enum ReplayStep {
    /// Nothing is left to play, or it was asked to stop.
    Finished,
    /// Wait so long, at the speed of the recording, and play a chunk.
    Wait { nanoseconds: u64 },
}

/// One look at what is next.
pub open spec fn advanced<V>(
    before: PlayerState<V>,
    chunks: Seq<ReplayChunk>,
    stop: bool,
    seek: Option<i64>,
    store: StoreState<V>,
    step: ReplayStep,
    after: PlayerState<V>,
    store_after: StoreState<V>,
) -> bool {
    if before.index >= chunks.len() || stop {
        step is Finished && after == before && store_after == store
    } else {
        exists|sought: PlayerState<V>, between: StoreState<V>|
            {
                &&& #[trigger] seek_followed(before, chunks, seek, store, sought, between)
                &&& if sought.index >= chunks.len() {
                    step is Finished && after == sought && store_after == between
                } else {
                    let chunk = chunks[sought.index as int];
                    &&& epoch_entered(sought, epoch_of(chunk), between, after, store_after)
                    &&& step == (ReplayStep::Wait {
                        nanoseconds: wait_before(sought.previous_session_ns, chunk.session_offset_ns),
                    })
                }
            }
    }
}

/// What is sent of a chunk that was played.
#[derive(Debug)]
pub struct Played<V> {
    /// The chunk itself, in its envelope.
    pub raw: Vec<u8>,
    /// The envelope of its frames, if there are any.
    pub packets: Option<EnvelopeMeta>,
    /// The envelope of its samples, if there are any.
    pub samples: Option<EnvelopeMeta>,
    pub output: PipelineOutput<V>,
}

/// An envelope for something that came of a chunk.
pub open spec fn meta_for(chunk: ReplayChunk, payload_type: PayloadType, sequence: int) -> EnvelopeMeta {
    EnvelopeMeta {
        payload_type,
        payload_version: 1,
        source_id: chunk.source_id,
        source_epoch: chunk.source_epoch,
        sequence: sequence as u64,
        monotonic_offset_ns: chunk.monotonic_offset_ns,
    }
}

/// How many envelopes a chunk takes.
pub open spec fn envelopes_of<V>(output: PipelineOutput<V>) -> nat {
    1 + (if output.frames@.len() > 0 {
        1nat
    } else {
        0nat
    }) + (if output.samples@.len() > 0 {
        1nat
    } else {
        0nat
    })
}

/// A chunk was played: itself, its frames and its samples go into envelopes with
/// consecutive numbers, and the first samples after seeking are told.
pub open spec fn chunk_played<V, M: SampleMath<V>>(
    math: &M,
    project: ToolboxProject<V>,
    before: PlayerState<V>,
    chunk: ReplayChunk,
    store: StoreState<V>,
    played: Played<V>,
    after: PlayerState<V>,
    store_after: StoreState<V>,
) -> bool {
    let output = played.output;
    let first = before.envelope_sequence + 1;
    &&& exists|raw: RawChunk|
        {
            &&& #[trigger] is_raw_of(raw, chunk)
            &&& chunk_processed(
                math,
                project,
                raw,
                before.framing,
                before.pipeline,
                output,
                after.framing,
                after.pipeline,
            )
            &&& after.filters_warming == still_warming(
                project,
                raw,
                before.filters_warming,
                frame_data(output.frames@),
            )
        }
    &&& played.raw@ == envelope_bytes(
        meta_for(chunk, PayloadType::RawBatch, first),
        raw_payload(chunk.direction, chunk.sequence, chunk.bytes@),
    )
    &&& played.packets == if output.frames@.len() > 0 {
        Some(meta_for(chunk, PayloadType::PacketBatch, first + 1))
    } else {
        None
    }
    &&& played.samples == if output.samples@.len() > 0 {
        Some(
            meta_for(
                chunk,
                PayloadType::SampleBatch,
                before.envelope_sequence + envelopes_of(output),
            ),
        )
    } else {
        None
    }
    &&& after.index == before.index + 1
    &&& after.previous_session_ns == chunk.session_offset_ns
    &&& after.previous_epoch == before.previous_epoch
    &&& after.envelope_sequence == before.envelope_sequence + envelopes_of(output)
    &&& after.last_reset == if chunk.epoch_changed {
        Some(ResetReason::StreamGap)
    } else {
        before.last_reset
    }
    &&& after.warming == (before.warming && output.samples@.len() == 0)
    &&& if before.warming && output.samples@.len() > 0 {
        told_fields(
            store,
            "replay.warmed"@,
            warmed_data(chunk.session_offset_ns),
            store_after,
        )
    } else {
        store_after == store
    }
}

/// What an event says of the first samples after seeking.
pub open spec fn warmed_data<V>(session_ns: i64) -> EventData<V> {
    seq![
        ("sessionOffsetNs"@, EventDatum::Signed(session_ns)),
        ("warming"@, EventDatum::Flag(false)),
    ]
}

/// The end was told: of the connection that was being played, and of the playing.
pub open spec fn end_told<V>(
    previous_epoch: Option<(Uuid, u64)>,
    stopped: bool,
    store: StoreState<V>,
    store_after: StoreState<V>,
) -> bool {
    exists|between: StoreState<V>|
        {
            &&& match previous_epoch {
                Some(epoch) => told_fields(
                    store,
                    "replay.epochEnd"@,
                    epoch_data(epoch),
                    between,
                ),
                None => between == store,
            }
            &&& #[trigger] told_fields(
                between,
                "replay.completed"@,
                seq![("stopped"@, EventDatum::Flag(stopped))],
                store_after,
            )
        }
}

/// Plays a recorded session.
pub struct ReplayPlayer<V> {
    chunks: Vec<ReplayChunk>,
    pipeline: Pipeline<V>,
    index: usize,
    previous_session_ns: i64,
    previous_epoch: Option<(Uuid, u64)>,
    warming: bool,
    envelope_sequence: u64,
}

impl<V: Copy> ReplayPlayer<V> {
    /// What is played.
    pub closed spec fn chunks(&self) -> Seq<ReplayChunk> {
        self.chunks@
    }

    /// The project that it was recorded under.
    pub closed spec fn project(&self) -> ToolboxProject<V> {
        self.pipeline.project()
    }

    /// Where the player stands.
    pub closed spec fn state(&self) -> PlayerState<V> {
        PlayerState {
            index: self.index as nat,
            previous_session_ns: self.previous_session_ns,
            previous_epoch: self.previous_epoch,
            warming: self.warming,
            envelope_sequence: self.envelope_sequence,
            framing: self.pipeline.framing(),
            pipeline: self.pipeline.state(),
            last_reset: self.pipeline.last_reset(),
            filters_warming: self.pipeline.warming(),
        }
    }

    /// The pipeline is well formed.
    pub closed spec fn wf(&self) -> bool {
        self.pipeline.wf()
    }

    /// A player at the beginning of a session, unless the framing rule of its project
    /// is invalid.
    pub fn new(data: ReplayData<V>) -> (result: ToolboxResult<ReplayPlayer<V>>)
        ensures
            match result {
                Ok(player) => {
                    &&& rule_defect(data.project.framer@) is None
                    &&& player.wf()
                    &&& player.chunks() == data.chunks@
                    &&& player.project() == *data.project
                    &&& player.state() == (PlayerState {
                        index: 0,
                        previous_session_ns: 0,
                        previous_epoch: None,
                        warming: false,
                        envelope_sequence: 0,
                        framing: FramerState::fresh(),
                        pipeline: PipelineState {
                            last_sequence: 0,
                            memories: Memories::<V>::empty(),
                        },
                        last_reset: Some(ResetReason::ReplayStart),
                        filters_warming: false,
                    })
                },
                Err(error) => {
                    &&& rule_defect(data.project.framer@) matches Some(message)
                    &&& error@ == failure(
                        ErrorCode::ProjectSchemaInvalid,
                        "pipeline.new"@,
                        "framer_invalid"@,
                    ).because(message)
                },
            },
    {
        match Pipeline::new(data.project) {
            Ok(pipeline) => {
                let mut pipeline = pipeline;
                pipeline.reset(ResetReason::ReplayStart);
                Ok(
                    ReplayPlayer {
                        chunks: data.chunks,
                        pipeline,
                        index: 0,
                        previous_session_ns: 0,
                        previous_epoch: None,
                        warming: false,
                        envelope_sequence: 0,
                    },
                )
            },
            Err(error) => Err(error),
        }
    }

    /// Follows a request to seek.
    fn follow_seek(&mut self, seek: Option<i64>, state: &mut StateStore<V>)
        requires
            old(self).wf(),
            old(state).wf(),
        ensures
            final(self).wf(),
            final(state).wf(),
            final(self).chunks() == old(self).chunks(),
            final(self).project() == old(self).project(),
            seek_followed(
                old(self).state(),
                old(self).chunks(),
                seek,
                old(state)@,
                final(self).state(),
                final(state)@,
            ),
    {
        let ghost before = self.state();
        if let Some(target) = seek {
            if target >= 0 {
                self.index = find_first_from(&self.chunks, target);
                assert(self.state() =~= before.at(first_from(self.chunks@, target)));
                if self.index < self.chunks.len() {
                    self.pipeline.reset(ResetReason::ReplaySeek);
                    self.previous_session_ns = self.chunks[self.index].session_offset_ns;
                    self.previous_epoch = None;
                    self.warming = true;
                    assert(self.state() =~= before.at(first_from(self.chunks@, target)).sought(
                        self.chunks@[self.index as int].session_offset_ns,
                    ));
                    let fields = EventFields::new().with(
                        "sessionOffsetNs",
                        EventValue::Signed(target),
                    ).with("warming", EventValue::Flag(true));
                    assert(fields@ =~= seeked_data(target));
                    state.emit_fields("replay.seeked", fields);
                }
            }
        }
    }

    /// Enters the connection of the next chunk.
    fn enter_epoch(&mut self, epoch: (Uuid, u64), state: &mut StateStore<V>)
        requires
            old(self).wf(),
            old(state).wf(),
        ensures
            final(self).wf(),
            final(state).wf(),
            final(self).chunks() == old(self).chunks(),
            final(self).project() == old(self).project(),
            epoch_entered(
                old(self).state(),
                epoch,
                old(state)@,
                final(self).state(),
                final(state)@,
            ),
    {
        let ghost before = self.state();
        let same = match self.previous_epoch {
            Some(previous) => previous.0 == epoch.0 && previous.1 == epoch.1,
            None => false,
        };
        if !same {
            if let Some(previous) = self.previous_epoch {
                let fields = EventFields::new().with("sourceId", EventValue::Id(previous.0)).with(
                    "sourceEpoch",
                    EventValue::Unsigned(previous.1),
                );
                assert(fields@ =~= epoch_data(previous));
                state.emit_fields("replay.epochEnd", fields);
                let ghost between = state@;
                let gap = EventFields::new().with("sourceId", EventValue::Id(previous.0)).with(
                    "sourceEpoch",
                    EventValue::Unsigned(previous.1),
                ).with("reason", EventValue::Text("EpochChanged".to_owned()));
                assert(gap@ =~= stream_gap_data(previous));
                state.emit_fields("replay.streamGap", gap);
                self.pipeline.reset(ResetReason::EpochChanged);
                assert(told_fields(
                    old(state)@,
                    "replay.epochEnd"@,
                    epoch_data(previous),
                    between,
                ));
                assert(self.state() =~= before.forgotten(ResetReason::EpochChanged));
            }
        }
        let ghost left = self.state();
        let ghost between = state@;
        assert(epoch_left(before, epoch, old(state)@, left, between));
        if !same {
            let fields = EventFields::new().with("sourceId", EventValue::Id(epoch.0)).with(
                "sourceEpoch",
                EventValue::Unsigned(epoch.1),
            );
            assert(fields@ =~= epoch_data(epoch));
            state.emit_fields("replay.epochStart", fields);
            self.previous_epoch = Some(epoch);
            assert(self.state() =~= left.within(epoch));
        }
    }

    /// Looks at what is next.
    pub fn advance(&mut self, stop: bool, seek: Option<i64>, state: &mut StateStore<V>) -> (step:
        ReplayStep)
        requires
            old(self).wf(),
            old(state).wf(),
        ensures
            final(self).wf(),
            final(state).wf(),
            final(self).chunks() == old(self).chunks(),
            final(self).project() == old(self).project(),
            advanced(
                old(self).state(),
                old(self).chunks(),
                stop,
                seek,
                old(state)@,
                step,
                final(self).state(),
                final(state)@,
            ),
            step is Wait ==> final(self).state().index < final(self).chunks().len(),
    {
        if self.index >= self.chunks.len() || stop {
            return ReplayStep::Finished;
        }
        self.follow_seek(seek, state);
        let ghost sought = self.state();
        let ghost between = state@;
        if self.index >= self.chunks.len() {
            return ReplayStep::Finished;
        }
        let epoch = (self.chunks[self.index].source_id, self.chunks[self.index].source_epoch);
        let offset = self.chunks[self.index].session_offset_ns;
        let nanoseconds = wait_nanoseconds(self.previous_session_ns, offset);
        self.enter_epoch(epoch, state);
        assert(seek_followed(
            old(self).state(),
            old(self).chunks(),
            seek,
            old(state)@,
            sought,
            between,
        ));
        ReplayStep::Wait { nanoseconds }
    }

    /// Whether there are numbers left for the envelopes of one more chunk.
    pub fn has_room(&self) -> (room: bool)
        ensures
            room == (self.state().envelope_sequence <= u64::MAX - 3),
    {
        self.envelope_sequence <= u64::MAX - 3
    }

    /// Plays the chunk that is next.
    pub fn play<M: SampleMath<V>>(&mut self, math: &M, state: &mut StateStore<V>) -> (played: Played<
        V,
    >)
        requires
            old(self).wf(),
            old(state).wf(),
            old(self).state().index < old(self).chunks().len(),
            old(self).state().envelope_sequence <= u64::MAX - 3,
        ensures
            final(self).wf(),
            final(state).wf(),
            final(self).chunks() == old(self).chunks(),
            final(self).project() == old(self).project(),
            chunk_played(
                math,
                old(self).project(),
                old(self).state(),
                old(self).chunks()[old(self).state().index as int],
                old(state)@,
                played,
                final(self).state(),
                final(state)@,
            ),
    {
        let chunk = &self.chunks[self.index];
        self.previous_session_ns = chunk.session_offset_ns;
        self.envelope_sequence = self.envelope_sequence + 1;
        let payload = encode_raw_payload(chunk.direction, chunk.sequence, chunk.bytes.as_slice());
        let raw_envelope = encode(
            EnvelopeMeta {
                payload_type: PayloadType::RawBatch,
                payload_version: 1,
                source_id: chunk.source_id,
                source_epoch: chunk.source_epoch,
                sequence: self.envelope_sequence,
                monotonic_offset_ns: chunk.monotonic_offset_ns,
            },
            payload.as_slice(),
        );
        let raw = chunk.to_raw();
        let output = self.pipeline.process(&raw, math);
        let mut packets: Option<EnvelopeMeta> = None;
        if output.frames.len() > 0 {
            self.envelope_sequence = self.envelope_sequence + 1;
            packets =
            Some(
                EnvelopeMeta {
                    payload_type: PayloadType::PacketBatch,
                    payload_version: 1,
                    source_id: chunk.source_id,
                    source_epoch: chunk.source_epoch,
                    sequence: self.envelope_sequence,
                    monotonic_offset_ns: chunk.monotonic_offset_ns,
                },
            );
        }
        let mut samples: Option<EnvelopeMeta> = None;
        if output.samples.len() > 0 {
            self.envelope_sequence = self.envelope_sequence + 1;
            samples =
            Some(
                EnvelopeMeta {
                    payload_type: PayloadType::SampleBatch,
                    payload_version: 1,
                    source_id: chunk.source_id,
                    source_epoch: chunk.source_epoch,
                    sequence: self.envelope_sequence,
                    monotonic_offset_ns: chunk.monotonic_offset_ns,
                },
            );
            if self.warming {
                self.warming = false;
                let fields = EventFields::new().with(
                    "sessionOffsetNs",
                    EventValue::Signed(chunk.session_offset_ns),
                ).with("warming", EventValue::Flag(false));
                assert(fields@ =~= warmed_data(chunk.session_offset_ns));
                state.emit_fields("replay.warmed", fields);
            }
        }
        assert(self.index < self.chunks.len());
        self.index = self.index + 1;
        assert(is_raw_of(raw, *chunk));
        Played { raw: raw_envelope, packets, samples, output }
    }

    /// Tells the end.
    pub fn finish(&self, stopped: bool, state: &mut StateStore<V>)
        requires
            old(state).wf(),
        ensures
            final(state).wf(),
            end_told(self.state().previous_epoch, stopped, old(state)@, final(state)@),
    {
        if let Some(epoch) = self.previous_epoch {
            let fields = EventFields::new().with("sourceId", EventValue::Id(epoch.0)).with(
                "sourceEpoch",
                EventValue::Unsigned(epoch.1),
            );
            assert(fields@ =~= epoch_data(epoch));
            state.emit_fields("replay.epochEnd", fields);
        }
        let ghost between = state@;
        let fields = EventFields::new().with("stopped", EventValue::Flag(stopped));
        assert(fields@ =~= seq![("stopped"@, EventDatum::Flag(stopped))]);
        state.emit_fields("replay.completed", fields);
        assert(told_fields(
            between,
            "replay.completed"@,
            seq![("stopped"@, EventDatum::Flag(stopped))],
            state@,
        ));
    }
}

/// Nothing received before a change of connection, or before a place that was sought,
/// is mixed with what comes after it, and why it was forgotten is noted.
pub proof fn law_boundaries_forget<V>(
    before: PlayerState<V>,
    chunks: Seq<ReplayChunk>,
    seek: Option<i64>,
    store: StoreState<V>,
    nanoseconds: u64,
    after: PlayerState<V>,
    store_after: StoreState<V>,
)
    requires
        before.index < chunks.len(),
        advanced(
            before,
            chunks,
            false,
            seek,
            store,
            ReplayStep::Wait { nanoseconds },
            after,
            store_after,
        ),
        (seek matches Some(target) && target >= 0) || (before.previous_epoch matches Some(epoch)
            && epoch != epoch_of(chunks[before.index as int])),
    ensures
        after.framing == FramerState::fresh(),
        after.pipeline.memories == Memories::<V>::empty(),
        after.previous_epoch == Some(epoch_of(chunks[after.index as int])),
        after.last_reset == Some(
            if seek matches Some(target) && target >= 0 {
                ResetReason::ReplaySeek
            } else {
                ResetReason::EpochChanged
            },
        ),
{
    let (sought, between) = choose|sought: PlayerState<V>, between: StoreState<V>|
        {
            &&& #[trigger] seek_followed(before, chunks, seek, store, sought, between)
            &&& !(sought.index >= chunks.len())
            &&& epoch_entered(
                sought,
                epoch_of(chunks[sought.index as int]),
                between,
                after,
                store_after,
            )
        };
    let epoch = epoch_of(chunks[sought.index as int]);
    let (left, middle) = choose|left: PlayerState<V>, middle: StoreState<V>|
        {
            &&& #[trigger] epoch_left(sought, epoch, between, left, middle)
            &&& if sought.previous_epoch == Some(epoch) {
                after == left && store_after == middle
            } else {
                &&& after == left.within(epoch)
                &&& told_fields(middle, "replay.epochStart"@, epoch_data(epoch), store_after)
            }
        };
}

/// A chunk that was waited for and played: the state while it was waited for, how long, and
/// what was sent.
pub struct PlayedRound<V> {
    pub store: StoreState<V>,
    pub nanoseconds: u64,
    pub waiting: PlayerState<V>,
    pub store_waiting: StoreState<V>,
    pub played: Played<V>,
    pub store_played: StoreState<V>,
}

/// Chunks that were played one after the other, without stopping or seeking.
pub open spec fn played_in_turn<V, M: SampleMath<V>>(
    math: &M,
    project: ToolboxProject<V>,
    chunks: Seq<ReplayChunk>,
    states: Seq<PlayerState<V>>,
    rounds: Seq<PlayedRound<V>>,
) -> bool {
    &&& states.len() == rounds.len() + 1
    &&& forall|i: int|
        #![trigger rounds[i]]
        0 <= i < rounds.len() ==> {
            &&& states[i].index < chunks.len()
            &&& advanced(
                states[i],
                chunks,
                false,
                None,
                rounds[i].store,
                ReplayStep::Wait { nanoseconds: rounds[i].nanoseconds },
                rounds[i].waiting,
                rounds[i].store_waiting,
            )
            &&& chunk_played(
                math,
                project,
                rounds[i].waiting,
                chunks[rounds[i].waiting.index as int],
                rounds[i].store_waiting,
                rounds[i].played,
                states[i + 1],
                rounds[i].store_played,
            )
        }
}

/// How long was waited in all.
pub open spec fn waited_in_all<V>(rounds: Seq<PlayedRound<V>>) -> int
    decreases rounds.len(),
{
    if rounds.len() == 0 {
        0
    } else {
        waited_in_all(rounds.drop_last()) + rounds.last().nanoseconds
    }
}

/// Looking at the next chunk without seeking leaves the player where it is.
proof fn lemma_next_in_place<V>(
    before: PlayerState<V>,
    chunks: Seq<ReplayChunk>,
    store: StoreState<V>,
    nanoseconds: u64,
    after: PlayerState<V>,
    store_after: StoreState<V>,
)
    requires
        before.index < chunks.len(),
        advanced(
            before,
            chunks,
            false,
            None,
            store,
            ReplayStep::Wait { nanoseconds },
            after,
            store_after,
        ),
    ensures
        after.index == before.index,
        after.previous_session_ns == before.previous_session_ns,
        after.envelope_sequence == before.envelope_sequence,
        after.pipeline.last_sequence == before.pipeline.last_sequence,
        nanoseconds == wait_before(
            before.previous_session_ns,
            chunks[before.index as int].session_offset_ns,
        ),
{
    let (sought, between) = choose|sought: PlayerState<V>, between: StoreState<V>|
        {
            &&& #[trigger] seek_followed(before, chunks, None, store, sought, between)
            &&& if sought.index >= chunks.len() {
                false
            } else {
                let chunk = chunks[sought.index as int];
                &&& epoch_entered(sought, epoch_of(chunk), between, after, store_after)
                &&& nanoseconds == wait_before(
                    sought.previous_session_ns,
                    chunk.session_offset_ns,
                )
            }
        };
    let epoch = epoch_of(chunks[sought.index as int]);
    let (left, middle) = choose|left: PlayerState<V>, middle: StoreState<V>|
        {
            &&& #[trigger] epoch_left(sought, epoch, between, left, middle)
            &&& if sought.previous_epoch == Some(epoch) {
                after == left && store_after == middle
            } else {
                &&& after == left.within(epoch)
                &&& told_fields(middle, "replay.epochStart"@, epoch_data(epoch), store_after)
            }
        };
}

/// A recording is played at its own speed: its chunks are played in order, and all waits up
/// to a chunk together last as long as the recording did up to it.
pub proof fn law_a_recording_is_played_at_its_own_speed<V, M: SampleMath<V>>(
    math: &M,
    project: ToolboxProject<V>,
    chunks: Seq<ReplayChunk>,
    states: Seq<PlayerState<V>>,
    rounds: Seq<PlayedRound<V>>,
)
    requires
        played_in_turn(math, project, chunks, states, rounds),
        0 <= states[0].previous_session_ns,
        forall|i: int, j: int|
            states[0].index <= i <= j < chunks.len() ==> (
            #[trigger] chunks[i]).session_offset_ns <= (#[trigger] chunks[j]).session_offset_ns,
        states[0].index < chunks.len() ==> states[0].previous_session_ns
            <= chunks[states[0].index as int].session_offset_ns,
    ensures
        states.last().index == states[0].index + rounds.len(),
        rounds.len() > 0 ==> states[0].previous_session_ns + waited_in_all(rounds)
            == chunks[states[0].index + rounds.len() - 1].session_offset_ns,
        states.last().previous_session_ns == states[0].previous_session_ns + waited_in_all(rounds),
    decreases rounds.len(),
{
    if rounds.len() > 0 {
        let n = rounds.len() - 1;
        let last = rounds[n];
        let earlier = rounds.drop_last();
        let before = states.drop_last();
        assert forall|i: int| #![trigger earlier[i]] 0 <= i < earlier.len() implies {
            &&& before[i].index < chunks.len()
            &&& advanced(
                before[i],
                chunks,
                false,
                None,
                earlier[i].store,
                ReplayStep::Wait { nanoseconds: earlier[i].nanoseconds },
                earlier[i].waiting,
                earlier[i].store_waiting,
            )
            &&& chunk_played(
                math,
                project,
                earlier[i].waiting,
                chunks[earlier[i].waiting.index as int],
                earlier[i].store_waiting,
                earlier[i].played,
                before[i + 1],
                earlier[i].store_played,
            )
        } by {
            assert(rounds[i] == earlier[i]);
        }
        law_a_recording_is_played_at_its_own_speed(math, project, chunks, before, earlier);
        assert(before.last() == states[n]);
        lemma_next_in_place(
            states[n],
            chunks,
            last.store,
            last.nanoseconds,
            last.waiting,
            last.store_waiting,
        );
        let index = states[n].index as int;
        if n > 0 {
            assert(chunks[index - 1].session_offset_ns <= chunks[index].session_offset_ns);
        }
        assert(states.last() == states[n + 1]);
    }
}

/// Every chunk that is played goes out as it was recorded, in an envelope that names its
/// source and connection, followed by one for its frames and one for its samples, if there
/// are any. The envelopes are numbered on without gaps.
pub proof fn law_played_chunks_go_out_as_recorded<V, M: SampleMath<V>>(
    math: &M,
    project: ToolboxProject<V>,
    chunks: Seq<ReplayChunk>,
    states: Seq<PlayerState<V>>,
    rounds: Seq<PlayedRound<V>>,
    i: int,
)
    requires
        played_in_turn(math, project, chunks, states, rounds),
        0 <= i < rounds.len(),
        states[i].envelope_sequence <= u64::MAX - 3,
    ensures
        ({
            let chunk = chunks[states[i].index as int];
            let played = rounds[i].played;
            let first = states[i].envelope_sequence + 1;
            let meta = EnvelopeMeta {
                payload_type: PayloadType::RawBatch,
                payload_version: 1,
                source_id: chunk.source_id,
                source_epoch: chunk.source_epoch,
                sequence: first as u64,
                monotonic_offset_ns: chunk.monotonic_offset_ns,
            };
            let frames = played.output.frames@.len() > 0;
            let samples = played.output.samples@.len() > 0;
            let sample_place = first + if frames {
                2int
            } else {
                1
            };
            &&& played.raw@ == envelope_bytes(
                meta,
                raw_payload(chunk.direction, chunk.sequence, chunk.bytes@),
            )
            &&& played.packets == if frames {
                Some(
                    EnvelopeMeta {
                        payload_type: PayloadType::PacketBatch,
                        sequence: (first + 1) as u64,
                        ..meta
                    },
                )
            } else {
                None
            }
            &&& played.samples == if samples {
                Some(
                    EnvelopeMeta {
                        payload_type: PayloadType::SampleBatch,
                        sequence: sample_place as u64,
                        ..meta
                    },
                )
            } else {
                None
            }
            &&& states[i + 1].envelope_sequence == if samples {
                sample_place
            } else {
                sample_place - 1
            }
        }),
{
    lemma_next_in_place(
        states[i],
        chunks,
        rounds[i].store,
        rounds[i].nanoseconds,
        rounds[i].waiting,
        rounds[i].store_waiting,
    );
}

/// A new player waits for the first chunk until its time, then plays it, and then waits for
/// the second one as long as the recording did between the two.
pub proof fn law_a_player_keeps_the_time_of_the_recording<V: Copy, M: SampleMath<V>>(
    math: &M,
    data: ReplayData<V>,
    created: ReplayPlayer<V>,
    first: &mut ReplayPlayer<V>,
    played: &mut ReplayPlayer<V>,
    second: &mut ReplayPlayer<V>,
    stores: (&mut StateStore<V>, &mut StateStore<V>, &mut StateStore<V>),
    first_step: ReplayStep,
    output: Played<V>,
    second_step: ReplayStep,
)
    requires
        data.chunks@.len() >= 2,
        0 <= data.chunks@[0].session_offset_ns <= data.chunks@[1].session_offset_ns,
        call_ensures(
            ReplayPlayer::<V>::new,
            (data,),
            Ok::<ReplayPlayer<V>, ToolboxError>(created),
        ),
        *old(first) == created,
        call_ensures(
            ReplayPlayer::<V>::advance,
            (first, false, None, stores.0),
            first_step,
        ),
        *old(played) == *final(first),
        call_ensures(ReplayPlayer::<V>::play::<M>, (played, math, stores.1), output),
        *old(second) == *final(played),
        call_ensures(
            ReplayPlayer::<V>::advance,
            (second, false, None, stores.2),
            second_step,
        ),
    ensures
        first_step == (ReplayStep::Wait {
            nanoseconds: data.chunks@[0].session_offset_ns as u64,
        }),
        second_step == (ReplayStep::Wait {
            nanoseconds: (data.chunks@[1].session_offset_ns
                - data.chunks@[0].session_offset_ns) as u64,
        }),
        final(second).state().index == 1,
{
    let chunks = data.chunks@;
    if let ReplayStep::Wait { nanoseconds } = first_step {
        lemma_next_in_place(
            old(first).state(),
            chunks,
            old(stores.0)@,
            nanoseconds,
            final(first).state(),
            final(stores.0)@,
        );
    }
    if let ReplayStep::Wait { nanoseconds } = second_step {
        lemma_next_in_place(
            old(second).state(),
            chunks,
            old(stores.2)@,
            nanoseconds,
            final(second).state(),
            final(stores.2)@,
        );
    }
}

/// Seeking goes on at once with the first chunk that is not before the time asked for; where
/// there is none, playing is over. Who asks to stop gets nothing more.
pub proof fn law_seeking_goes_on_at_the_time_asked_for<V: Copy>(
    player: &mut ReplayPlayer<V>,
    store: &mut StateStore<V>,
    stop: bool,
    target: i64,
    step: ReplayStep,
)
    requires
        old(player).wf(),
        old(store).wf(),
        old(player).state().index < old(player).chunks().len(),
        target >= 0,
        call_ensures(
            ReplayPlayer::<V>::advance,
            (player, stop, Some(target), store),
            step,
        ),
    ensures
        final(player).chunks() == old(player).chunks(),
        stop ==> step is Finished && final(player).state() == old(player).state(),
        !stop ==> {
            let chunks = old(player).chunks();
            let index = final(player).state().index as int;
            &&& forall|i: int|
                0 <= i < index ==> (#[trigger] chunks[i]).session_offset_ns < target
            &&& match step {
                ReplayStep::Wait { nanoseconds } => {
                    &&& nanoseconds == 0
                    &&& index < chunks.len()
                    &&& chunks[index].session_offset_ns >= target
                },
                ReplayStep::Finished => index == chunks.len(),
            }
        },
{
    let before = old(player).state();
    let after = final(player).state();
    let chunks = old(player).chunks();
    law_seeking_finds_the_first_chunk(chunks, target);
    if !stop {
        let (sought, between) = choose|sought: PlayerState<V>, between: StoreState<V>|
            {
                &&& #[trigger] seek_followed(
                    before,
                    chunks,
                    Some(target),
                    old(store)@,
                    sought,
                    between,
                )
                &&& if sought.index >= chunks.len() {
                    step is Finished && after == sought && final(store)@ == between
                } else {
                    let chunk = chunks[sought.index as int];
                    &&& epoch_entered(sought, epoch_of(chunk), between, after, final(store)@)
                    &&& step == (ReplayStep::Wait {
                        nanoseconds: wait_before(
                            sought.previous_session_ns,
                            chunk.session_offset_ns,
                        ),
                    })
                }
            };
    }
}

/// Who plays, and what was asked of it.
#[derive(Debug)]
pub struct ReplayControl {
    pub running: bool,
    pub stop_requested: bool,
    pub seek_ns: Option<i64>,
}

/// What comes of a request to seek.
pub open spec fn seek_requested<V>(
    session_offset_ns: i64,
    control: ReplayControl,
    store: StoreState<V>,
    result: ToolboxResult<()>,
    control_after: ReplayControl,
    store_after: StoreState<V>,
) -> bool {
    match result {
        Ok(()) => {
            &&& session_offset_ns >= 0
            &&& control.running
            &&& control_after == (ReplayControl { seek_ns: Some(session_offset_ns), ..control })
            &&& told_fields(
                store,
                "replay.seekRequested"@,
                seq![("sessionOffsetNs"@, EventDatum::Signed(session_offset_ns))],
                store_after,
            )
        },
        Err(error) => {
            &&& control_after == control
            &&& store_after == store
            &&& if session_offset_ns < 0 {
                error@ == failure(
                    ErrorCode::ReplayFailed,
                    "replay.seek"@,
                    "seek_offset_invalid"@,
                )
            } else {
                &&& !control.running
                &&& error@ == failure(
                    ErrorCode::ReplayFailed,
                    "replay.seek"@,
                    "replay_not_running"@,
                )
            }
        },
    }
}

impl ReplayControl {
    /// Nothing plays.
    pub fn new() -> (control: ReplayControl)
        ensures
            control == (ReplayControl { running: false, stop_requested: false, seek_ns: None }),
    {
        ReplayControl { running: false, stop_requested: false, seek_ns: None }
    }

    /// Begins to play, unless something plays already.
    pub fn begin(&mut self) -> (result: ToolboxResult<()>)
        ensures
            match result {
                Ok(()) => !old(self).running && *final(self) == (ReplayControl {
                    running: true,
                    stop_requested: false,
                    seek_ns: None,
                }),
                Err(error) => {
                    &&& old(self).running
                    &&& *final(self) == *old(self)
                    &&& error@ == failure(
                        ErrorCode::ReplayFailed,
                        "replay.start"@,
                        "replay_already_running"@,
                    )
                },
            },
    {
        if self.running {
            return Err(
                ToolboxError::new(
                    ErrorCode::ReplayFailed,
                    "replay.start",
                    "replay_already_running",
                ),
            );
        }
        self.running = true;
        self.stop_requested = false;
        self.seek_ns = None;
        Ok(())
    }

    /// Asks to stop.
    pub fn stop_replay(&mut self)
        ensures
            *final(self) == (ReplayControl { stop_requested: true, ..*old(self) }),
    {
        self.stop_requested = true;
    }

    /// Asks to go to a time of the session.
    pub fn seek_replay<V: Copy>(&mut self, session_offset_ns: i64, state: &mut StateStore<V>) -> (
        result: ToolboxResult<()>)
        requires
            old(state).wf(),
        ensures
            final(state).wf(),
            seek_requested(
                session_offset_ns,
                *old(self),
                old(state)@,
                result,
                *final(self),
                final(state)@,
            ),
    {
        if session_offset_ns < 0 {
            return Err(
                ToolboxError::new(ErrorCode::ReplayFailed, "replay.seek", "seek_offset_invalid"),
            );
        }
        if !self.running {
            return Err(
                ToolboxError::new(ErrorCode::ReplayFailed, "replay.seek", "replay_not_running"),
            );
        }
        self.seek_ns = Some(session_offset_ns);
        let fields = EventFields::new().with(
            "sessionOffsetNs",
            EventValue::Signed(session_offset_ns),
        );
        assert(fields@ =~= seq![("sessionOffsetNs"@, EventDatum::Signed(session_offset_ns))]);
        state.emit_fields("replay.seekRequested", fields);
        Ok(())
    }

    /// Whether a wait should be cut short.
    pub fn is_interrupted(&self) -> (interrupted: bool)
        ensures
            interrupted == (self.stop_requested || self.seek_ns is Some),
    {
        self.stop_requested || self.seek_ns.is_some()
    }

    /// Takes the request to seek.
    pub fn take_seek(&mut self) -> (seek: Option<i64>)
        ensures
            seek == old(self).seek_ns,
            *final(self) == (ReplayControl { seek_ns: None, ..*old(self) }),
    {
        let seek = self.seek_ns;
        self.seek_ns = None;
        seek
    }

    /// Playing is over.
    pub fn finished(&mut self)
        ensures
            *final(self) == (ReplayControl { running: false, ..*old(self) }),
    {
        self.running = false;
    }
}

/// Where the next chunk came over another connection, the end of the one before is told, then
/// the gap between them, then the beginning of the next; and nothing of the one before is kept.
/// Within a connection nothing is told and nothing forgotten.
pub proof fn law_connections_are_told_apart<V: Copy>(
    player: &mut ReplayPlayer<V>,
    store: &mut StateStore<V>,
    step: ReplayStep,
    previous: (Uuid, u64),
    chunk: ReplayChunk,
)
    requires
        old(player).wf(),
        old(store).wf(),
        old(player).state().index < old(player).chunks().len(),
        chunk == old(player).chunks()[old(player).state().index as int],
        old(player).state().previous_epoch == Some(previous),
        call_ensures(ReplayPlayer::<V>::advance, (player, false, None, store), step),
    ensures
        final(player).state().index == old(player).state().index,
        final(player).state().previous_epoch == Some((chunk.source_id, chunk.source_epoch)),
        previous.0 == chunk.source_id && previous.1 == chunk.source_epoch ==> {
            &&& final(store)@ == old(store)@
            &&& final(player).state() == old(player).state()
        },
        previous.0 != chunk.source_id || previous.1 != chunk.source_epoch ==> {
            let n = old(store)@.pending.len() as int;
            let told = final(store)@.pending;
            let after = final(player).state();
            &&& told.len() == n + 3
            &&& delivery_says(
                told[n],
                "replay.epochEnd"@,
                "sourceId"@,
                EventDatum::Id(previous.0),
            )
            &&& delivery_says(
                told[n],
                "replay.epochEnd"@,
                "sourceEpoch"@,
                EventDatum::Unsigned(previous.1),
            )
            &&& delivery_says(
                told[n + 1],
                "replay.streamGap"@,
                "sourceId"@,
                EventDatum::Id(previous.0),
            )
            &&& delivery_says(
                told[n + 1],
                "replay.streamGap"@,
                "sourceEpoch"@,
                EventDatum::Unsigned(previous.1),
            )
            &&& delivery_says(
                told[n + 1],
                "replay.streamGap"@,
                "reason"@,
                EventDatum::Text("EpochChanged"@),
            )
            &&& delivery_says(
                told[n + 2],
                "replay.epochStart"@,
                "sourceId"@,
                EventDatum::Id(chunk.source_id),
            )
            &&& delivery_says(
                told[n + 2],
                "replay.epochStart"@,
                "sourceEpoch"@,
                EventDatum::Unsigned(chunk.source_epoch),
            )
            &&& after.framing.buffer.len() == 0
            &&& !after.framing.dropping
            &&& after.pipeline.memories == Memories::<V>::empty()
            &&& after.pipeline.last_sequence == old(player).state().pipeline.last_sequence
            &&& after.last_reset == Some(ResetReason::EpochChanged)
            &&& after.filters_warming
        },
{
    let before = old(player).state();
    let chunks = old(player).chunks();
    let after = final(player).state();
    let (s, t) = (old(store)@, final(store)@);
    let (sought, between) = choose|sought: PlayerState<V>, between: StoreState<V>|
        {
            &&& #[trigger] seek_followed(before, chunks, None, s, sought, between)
            &&& if sought.index >= chunks.len() {
                step is Finished && after == sought && t == between
            } else {
                let chunk = chunks[sought.index as int];
                &&& epoch_entered(sought, epoch_of(chunk), between, after, t)
                &&& step == (ReplayStep::Wait {
                    nanoseconds: wait_before(sought.previous_session_ns, chunk.session_offset_ns),
                })
            }
        };
    assert(sought == before && between == s);
    let epoch = epoch_of(chunk);
    let (left, middle) = choose|left: PlayerState<V>, middle: StoreState<V>|
        {
            &&& #[trigger] epoch_left(sought, epoch, between, left, middle)
            &&& if sought.previous_epoch == Some(epoch) {
                after == left && t == middle
            } else {
                &&& after == left.within(epoch)
                &&& told_fields(middle, "replay.epochStart"@, epoch_data(epoch), t)
            }
        };
    if previous != epoch {
        let ended = choose|ended: StoreState<V>|
            {
                &&& #[trigger] told_fields(s, "replay.epochEnd"@, epoch_data(previous), ended)
                &&& told_fields(ended, "replay.streamGap"@, stream_gap_data(previous), middle)
            };
        lemma_told_is_on_its_way(s, "replay.epochEnd"@, epoch_data(previous), ended);
        lemma_told_is_on_its_way(ended, "replay.streamGap"@, stream_gap_data(previous), middle);
        lemma_told_is_on_its_way(middle, "replay.epochStart"@, epoch_data(epoch), t);
        let n = s.pending.len() as int;
        assert(middle.pending[n] == ended.pending[n]);
        assert(t.pending[n] == middle.pending[n]);
        assert(t.pending[n + 1] == middle.pending[n + 1]);
        let of_previous = epoch_data::<V>(previous);
        let of_gap = stream_gap_data::<V>(previous);
        let of_next = epoch_data::<V>(epoch);
        assert(of_previous[0] == ("sourceId"@, EventDatum::<V>::Id(previous.0)));
        assert(of_previous[1] == ("sourceEpoch"@, EventDatum::<V>::Unsigned(previous.1)));
        assert(of_gap[0] == ("sourceId"@, EventDatum::<V>::Id(previous.0)));
        assert(of_gap[1] == ("sourceEpoch"@, EventDatum::<V>::Unsigned(previous.1)));
        assert(of_gap[2] == ("reason"@, EventDatum::<V>::Text("EpochChanged"@)));
        assert(of_next[0] == ("sourceId"@, EventDatum::<V>::Id(epoch.0)));
        assert(of_next[1] == ("sourceEpoch"@, EventDatum::<V>::Unsigned(epoch.1)));
    } else {
        assert(left == before);
        assert(after =~= before);
    }
}

/// Where a place is sought and found, that is told, and then the connection that is played
/// there; everything received before is forgotten, and filters warm up again.
pub proof fn law_a_sought_place_is_told<V: Copy>(
    player: &mut ReplayPlayer<V>,
    store: &mut StateStore<V>,
    target: i64,
    step: ReplayStep,
)
    requires
        old(player).wf(),
        old(store).wf(),
        old(player).state().index < old(player).chunks().len(),
        target >= 0,
        call_ensures(ReplayPlayer::<V>::advance, (player, false, Some(target), store), step),
    ensures
        step is Wait ==> {
            let n = old(store)@.pending.len() as int;
            let told = final(store)@.pending;
            let after = final(player).state();
            let chunk = old(player).chunks()[after.index as int];
            &&& told.len() == n + 2
            &&& delivery_says(
                told[n],
                "replay.seeked"@,
                "sessionOffsetNs"@,
                EventDatum::Signed(target),
            )
            &&& delivery_says(told[n], "replay.seeked"@, "warming"@, EventDatum::Flag(true))
            &&& delivery_says(
                told[n + 1],
                "replay.epochStart"@,
                "sourceId"@,
                EventDatum::Id(chunk.source_id),
            )
            &&& delivery_says(
                told[n + 1],
                "replay.epochStart"@,
                "sourceEpoch"@,
                EventDatum::Unsigned(chunk.source_epoch),
            )
            &&& after.warming
            &&& after.filters_warming
            &&& after.framing.buffer.len() == 0
            &&& after.pipeline.memories == Memories::<V>::empty()
            &&& after.last_reset == Some(ResetReason::ReplaySeek)
            &&& after.previous_epoch == Some((chunk.source_id, chunk.source_epoch))
        },
        step is Finished ==> final(store)@ == old(store)@,
{
    let before = old(player).state();
    let chunks = old(player).chunks();
    let after = final(player).state();
    let (s, t) = (old(store)@, final(store)@);
    let (sought, between) = choose|sought: PlayerState<V>, between: StoreState<V>|
        {
            &&& #[trigger] seek_followed(before, chunks, Some(target), s, sought, between)
            &&& if sought.index >= chunks.len() {
                step is Finished && after == sought && t == between
            } else {
                let chunk = chunks[sought.index as int];
                &&& epoch_entered(sought, epoch_of(chunk), between, after, t)
                &&& step == (ReplayStep::Wait {
                    nanoseconds: wait_before(sought.previous_session_ns, chunk.session_offset_ns),
                })
            }
        };
    if step is Wait {
        let epoch = epoch_of(chunks[sought.index as int]);
        let (left, middle) = choose|left: PlayerState<V>, middle: StoreState<V>|
            {
                &&& #[trigger] epoch_left(sought, epoch, between, left, middle)
                &&& if sought.previous_epoch == Some(epoch) {
                    after == left && t == middle
                } else {
                    &&& after == left.within(epoch)
                    &&& told_fields(middle, "replay.epochStart"@, epoch_data(epoch), t)
                }
            };
        assert(middle == between);
        lemma_told_is_on_its_way(s, "replay.seeked"@, seeked_data(target), between);
        lemma_told_is_on_its_way(middle, "replay.epochStart"@, epoch_data(epoch), t);
        let n = s.pending.len() as int;
        assert(t.pending[n] == between.pending[n]);
        let of_seek = seeked_data::<V>(target);
        let of_next = epoch_data::<V>(epoch);
        assert(of_seek[0] == ("sessionOffsetNs"@, EventDatum::<V>::Signed(target)));
        assert(of_seek[1] == ("warming"@, EventDatum::<V>::Flag(true)));
        assert(of_next[0] == ("sourceId"@, EventDatum::<V>::Id(epoch.0)));
        assert(of_next[1] == ("sourceEpoch"@, EventDatum::<V>::Unsigned(epoch.1)));
    }
}

/// Playing a chunk moves on to the next one, at the time of the chunk. The first samples after
/// a place was sought are told, once; else nothing is.
pub proof fn law_the_first_samples_after_seeking_are_told<V: Copy, M: SampleMath<V>>(
    player: &mut ReplayPlayer<V>,
    math: &M,
    store: &mut StateStore<V>,
    played: Played<V>,
    chunk: ReplayChunk,
)
    requires
        old(player).wf(),
        old(store).wf(),
        old(player).state().index < old(player).chunks().len(),
        old(player).state().envelope_sequence <= u64::MAX - 3,
        chunk == old(player).chunks()[old(player).state().index as int],
        call_ensures(ReplayPlayer::<V>::play::<M>, (player, math, store), played),
    ensures
        final(player).state().index == old(player).state().index + 1,
        final(player).state().previous_session_ns == chunk.session_offset_ns,
        final(player).chunks() == old(player).chunks(),
        old(player).state().warming && played.output.samples@.len() > 0 ==> {
            &&& !final(player).state().warming
            &&& latest_says(
                final(store)@,
                "replay.warmed"@,
                "sessionOffsetNs"@,
                EventDatum::Signed(chunk.session_offset_ns),
            )
            &&& latest_says(final(store)@, "replay.warmed"@, "warming"@, EventDatum::Flag(false))
        },
        !old(player).state().warming || played.output.samples@.len() == 0 ==> {
            &&& final(player).state().warming == old(player).state().warming
            &&& final(store)@ == old(store)@
        },
{
    if old(player).state().warming && played.output.samples@.len() > 0 {
        let data = warmed_data::<V>(chunk.session_offset_ns);
        lemma_latest_says(old(store)@, "replay.warmed"@, data, final(store)@, 0);
        lemma_latest_says(old(store)@, "replay.warmed"@, data, final(store)@, 1);
    }
}

/// The end of playing is told, and whether it was stopped; before it the end of the connection
/// that was played last, if one was.
pub proof fn law_the_end_of_playing_is_told<V: Copy>(
    player: &ReplayPlayer<V>,
    stopped: bool,
    store: &mut StateStore<V>,
)
    requires
        old(store).wf(),
        call_ensures(ReplayPlayer::<V>::finish, (player, stopped, store), ()),
    ensures
        ({
            let n = old(store)@.pending.len() as int;
            let told = final(store)@.pending;
            &&& delivery_says(
                told.last(),
                "replay.completed"@,
                "stopped"@,
                EventDatum::Flag(stopped),
            )
            &&& player.state().previous_epoch is None ==> told.len() == n + 1
            &&& player.state().previous_epoch is Some ==> {
                let epoch = player.state().previous_epoch->Some_0;
                &&& told.len() == n + 2
                &&& delivery_says(
                    told[n],
                    "replay.epochEnd"@,
                    "sourceId"@,
                    EventDatum::Id(epoch.0),
                )
                &&& delivery_says(
                    told[n],
                    "replay.epochEnd"@,
                    "sourceEpoch"@,
                    EventDatum::Unsigned(epoch.1),
                )
            }
        }),
{
    let (s, t) = (old(store)@, final(store)@);
    let last = player.state().previous_epoch;
    let closing = seq![("stopped"@, EventDatum::<V>::Flag(stopped))];
    let between = choose|between: StoreState<V>|
        {
            &&& match last {
                Some(epoch) => told_fields(s, "replay.epochEnd"@, epoch_data(epoch), between),
                None => between == s,
            }
            &&& #[trigger] told_fields(
                between,
                "replay.completed"@,
                seq![("stopped"@, EventDatum::Flag(stopped))],
                t,
            )
        };
    lemma_told_is_on_its_way(between, "replay.completed"@, closing, t);
    assert(closing[0] == ("stopped"@, EventDatum::<V>::Flag(stopped)));
    if let Some(epoch) = last {
        lemma_told_is_on_its_way(s, "replay.epochEnd"@, epoch_data(epoch), between);
        let data = epoch_data::<V>(epoch);
        assert(data[0] == ("sourceId"@, EventDatum::<V>::Id(epoch.0)));
        assert(data[1] == ("sourceEpoch"@, EventDatum::<V>::Unsigned(epoch.1)));
        assert(t.pending[s.pending.len() as int] == between.pending[s.pending.len() as int]);
    }
}

/// A time can be sought while something plays, unless it lies before the beginning. It is then
/// handed to the player once, who does not wait any longer.
pub proof fn law_a_request_to_seek_is_handed_over<V: Copy>(
    asking: &mut ReplayControl,
    taking: &mut ReplayControl,
    store: &mut StateStore<V>,
    offset_ns: i64,
    result: ToolboxResult<()>,
    asked: &ReplayControl,
    interrupted: bool,
    seek: Option<i64>,
)
    requires
        old(store).wf(),
        call_ensures(
            ReplayControl::seek_replay::<V>,
            (asking, offset_ns, store),
            result,
        ),
        *asked == *final(asking),
        call_ensures(ReplayControl::is_interrupted, (asked,), interrupted),
        *old(taking) == *final(asking),
        call_ensures(ReplayControl::take_seek, (taking,), seek),
    ensures
        result is Ok <==> offset_ns >= 0 && old(asking).running,
        result is Err ==> *asked == *old(asking) && final(store)@ == old(store)@,
        result is Err && offset_ns < 0 ==> result->Err_0.message_key@ == "seek_offset_invalid"@,
        result is Err && offset_ns >= 0 ==> result->Err_0.message_key@ == "replay_not_running"@,
        result is Ok ==> {
            &&& interrupted
            &&& seek == Some(offset_ns)
            &&& asked.running
            &&& asked.stop_requested == old(asking).stop_requested
            &&& latest_says(
                final(store)@,
                "replay.seekRequested"@,
                "sessionOffsetNs"@,
                EventDatum::Signed(offset_ns),
            )
        },
        final(taking).seek_ns is None,
        final(taking).running == asked.running,
        interrupted <==> asked.stop_requested || asked.seek_ns is Some,
{
    if result is Ok {
        let data = seq![("sessionOffsetNs"@, EventDatum::<V>::Signed(offset_ns))];
        lemma_latest_says(old(store)@, "replay.seekRequested"@, data, final(store)@, 0);
    }
}

/// A chunk that is played goes out as the envelope of its bytes, under the next number; its
/// frames and its samples, where it has any, go out under the numbers after that, with the same
/// source, connection and time.
pub proof fn law_a_played_chunk_goes_out_in_its_envelope<V: Copy, M: SampleMath<V>>(
    player: &mut ReplayPlayer<V>,
    math: &M,
    store: &mut StateStore<V>,
    played: Played<V>,
    chunk: ReplayChunk,
    bytes: &[u8],
    payload: Vec<u8>,
    payload_bytes: &[u8],
    meta: EnvelopeMeta,
    envelope: Vec<u8>,
)
    requires
        old(player).wf(),
        old(store).wf(),
        old(player).state().index < old(player).chunks().len(),
        old(player).state().envelope_sequence <= u64::MAX - 3,
        chunk == old(player).chunks()[old(player).state().index as int],
        call_ensures(ReplayPlayer::<V>::play::<M>, (player, math, store), played),
        bytes@ == chunk.bytes@,
        call_ensures(encode_raw_payload, (chunk.direction, chunk.sequence, bytes), payload),
        payload_bytes@ == payload@,
        meta.payload_type == PayloadType::RawBatch,
        meta.payload_version == 1,
        meta.source_id == chunk.source_id,
        meta.source_epoch == chunk.source_epoch,
        meta.sequence == old(player).state().envelope_sequence + 1,
        meta.monotonic_offset_ns == chunk.monotonic_offset_ns,
        call_ensures(encode, (meta, payload_bytes), envelope),
    ensures
        played.raw@ == envelope@,
        played.packets is Some <==> played.output.frames@.len() > 0,
        played.samples is Some <==> played.output.samples@.len() > 0,
        played.packets is Some ==> {
            let packets = played.packets->Some_0;
            &&& packets.payload_type == PayloadType::PacketBatch
            &&& packets.sequence == meta.sequence + 1
            &&& packets.source_id == chunk.source_id
            &&& packets.source_epoch == chunk.source_epoch
            &&& packets.monotonic_offset_ns == chunk.monotonic_offset_ns
            &&& packets.payload_version == 1
        },
        played.samples is Some ==> {
            let samples = played.samples->Some_0;
            &&& samples.payload_type == PayloadType::SampleBatch
            &&& played.packets is Some ==> samples.sequence == meta.sequence + 2
            &&& played.packets is None ==> samples.sequence == meta.sequence + 1
            &&& samples.source_id == chunk.source_id
            &&& samples.source_epoch == chunk.source_epoch
            &&& samples.monotonic_offset_ns == chunk.monotonic_offset_ns
            &&& samples.payload_version == 1
        },
{
}

/// A chunk that is played gives the samples that it gave when it was recorded: those of its
/// frames, read by the rule of the project that was recorded with it.
pub proof fn law_a_played_chunk_gives_the_samples_of_its_frames<V: Copy, M: SampleMath<V>>(
    player: &mut ReplayPlayer<V>,
    math: &M,
    store: &mut StateStore<V>,
    played: Played<V>,
    chunk: ReplayChunk,
    recorded: RawChunk,
)
    requires
        old(player).wf(),
        old(store).wf(),
        old(player).state().index < old(player).chunks().len(),
        old(player).state().envelope_sequence <= u64::MAX - 3,
        chunk == old(player).chunks()[old(player).state().index as int],
        recorded == (RawChunk {
            source_id: chunk.source_id,
            source_epoch: chunk.source_epoch,
            sequence: chunk.sequence,
            monotonic_offset_ns: chunk.monotonic_offset_ns,
            direction: chunk.direction,
            bytes: chunk.bytes,
            gap_before: chunk.epoch_changed,
            tx_job_id: None,
        }),
        call_ensures(ReplayPlayer::<V>::play::<M>, (player, math, store), played),
    ensures
        chunk.epoch_changed ==> chunk_gave(
            math,
            old(player).project(),
            recorded,
            Memories::<V>::empty(),
            played.output,
            final(player).state().pipeline.memories,
        ),
        !chunk.epoch_changed ==> chunk_gave(
            math,
            old(player).project(),
            recorded,
            old(player).state().pipeline.memories,
            played.output,
            final(player).state().pipeline.memories,
        ),
{
    lemma_chunk_gave(
        math,
        old(player).project(),
        recorded,
        old(player).state().framing,
        old(player).state().pipeline,
        played.output,
        final(player).state().framing,
        final(player).state().pipeline,
    );
}

} // verus!
