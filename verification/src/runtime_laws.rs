//! What holds of a connection from its start to its end.

use crate::envelope::{encode_raw_payload, envelope_bytes, EnvelopeMeta, PayloadType};
use crate::error::ToolboxError;
use crate::event::{
    latest_says, lemma_latest_says, told_fields, EventDatum, StateStore, StoreState,
};
use crate::framer::{drained, FramerState};
use crate::ident::Uuid;
use crate::math::SampleMath;
use crate::model::{
    ClockAnchor, Direction, RawChunk, ResetReason, SampleView, SessionStatus, SourceSnapshot,
    SourceStats, SourceStatus, ToolboxProject,
};
use crate::pipeline::{next_sequence, PipelineOutput};
use crate::pipeline_laws::{chunk_gave, lemma_chunk_gave};
use crate::queue::{
    law_bytes_add_up, law_only_the_oldest_leave, lemma_total_push, total, ByteSize,
    OverflowPolicy, PopOutcome, QueueState,
};
use crate::runtime::{
    batches, carry, displaced_by, failure_told, has_room_for, just_connected, nothing_passed,
    parser_gap_data, sample_values, shows_chunk, values_of, with_message, with_messages, Fanout, FanoutReport, FanoutState, ParserWorker, RecorderBatch,
    RecorderItem, SourceRuntime, StreamMessage, StreamSequencer,
};
use crate::session::SessionManager;
use crate::transform::Memories;
use crate::tx::TxJob;
use std::sync::Arc;
use vstd::prelude::*;

verus! {

/// A connection with the worker that puts its messages on the wire.
pub struct Link {
    pub base: SourceSnapshot,
    pub ipc: QueueState<StreamMessage>,
    pub stopped: bool,
    pub sequencer: StreamSequencer,
}

/// What matters of a connection and of the worker that sends for it.
pub open spec fn link_of(runtime: SourceRuntime, sequencer: StreamSequencer) -> Link {
    Link { base: runtime.base, ipc: runtime.ipc@, stopped: runtime.stopped, sequencer }
}

/// What can happen to a connection.
pub enum LinkStep<V> {
    /// A chunk is shown in the terminal.
    Shown { chunk: RawChunk },
    /// A chunk was parsed, and its batches are sent.
    Parsed { output: PipelineOutput<V>, payloads: Seq<Vec<u8>>, monotonic_offset_ns: i64 },
    /// The oldest message goes out in an envelope.
    Sent { message: StreamMessage, bytes: Seq<u8> },
    /// Bytes come or go, or a recording starts or stops.
    Passed,
    /// Someone asks how the connection is doing.
    Asked { snapshot: SourceSnapshot },
    /// The connection fails.
    Failed,
    /// The connection is stopped.
    Stopped,
}

/// A snapshot of a connection.
pub open spec fn shows_link(snapshot: SourceSnapshot, link: Link) -> bool {
    snapshot == (SourceSnapshot {
        status: if link.stopped {
            SourceStatus::Faulted
        } else {
            SourceStatus::Connected
        },
        queue_depths: snapshot.queue_depths,
        stats: snapshot.stats,
        ..link.base
    })
}

/// What a step does to a connection.
pub open spec fn link_stepped<V>(before: Link, step: LinkStep<V>, after: Link) -> bool {
    match step {
        LinkStep::Shown { chunk } => exists|message: StreamMessage|
            {
                &&& #[trigger] shows_chunk(message, chunk)
                &&& after == (Link { ipc: with_message(before.ipc, message), ..before })
            },
        LinkStep::Parsed { output, payloads, monotonic_offset_ns } => exists|
            messages: Seq<StreamMessage>,
        |
            {
                &&& #[trigger] carry(messages, output, payloads, monotonic_offset_ns)
                &&& after == (Link { ipc: with_messages(before.ipc, messages), ..before })
            },
        LinkStep::Sent { message, bytes } => {
            let sequence = next_sequence(before.sequencer.last_sequence);
            &&& before.ipc.items.len() > 0
            &&& message == before.ipc.items[0]
            &&& bytes == envelope_bytes(
                EnvelopeMeta {
                    payload_type: message.payload_type,
                    payload_version: message.payload_version,
                    source_id: before.sequencer.source_id,
                    source_epoch: before.sequencer.source_epoch,
                    sequence,
                    monotonic_offset_ns: message.monotonic_offset_ns,
                },
                message.payload@,
            )
            &&& after == (Link {
                ipc: before.ipc.popped(),
                sequencer: StreamSequencer { last_sequence: sequence, ..before.sequencer },
                ..before
            })
        },
        LinkStep::Passed => after == before,
        LinkStep::Asked { snapshot } => shows_link(snapshot, before) && after == before,
        LinkStep::Failed => after == (Link { stopped: true, ..before }),
        LinkStep::Stopped => after == (Link {
            stopped: true,
            ipc: QueueState { closed: true, ..before.ipc },
            ..before
        }),
    }
}

/// A connection between steps that follow each other, from its start as `runtime` on.
pub open spec fn link_run<V>(
    project: ToolboxProject<V>,
    source_epoch: u64,
    transport: String,
    endpoint: String,
    clock_anchor: ClockAnchor,
    runtime: SourceRuntime,
    links: Seq<Link>,
    steps: Seq<LinkStep<V>>,
) -> bool {
    &&& links.len() == steps.len() + 1
    &&& just_connected(
        runtime.base,
        project,
        source_epoch,
        transport,
        endpoint,
        clock_anchor,
    )
    &&& nothing_passed(runtime, project.source.id, source_epoch)
    &&& links[0] == link_of(
        runtime,
        StreamSequencer { source_id: project.source.id, source_epoch, last_sequence: 0 },
    )
    &&& forall|i: int|
        #![trigger steps[i]]
        0 <= i < steps.len() ==> link_stepped(links[i], steps[i], links[i + 1])
}

/// How many envelopes went out.
pub open spec fn sent_count<V>(steps: Seq<LinkStep<V>>) -> nat
    decreases steps.len(),
{
    if steps.len() == 0 {
        0
    } else {
        sent_count(steps.drop_last()) + if steps.last() is Sent {
            1nat
        } else {
            0
        }
    }
}

/// Whether the connection has failed or was stopped.
pub open spec fn has_ended<V>(steps: Seq<LinkStep<V>>) -> bool {
    exists|i: int| 0 <= i < steps.len() && ((#[trigger] steps[i]) is Failed || steps[i] is Stopped)
}

/// All messages of a queue have the first version.
pub open spec fn all_first_version(messages: Seq<StreamMessage>) -> bool {
    forall|i: int| 0 <= i < messages.len() ==> (#[trigger] messages[i]).payload_version == 1
}

proof fn lemma_with_message(ipc: QueueState<StreamMessage>, message: StreamMessage)
    requires
        all_first_version(ipc.items),
        message.payload_version == 1,
    ensures
        all_first_version(with_message(ipc, message).items),
{
    if !ipc.refuses(message.size(), OverflowPolicy::DropOldest) {
        law_only_the_oldest_leave(ipc, message.size(), OverflowPolicy::DropOldest);
        let kept = ipc.kept(message.size(), OverflowPolicy::DropOldest);
        let gone = ipc.items.len() - kept.len();
        assert forall|i: int| 0 <= i < kept.len() implies (
        #[trigger] kept[i]).payload_version == 1 by {
            assert(kept[i] == ipc.items[i + gone]);
        }
    }
}

proof fn lemma_with_messages(ipc: QueueState<StreamMessage>, messages: Seq<StreamMessage>)
    requires
        all_first_version(ipc.items),
        all_first_version(messages),
    ensures
        all_first_version(with_messages(ipc, messages).items),
    decreases messages.len(),
{
    if messages.len() > 0 {
        assert forall|i: int| 0 <= i < messages.drop_last().len() implies (
        #[trigger] messages.drop_last()[i]).payload_version == 1 by {
            assert(messages.drop_last()[i] == messages[i]);
        }
        lemma_with_messages(ipc, messages.drop_last());
        assert(messages.last() == messages[messages.len() - 1]);
        lemma_with_message(with_messages(ipc, messages.drop_last()), messages.last());
    }
}

proof fn lemma_link<V>(
    project: ToolboxProject<V>,
    source_epoch: u64,
    transport: String,
    endpoint: String,
    clock_anchor: ClockAnchor,
    runtime: SourceRuntime,
    links: Seq<Link>,
    steps: Seq<LinkStep<V>>,
    count: int,
)
    requires
        link_run(project, source_epoch, transport, endpoint, clock_anchor, runtime, links, steps),
        0 <= count <= steps.len(),
        count <= u64::MAX,
    ensures
        links[count].base == links[0].base,
        links[count].stopped == has_ended(steps.take(count)),
        all_first_version(links[count].ipc.items),
        sent_count(steps.take(count)) <= count,
        links[count].sequencer == (StreamSequencer {
            source_id: project.source.id,
            source_epoch,
            last_sequence: sent_count(steps.take(count)) as u64,
        }),
    decreases count,
{
    let taken = steps.take(count);
    if count > 0 {
        lemma_link(
            project,
            source_epoch,
            transport,
            endpoint,
            clock_anchor,
            runtime,
            links,
            steps,
            count - 1,
        );
        let before = links[count - 1];
        let step = steps[count - 1];
        let earlier = steps.take(count - 1);
        assert(taken.drop_last() =~= earlier);
        assert(taken.last() == step);
        assert(link_stepped(before, step, links[count]));
        assert(has_ended(taken) == (has_ended(earlier) || step is Failed || step is Stopped)) by {
            if has_ended(earlier) {
                let i = choose|i: int|
                    0 <= i < earlier.len() && ((#[trigger] earlier[i]) is Failed
                        || earlier[i] is Stopped);
                assert(taken[i] == earlier[i]);
            }
            assert(taken[count - 1] == step);
            if has_ended(taken) {
                let i = choose|i: int|
                    0 <= i < taken.len() && ((#[trigger] taken[i]) is Failed
                        || taken[i] is Stopped);
                if i < count - 1 {
                    assert(earlier[i] == taken[i]);
                }
            }
        }
        match step {
            LinkStep::Shown { chunk } => {
                let message = choose|message: StreamMessage|
                    {
                        &&& #[trigger] shows_chunk(message, chunk)
                        &&& links[count] == (Link {
                            ipc: with_message(before.ipc, message),
                            ..before
                        })
                    };
                lemma_with_message(before.ipc, message);
            },
            LinkStep::Parsed { output, payloads, monotonic_offset_ns } => {
                let messages = choose|messages: Seq<StreamMessage>|
                    {
                        &&& #[trigger] carry(messages, output, payloads, monotonic_offset_ns)
                        &&& links[count] == (Link {
                            ipc: with_messages(before.ipc, messages),
                            ..before
                        })
                    };
                lemma_with_messages(before.ipc, messages);
            },
            LinkStep::Sent { .. } => {
                let rest = before.ipc.popped().items;
                assert forall|i: int| 0 <= i < rest.len() implies (
                #[trigger] rest[i]).payload_version == 1 by {
                    assert(rest[i] == before.ipc.items[i + 1]);
                }
            },
            _ => {},
        }
    }
}

/// All envelopes of a connection name its source and its epoch, have the first payload
/// version and are numbered from one in the order in which they go out, whatever they
/// carry.
pub proof fn law_envelopes_are_numbered<V>(
    project: ToolboxProject<V>,
    source_epoch: u64,
    transport: String,
    endpoint: String,
    clock_anchor: ClockAnchor,
    runtime: SourceRuntime,
    links: Seq<Link>,
    steps: Seq<LinkStep<V>>,
    i: int,
)
    requires
        link_run(project, source_epoch, transport, endpoint, clock_anchor, runtime, links, steps),
        0 <= i < steps.len() <= u64::MAX,
    ensures
        steps[i] matches LinkStep::Sent { message, bytes } ==> bytes == envelope_bytes(
            EnvelopeMeta {
                payload_type: message.payload_type,
                payload_version: 1,
                source_id: project.source.id,
                source_epoch,
                sequence: (1 + sent_count(steps.take(i))) as u64,
                monotonic_offset_ns: message.monotonic_offset_ns,
            },
            message.payload@,
        ),
{
    lemma_link(project, source_epoch, transport, endpoint, clock_anchor, runtime, links, steps, i);
    assert(link_stepped(links[i], steps[i], links[i + 1]));
}

/// From its start to its end a connection shows the same epoch, under an id of its own,
/// with the transport, the endpoint and the clock anchor it was opened with. It is
/// connected until it fails or is stopped, and faulted from then on.
pub proof fn law_a_connection_keeps_its_epoch<V>(
    project: ToolboxProject<V>,
    source_epoch: u64,
    transport: String,
    endpoint: String,
    clock_anchor: ClockAnchor,
    runtime: SourceRuntime,
    links: Seq<Link>,
    steps: Seq<LinkStep<V>>,
    i: int,
)
    requires
        link_run(project, source_epoch, transport, endpoint, clock_anchor, runtime, links, steps),
        0 <= i < steps.len() <= u64::MAX,
    ensures
        steps[i] matches LinkStep::Asked { snapshot } ==> {
            &&& snapshot.source_id == project.source.id
            &&& snapshot.name == project.source.name
            &&& snapshot.source_epoch == source_epoch
            &&& snapshot.epoch_id is Some
            &&& snapshot.epoch_id == runtime.base.epoch_id
            &&& snapshot.transport == transport
            &&& snapshot.endpoint == endpoint
            &&& snapshot.clock_anchor == Some(clock_anchor)
            &&& snapshot.status == if has_ended(steps.take(i)) {
                SourceStatus::Faulted
            } else {
                SourceStatus::Connected
            }
        },
{
    lemma_link(project, source_epoch, transport, endpoint, clock_anchor, runtime, links, steps, i);
    assert(link_stepped(links[i], steps[i], links[i + 1]));
}

/// A chunk that carries bytes of a source as they passed.
pub open spec fn carries_bytes(
    chunk: RawChunk,
    state: FanoutState,
    direction: Direction,
    bytes: Seq<u8>,
    tx_job_id: Option<Uuid>,
    offset_ns: i64,
) -> bool {
    &&& chunk.source_id == state.source_id
    &&& chunk.source_epoch == state.source_epoch
    &&& chunk.sequence == state.raw_sequence + 1
    &&& chunk.monotonic_offset_ns == offset_ns
    &&& chunk.direction == direction
    &&& chunk.bytes@ == bytes
    &&& chunk.tx_job_id == tx_job_id
    &&& !chunk.gap_before
}

/// Bytes that pass are handed as the next chunk to all who are to get them: the parser and
/// the terminal always, the recorder while it records. A recorder without room gets nothing
/// any more, and that is told. A parser or a terminal without room loses its oldest chunks;
/// the parser is told of a gap, and how much the terminal loses is counted. The bytes are
/// counted for their direction.
pub proof fn law_passing_bytes_reach_their_consumers(
    fanout: &mut Fanout,
    direction: Direction,
    bytes: Vec<u8>,
    tx_job_id: Option<Uuid>,
    offset_ns: i64,
    report: FanoutReport,
)
    requires
        old(fanout).wf(),
        has_room_for(old(fanout)@, bytes@.len()),
        0 < bytes@.len() <= 2_097_152,
        !old(fanout)@.parser.closed,
        !old(fanout)@.terminal.closed,
        call_ensures(
            Fanout::push,
            (fanout, direction, bytes, tx_job_id, offset_ns),
            report,
        ),
    ensures
        ({
            let before = old(fanout)@;
            let after = final(fanout)@;
            let len = bytes@.len();
            let chunk = after.parser.items.last();
            let parser_gone = before.parser.items.len() + 1 - after.parser.items.len();
            let terminal_gone = before.terminal.items.len() + 1 - after.terminal.items.len();
            let recorder_full = before.recorder.closed || total(before.recorder.items) + len
                > 16_777_216 || before.recorder.items.len() >= 4096;
            &&& carries_bytes(chunk, before, direction, bytes@, tx_job_id, offset_ns)
            &&& after.raw_sequence == chunk.sequence
            &&& 0 <= parser_gone <= before.parser.items.len()
            &&& after.parser.items == before.parser.items.skip(parser_gone).push(chunk)
            &&& after.terminal.items == before.terminal.items.skip(terminal_gone).push(chunk)
            &&& total(before.parser.items) + len <= 4_194_304 && before.parser.items.len()
                < 2048 ==> parser_gone == 0
            &&& total(before.terminal.items) + len <= 2_097_152 && before.terminal.items.len()
                < 1024 ==> terminal_gone == 0
            &&& after.gap_generation == before.gap_generation + if parser_gone > 0 {
                1int
            } else {
                0
            }
            &&& report.parser_dropped_bytes == if parser_gone > 0 {
                Some(total(before.parser.items.take(parser_gone)) as u64)
            } else {
                None
            }
            &&& after.stats.parser_gaps - before.stats.parser_gaps == after.gap_generation
                - before.gap_generation
            &&& after.stats.ui_dropped_bytes == before.stats.ui_dropped_bytes + total(
                before.terminal.items.take(terminal_gone),
            )
            &&& after.accepting == (before.accepting && !recorder_full)
            &&& report.recording_failed is Some <==> before.accepting && recorder_full
            &&& after.recorder.items == if after.accepting {
                before.recorder.items.push(RecorderItem::Chunk(chunk))
            } else {
                before.recorder.items
            }
            &&& after.stats.rx_bytes == before.stats.rx_bytes + if direction == Direction::Rx {
                len as int
            } else {
                0
            }
            &&& after.stats.tx_bytes == before.stats.tx_bytes + if direction == Direction::Tx {
                len as int
            } else {
                0
            }
            &&& after.stats.parsed_frames == before.stats.parsed_frames
            &&& after.stats.checksum_failures == before.stats.checksum_failures
        }),
{
    let before = old(fanout)@;
    let after = final(fanout)@;
    old(fanout).lemma_limits();
    let chunk = after.parser.items.last();
    lemma_push_gone(before.parser, chunk, OverflowPolicy::ClearToLowWater);
    lemma_push_gone(before.terminal, chunk, OverflowPolicy::DropOldest);
}

/// What an accepted item displaces are the oldest items, and none where it fits.
proof fn lemma_push_gone(state: QueueState<RawChunk>, chunk: RawChunk, policy: OverflowPolicy)
    requires
        !state.refuses(chunk.size(), policy),
    ensures
        ({
            let kept = state.kept(chunk.size(), policy);
            let gone = state.items.len() - kept.len();
            &&& 0 <= gone
            &&& kept == state.items.skip(gone)
            &&& total(state.items.take(gone)) <= total(state.items)
            &&& state.displaced(chunk.size(), policy) == (
                gone as nat,
                total(state.items.take(gone)),
            )
            &&& total(state.items) + chunk.size() <= state.max_bytes && state.items.len()
                < state.max_items ==> gone == 0
        }),
{
    let kept = state.kept(chunk.size(), policy);
    let gone = state.items.len() - kept.len();
    law_only_the_oldest_leave(state, chunk.size(), policy);
    assert(kept =~= state.items.skip(gone));
    assert(state.items.take(gone) + state.items.skip(gone) =~= state.items);
    law_bytes_add_up(state.items.take(gone), state.items.skip(gone), chunk);
}

/// A batch for the recorder takes chunks and barriers in the order in which they come. It is
/// full at sixty-four kibibytes, or when a tenth of a second is over.
pub proof fn law_a_batch_collects_in_order(
    batch: &mut RecorderBatch,
    item: RecorderItem,
    elapsed_ns: u64,
    more: bool,
)
    requires
        old(batch).wf(),
        old(batch).bytes + item.size() <= usize::MAX,
        call_ensures(RecorderBatch::take, (batch, item), ()),
        call_ensures(RecorderBatch::wants_more, (&*final(batch), elapsed_ns), more),
    ensures
        match item {
            RecorderItem::Chunk(chunk) => {
                &&& final(batch).chunks@ == old(batch).chunks@.push(chunk)
                &&& final(batch).barriers@ == old(batch).barriers@
                &&& chunk.bytes@.len() > 0 ==> final(batch).bytes == old(batch).bytes
                    + chunk.bytes@.len()
            },
            RecorderItem::Barrier(ticket) => {
                &&& final(batch).chunks@ == old(batch).chunks@
                &&& final(batch).barriers@ == old(batch).barriers@.push(ticket)
                &&& final(batch).bytes == old(batch).bytes
            },
        },
        more <==> final(batch).bytes < 65_536 && elapsed_ns < 100_000_000,
{
    let items = final(batch).taken@;
    assert(items.drop_last() =~= old(batch).taken@);
    if let RecorderItem::Chunk(chunk) = item {
        lemma_total_push(old(batch).chunks@, chunk);
    }
}

/// Of what came of a chunk the samples go out first, then the frames, then what went wrong:
/// each as one batch, and only if there is any.
pub proof fn law_only_what_there_is_goes_out<V>(output: &PipelineOutput<V>, types: Vec<PayloadType>)
    requires
        call_ensures(batches::<V>, (output,), types),
    ensures
        types@.contains(PayloadType::SampleBatch) <==> output.samples@.len() > 0,
        types@.contains(PayloadType::PacketBatch) <==> output.frames@.len() > 0,
        types@.contains(PayloadType::DiagnosticBatch) <==> output.oversize_frames + output.resyncs
            + output.checksum_failures + output.parse_failures > 0,
        !types@.contains(PayloadType::RawBatch),
        forall|i: int, j: int|
            0 <= i < j < types@.len() ==> batch_place(#[trigger] types@[i]) < batch_place(
                #[trigger] types@[j],
            ),
{
    let samples = output.samples@.len() > 0;
    let frames = output.frames@.len() > 0;
    let list = types@;
    if samples {
        assert(list[0] == PayloadType::SampleBatch);
    }
    if frames {
        assert(list[if samples {
            1
        } else {
            0
        }] == PayloadType::PacketBatch);
    }
    if output.oversize_frames + output.resyncs + output.checksum_failures + output.parse_failures
        > 0 {
        assert(list.last() == PayloadType::DiagnosticBatch);
        assert(list[list.len() - 1] == PayloadType::DiagnosticBatch);
    }
}

/// The place of a batch among those of a chunk.
pub open spec fn batch_place(payload_type: PayloadType) -> int {
    match payload_type {
        PayloadType::RawBatch => 0,
        PayloadType::SampleBatch => 1,
        PayloadType::PacketBatch => 2,
        PayloadType::DiagnosticBatch => 3,
    }
}

/// Samples give their channels their values, one by one.
pub proof fn law_samples_give_values<V: Copy>(
    samples: &Vec<SampleView<V>>,
    values: Vec<(Uuid, V)>,
)
    requires
        call_ensures(sample_values::<V>, (samples,), values),
    ensures
        values@.len() == samples@.len(),
        forall|i: int|
            0 <= i < samples@.len() ==> (#[trigger] values@[i]).0 == samples@[i].channel_id
                && values@[i].1 == samples@[i].value,
{
}

/// The envelopes that leave one connection follow each other: the second has the number after
/// that of the first, and both name the source and the connection.
pub proof fn law_envelopes_follow_each_other(
    first: &mut StreamSequencer,
    second: &mut StreamSequencer,
    messages: (&StreamMessage, &StreamMessage),
    bytes: (Vec<u8>, Vec<u8>),
)
    requires
        old(first).last_sequence < u64::MAX - 1,
        call_ensures(StreamSequencer::envelope, (first, messages.0), bytes.0),
        *old(second) == *final(first),
        call_ensures(StreamSequencer::envelope, (second, messages.1), bytes.1),
    ensures
        bytes.0@ == envelope_bytes(
            EnvelopeMeta {
                payload_type: messages.0.payload_type,
                payload_version: messages.0.payload_version,
                source_id: old(first).source_id,
                source_epoch: old(first).source_epoch,
                sequence: (old(first).last_sequence + 1) as u64,
                monotonic_offset_ns: messages.0.monotonic_offset_ns,
            },
            messages.0.payload@,
        ),
        bytes.1@ == envelope_bytes(
            EnvelopeMeta {
                payload_type: messages.1.payload_type,
                payload_version: messages.1.payload_version,
                source_id: old(first).source_id,
                source_epoch: old(first).source_epoch,
                sequence: (old(first).last_sequence + 2) as u64,
                monotonic_offset_ns: messages.1.monotonic_offset_ns,
            },
            messages.1.payload@,
        ),
{
}

/// A parser notices that chunks were lost since its last one: what it had begun is forgotten,
/// so that the new chunk is read as after a new start.
pub proof fn law_a_parser_starts_over_after_a_gap<V: Copy, M: SampleMath<V>>(
    worker: &mut ParserWorker<V>,
    chunk: RawChunk,
    current_gap: u64,
    math: &M,
    output: PipelineOutput<V>,
)
    requires
        old(worker).wf(),
        call_ensures(
            ParserWorker::<V>::parse::<M>,
            (worker, chunk, current_gap, math),
            output,
        ),
    ensures
        final(worker).seen_gap() == current_gap,
        final(worker).project() == old(worker).project(),
        ({
            let lost = chunk.gap_before || current_gap != old(worker).seen_gap();
            let framing = if lost {
                FramerState::fresh()
            } else {
                old(worker).framing()
            };
            let result = drained(old(worker).project().framer@, framing.receive(chunk.bytes@));
            &&& final(worker).framing() == result.rest
            &&& output.oversize_frames == result.oversize
            &&& output.resyncs == result.resyncs
            &&& lost ==> final(worker).last_reset() == Some(ResetReason::StreamGap)
            &&& !lost ==> final(worker).last_reset() == old(worker).last_reset()
        }),
{
}

/// What is written to a device is handed out to all consumers as bytes that went, under the
/// number of its job: as many bytes of the payload as the device took.
pub proof fn law_written_bytes_are_handed_out<V: Copy>(
    runtime: &mut SourceRuntime,
    job: &TxJob,
    result: Result<usize, String>,
    offset_ns: i64,
    now_ns: u64,
    session: &mut SessionManager,
    state: &mut StateStore<V>,
)
    requires
        old(runtime).wf(),
        old(state).wf(),
        result is Ok ==> result->Ok_0 <= job.request.payload@.len(),
        has_room_for(old(runtime).fanout@, job.request.payload@.len()),
        job.request.payload@.len() <= 1_048_576,
        !old(runtime).fanout@.parser.closed,
        call_ensures(
            SourceRuntime::finish_write::<V>,
            (runtime, job, result, offset_ns, now_ns, session, state),
            (),
        ),
    ensures
        result is Err || result->Ok_0 == 0 ==> final(runtime).fanout@ == old(runtime).fanout@,
        result is Ok && result->Ok_0 > 0 ==> carries_bytes(
            final(runtime).fanout@.parser.items.last(),
            old(runtime).fanout@,
            Direction::Tx,
            job.request.payload@.take(result->Ok_0 as int),
            Some(job.id),
            offset_ns,
        ) && final(runtime).fanout@.stats.tx_bytes == old(runtime).fanout@.stats.tx_bytes
            + result->Ok_0 && final(runtime).fanout@.stats.rx_bytes == old(
            runtime,
        ).fanout@.stats.rx_bytes,
        final(runtime).tx@.last_sent_ns == if result is Ok && result->Ok_0
            == job.request.payload@.len() {
            Some(now_ns)
        } else {
            old(runtime).tx@.last_sent_ns
        },
        final(runtime).ipc@ == old(runtime).ipc@,
        final(runtime).stopped == old(runtime).stopped,
{
    old(runtime).fanout.lemma_limits();
}

/// Each consumer takes its items in the order in which they were handed to it, and takes
/// nothing from the others. One who waits is told to go on waiting as long as something may
/// still come.
pub proof fn law_consumers_take_their_items_in_order(
    recorder: &mut Fanout,
    parser: &mut Fanout,
    terminal: &mut Fanout,
    expired: bool,
    recorded: PopOutcome<RecorderItem>,
    parsed: PopOutcome<RawChunk>,
    shown: PopOutcome<RawChunk>,
)
    requires
        old(recorder).wf(),
        call_ensures(Fanout::take_recorder, (recorder, expired), recorded),
        *old(parser) == *final(recorder),
        call_ensures(Fanout::take_parser, (parser, expired), parsed),
        *old(terminal) == *final(parser),
        call_ensures(Fanout::take_terminal, (terminal, expired), shown),
    ensures
        ({
            let before = old(recorder)@;
            let after = final(terminal)@;
            &&& before.recorder.items.len() > 0 ==> {
                &&& recorded == PopOutcome::Item(before.recorder.items[0])
                &&& after.recorder.items == before.recorder.items.skip(1)
            }
            &&& before.parser.items.len() > 0 ==> {
                &&& parsed == PopOutcome::Item(before.parser.items[0])
                &&& after.parser.items == before.parser.items.skip(1)
            }
            &&& before.terminal.items.len() > 0 ==> {
                &&& shown == PopOutcome::Item(before.terminal.items[0])
                &&& after.terminal.items == before.terminal.items.skip(1)
            }
            &&& before.recorder.items.len() == 0 ==> {
                &&& recorded is Ended <==> before.recorder.closed || expired
                &&& recorded is Wait <==> !before.recorder.closed && !expired
                &&& after.recorder.items.len() == 0
            }
            &&& before.parser.items.len() == 0 ==> {
                &&& parsed is Ended <==> before.parser.closed || expired
                &&& parsed is Wait <==> !before.parser.closed && !expired
                &&& after.parser.items.len() == 0
            }
            &&& before.terminal.items.len() == 0 ==> {
                &&& shown is Ended <==> before.terminal.closed || expired
                &&& shown is Wait <==> !before.terminal.closed && !expired
                &&& after.terminal.items.len() == 0
            }
            &&& after.stats == before.stats
            &&& after.accepting == before.accepting
            &&& after.raw_sequence == before.raw_sequence
            &&& after.gap_generation == before.gap_generation
        }),
{
    let before = old(recorder)@;
    if before.recorder.items.len() > 0 {
        assert(before.recorder.items.drop_first() =~= before.recorder.items.skip(1));
    }
    if before.parser.items.len() > 0 {
        assert(before.parser.items.drop_first() =~= before.parser.items.skip(1));
    }
    if before.terminal.items.len() > 0 {
        assert(before.terminal.items.drop_first() =~= before.terminal.items.skip(1));
    }
}

/// What bytes did to their consumers is told: a recording that could not keep up has failed,
/// and what the parser has lost is named. Where nothing was lost, nothing is told.
pub proof fn law_what_was_lost_is_told<V: Copy>(
    report: &FanoutReport,
    session: &mut SessionManager,
    state: &mut StateStore<V>,
    quiet: bool,
)
    requires
        old(state).wf(),
        call_ensures(FanoutReport::publish::<V>, (report, session, state), ()),
        call_ensures(FanoutReport::is_quiet, (report,), quiet),
    ensures
        quiet <==> report.recording_failed is None && report.parser_dropped_bytes is None,
        quiet ==> final(state)@ == old(state)@ && final(session).current == old(session).current,
        report.parser_dropped_bytes is Some ==> {
            &&& latest_says(
                final(state)@,
                "diagnostic.parserGap"@,
                "sourceId"@,
                EventDatum::Id(report.source_id),
            )
            &&& latest_says(
                final(state)@,
                "diagnostic.parserGap"@,
                "droppedBytes"@,
                EventDatum::Unsigned(report.parser_dropped_bytes->Some_0),
            )
        },
        report.recording_failed is None ==> final(session).current == old(session).current,
        report.recording_failed is Some && (old(session).current.status == SessionStatus::Recording
            || old(session).current.status == SessionStatus::Suspended || old(session).current.status == SessionStatus::Finalizing) ==> {
            &&& final(session).current.status == SessionStatus::Failed
            &&& final(session).current.message is Some
            &&& final(session).current.message->Some_0@ == report.recording_failed->Some_0.code@
            &&& final(state)@.errors.last()@ == report.recording_failed->Some_0@
        },
{
    let between = choose|between: StoreState<V>|
        {
            &&& #[trigger] failure_told(
                *report,
                old(session).current,
                old(state)@,
                final(session).current,
                between,
            )
            &&& match report.parser_dropped_bytes {
                Some(bytes) => told_fields(
                    between,
                    "diagnostic.parserGap"@,
                    parser_gap_data(report.source_id, bytes),
                    final(state)@,
                ),
                None => final(state)@ == between,
            }
        };
    assert(failure_told(
        *report,
        old(session).current,
        old(state)@,
        final(session).current,
        between,
    ));
    if let Some(bytes) = report.parser_dropped_bytes {
        let data = parser_gap_data::<V>(report.source_id, bytes);
        lemma_latest_says(between, "diagnostic.parserGap"@, data, final(state)@, 0);
        lemma_latest_says(between, "diagnostic.parserGap"@, data, final(state)@, 1);
    }
}

/// Messages that all have room stand behind those that wait, in order.
proof fn lemma_messages_with_room(
    ipc: QueueState<StreamMessage>,
    messages: Seq<StreamMessage>,
)
    requires
        !ipc.closed,
        total(ipc.items) + total(messages) <= ipc.max_bytes,
        ipc.items.len() + messages.len() <= ipc.max_items,
    ensures
        with_messages(ipc, messages).items == ipc.items + messages,
        with_messages(ipc, messages).closed == ipc.closed,
        with_messages(ipc, messages).max_bytes == ipc.max_bytes,
        with_messages(ipc, messages).max_items == ipc.max_items,
    decreases messages.len(),
{
    if messages.len() == 0 {
        assert(ipc.items + messages =~= ipc.items);
    } else {
        let head = messages.drop_last();
        let last = messages.last();
        assert(head.push(last) =~= messages);
        lemma_total_push(head, last);
        lemma_messages_with_room(ipc, head);
        law_bytes_add_up(ipc.items, head, last);
        assert((ipc.items + head).push(last) =~= ipc.items + messages);
    }
}

/// What came of a chunk is counted, and its samples are the latest values. Its batches go out
/// in order, each with its payload and the time of the chunk, behind what waits, where there is
/// room for all.
pub proof fn law_what_was_parsed_goes_out<V: Copy>(
    runtime: &mut SourceRuntime,
    output: &PipelineOutput<V>,
    types: Vec<PayloadType>,
    payloads: &Vec<Vec<u8>>,
    offset_ns: i64,
    state: &mut StateStore<V>,
    sizes: nat,
    i: int,
)
    requires
        old(runtime).wf(),
        old(state).wf(),
        call_ensures(batches::<V>, (output,), types),
        payloads@.len() == types@.len(),
        forall|j: int| 0 <= j < payloads@.len() ==> (#[trigger] payloads@[j])@.len() <= sizes,
        old(runtime).fanout@.stats.parsed_frames + output.frames@.len() <= u64::MAX,
        old(runtime).fanout@.stats.checksum_failures + output.checksum_failures <= u64::MAX,
        !old(runtime).ipc@.closed,
        total(old(runtime).ipc@.items) + types@.len() * (sizes + 1) <= old(runtime).ipc@.max_bytes,
        old(runtime).ipc@.items.len() + types@.len() <= old(runtime).ipc@.max_items,
        call_ensures(
            SourceRuntime::publish_parsed::<V>,
            (runtime, output, payloads, offset_ns, state),
            (),
        ),
        0 <= i < types@.len(),
    ensures
        ({
            let before = old(runtime).ipc@.items;
            let after = final(runtime).ipc@.items;
            &&& after.len() == before.len() + types@.len()
            &&& after.take(before.len() as int) == before
            &&& after[before.len() + i].payload_type == types@[i]
            &&& after[before.len() + i].payload@ == payloads@[i]@
            &&& after[before.len() + i].monotonic_offset_ns == offset_ns
            &&& after[before.len() + i].payload_version == 1
        }),
        final(runtime).fanout@.stats.parsed_frames == old(runtime).fanout@.stats.parsed_frames
            + output.frames@.len(),
        final(runtime).fanout@.stats.checksum_failures
            == old(runtime).fanout@.stats.checksum_failures + output.checksum_failures,
        final(runtime).fanout@.stats.rx_bytes == old(runtime).fanout@.stats.rx_bytes,
        final(runtime).fanout@.parser == old(runtime).fanout@.parser,
        output.samples@.len() > 0 ==> {
            let sample = output.samples@.last();
            &&& final(state)@.latest.dom().contains(sample.channel_id)
            &&& final(state)@.latest[sample.channel_id] == sample.value
        },
        output.samples@.len() == 0 ==> final(state)@ == old(state)@,
{
    let ipc = old(runtime).ipc@;
    let messages = choose|messages: Seq<StreamMessage>|
        {
            &&& #[trigger] carry(messages, *output, payloads@, offset_ns)
            &&& final(runtime).ipc@ == with_messages(ipc, messages)
        };
    assert(carry(messages, *output, payloads@, offset_ns));
    assert forall|j: int| 0 <= j < messages.len() implies (#[trigger] messages[j]).size() <= sizes
        + 1 by {
        assert(messages[j].payload@ == payloads@[j]@);
    }
    lemma_total_bound(messages, sizes + 1);
    lemma_messages_with_room(ipc, messages);
    assert(final(runtime).ipc@.items.take(ipc.items.len() as int) =~= ipc.items);
    assert(final(runtime).ipc@.items[ipc.items.len() + i] == messages[i]);
    let values = values_of(output.samples@);
    if output.samples@.len() > 0 {
        assert(values.last() == (output.samples@.last().channel_id, output.samples@.last().value));
    } else {
        assert(values =~= Seq::<(Uuid, V)>::empty());
        assert(final(state)@ =~= old(state)@);
    }
}

proof fn lemma_total_bound(messages: Seq<StreamMessage>, bound: nat)
    requires
        forall|j: int| 0 <= j < messages.len() ==> (#[trigger] messages[j]).size() <= bound,
    ensures
        total(messages) <= messages.len() * bound,
    decreases messages.len(),
{
    if messages.len() > 0 {
        let head = messages.drop_last();
        assert forall|j: int| 0 <= j < head.len() implies (#[trigger] head[j]).size() <= bound by {
            assert(head[j] == messages[j]);
        }
        lemma_total_bound(head, bound);
        assert(head.push(messages.last()) =~= messages);
        lemma_total_push(head, messages.last());
        assert(messages[messages.len() - 1].size() <= bound);
        assert(messages.len() * bound == head.len() * bound + bound) by (nonlinear_arith)
            requires
                messages.len() == head.len() + 1,
        ;
    } else {
        assert(total(messages) == 0);
    }
}

/// A chunk is shown in the terminal as its direction, its number and its bytes, at its time.
/// Where there is no room, the oldest messages give way, and are counted.
pub proof fn law_a_chunk_is_shown(
    runtime: &mut SourceRuntime,
    chunk: &RawChunk,
    bytes: &[u8],
    payload: Vec<u8>,
)
    requires
        old(runtime).wf(),
        old(runtime).fanout@.stats.ui_dropped_batches + old(runtime).ipc@.items.len() <= u64::MAX,
        bytes@ == chunk.bytes@,
        call_ensures(encode_raw_payload, (chunk.direction, chunk.sequence, bytes), payload),
        !old(runtime).ipc@.closed,
        0 < payload@.len() <= old(runtime).ipc@.max_bytes,
        call_ensures(SourceRuntime::show, (runtime, chunk), ()),
    ensures
        ({
            let before = old(runtime).ipc@;
            let after = final(runtime).ipc@.items;
            let gone = before.items.len() + 1 - after.len();
            &&& 0 <= gone <= before.items.len()
            &&& after.drop_last() == before.items.skip(gone)
            &&& after.last().payload@ == payload@
            &&& after.last().payload_type == PayloadType::RawBatch
            &&& after.last().payload_version == 1
            &&& after.last().monotonic_offset_ns == chunk.monotonic_offset_ns
            &&& total(before.items) + payload@.len() <= before.max_bytes && before.items.len()
                < before.max_items ==> gone == 0
            &&& final(runtime).fanout@.stats.ui_dropped_batches
                == old(runtime).fanout@.stats.ui_dropped_batches + gone
            &&& final(runtime).fanout@.stats.ui_dropped_bytes
                == old(runtime).fanout@.stats.ui_dropped_bytes
        }),
        final(runtime).tx == old(runtime).tx,
{
    let ipc = old(runtime).ipc@;
    let message = choose|message: StreamMessage|
        {
            &&& #[trigger] shows_chunk(message, *chunk)
            &&& final(runtime).ipc@ == with_message(ipc, message)
            &&& final(runtime).fanout@ == (FanoutState {
                stats: SourceStats {
                    ui_dropped_batches: (old(runtime).fanout@.stats.ui_dropped_batches
                        + displaced_by(ipc, message)) as u64,
                    ..old(runtime).fanout@.stats
                },
                ..old(runtime).fanout@
            })
        };
    assert(shows_chunk(message, *chunk));
    assert(message.payload@ == payload@);
    assert(message.size() == payload@.len());
    assert(!ipc.refuses(message.size(), OverflowPolicy::DropOldest));
    law_only_the_oldest_leave(ipc, message.size(), OverflowPolicy::DropOldest);
    let kept = ipc.kept(message.size(), OverflowPolicy::DropOldest);
    let gone = ipc.items.len() - kept.len();
    assert(final(runtime).ipc@.items == kept.push(message));
    assert(final(runtime).ipc@.items.drop_last() =~= kept);
    assert(kept =~= ipc.items.skip(gone));
}

/// A connection begins with nothing counted and nothing waiting, and with room for sixteen
/// mebibytes of recording, four to be parsed, two to be shown, four on their way to the user
/// interface and one to be sent. Nothing is recorded yet.
pub proof fn law_a_connection_begins_empty<V>(
    project: &ToolboxProject<V>,
    source_epoch: u64,
    transport: String,
    endpoint: String,
    clock_anchor: ClockAnchor,
    runtime: SourceRuntime,
)
    requires
        call_ensures(
            SourceRuntime::start::<V>,
            (project, source_epoch, transport, endpoint, clock_anchor),
            runtime,
        ),
    ensures
        runtime.base.source_id == project.source.id,
        runtime.base.name == project.source.name,
        runtime.base.source_epoch == source_epoch,
        runtime.base.transport == transport,
        runtime.base.endpoint == endpoint,
        runtime.base.clock_anchor == Some(clock_anchor),
        runtime.base.epoch_id is Some,
        !runtime.stopped,
        !runtime.fanout@.accepting,
        runtime.fanout@.raw_sequence == 0,
        runtime.fanout@.gap_generation == 0,
        runtime.fanout@.stats.rx_bytes == 0,
        runtime.fanout@.stats.tx_bytes == 0,
        runtime.fanout@.stats.parsed_frames == 0,
        runtime.fanout@.stats.checksum_failures == 0,
        runtime.fanout@.stats.parser_gaps == 0,
        runtime.fanout@.stats.ui_dropped_bytes == 0,
        runtime.fanout@.stats.ui_dropped_batches == 0,
        runtime.fanout@.recorder.items.len() == 0,
        runtime.fanout@.parser.items.len() == 0,
        runtime.fanout@.terminal.items.len() == 0,
        runtime.ipc@.items.len() == 0,
        runtime.tx@.queue.items.len() == 0,
        runtime.fanout@.recorder.max_bytes == 16 * 1024 * 1024,
        runtime.fanout@.recorder.max_items == 4096,
        runtime.fanout@.parser.max_bytes == 4 * 1024 * 1024,
        runtime.fanout@.parser.max_items == 2048,
        runtime.fanout@.terminal.max_bytes == 2 * 1024 * 1024,
        runtime.fanout@.terminal.max_items == 1024,
        runtime.ipc@.max_bytes == 4 * 1024 * 1024,
        runtime.ipc@.max_items == 256,
        runtime.tx@.queue.max_bytes == 1024 * 1024,
        runtime.tx@.queue.max_items == 1024,
        !runtime.fanout@.recorder.closed,
        !runtime.fanout@.parser.closed,
        !runtime.fanout@.terminal.closed,
        !runtime.ipc@.closed,
        !runtime.tx@.queue.closed,
        !runtime.tx@.stopping,
        runtime.tx@.last_sent_ns is None,
        runtime.tx@.current is None,
        runtime.tx@.cancelled == Set::<Uuid>::empty(),
{
}

/// A connection that fails is over, and sends nothing more, but what has come can still be
/// worked off. That it has failed is told with the error, and the source is shown so.
pub proof fn law_a_failed_connection_is_told<V: Copy>(
    failing: &mut SourceRuntime,
    failed: &SourceRuntime,
    error: ToolboxError,
    state: &mut StateStore<V>,
)
    requires
        old(failing).wf(),
        old(state).wf(),
        call_ensures(SourceRuntime::fault, (failing,), ()),
        *failed == *final(failing),
        call_ensures(SourceRuntime::tell_fault::<V>, (failed, error, state), ()),
    ensures
        failed.stopped,
        failed.tx@.stopping,
        failed.tx@.queue == old(failing).tx@.queue,
        failed.fanout == old(failing).fanout,
        failed.ipc == old(failing).ipc,
        failed.base == old(failing).base,
        final(state)@.errors.last()@ == error@,
        final(state)@.recent.last().event_type@ == "source.faulted"@,
        final(state)@.sources.dom().contains(failed.base.source_id),
        final(state)@.sources[failed.base.source_id].status == SourceStatus::Faulted,
        final(state)@.sources[failed.base.source_id].source_epoch == failed.base.source_epoch,
        final(state)@.sources[failed.base.source_id].endpoint == failed.base.endpoint,
        final(state)@.session == old(state)@.session,
{
}

/// A barrier goes behind everything that waits for the recorder, where there is room for it.
pub proof fn law_a_barrier_goes_behind_what_waits(
    fanout: &mut Fanout,
    ticket: u64,
    queued: bool,
)
    requires
        old(fanout).wf(),
        call_ensures(Fanout::push_barrier, (fanout, ticket), queued),
    ensures
        queued <==> !old(fanout)@.recorder.closed && total(old(fanout)@.recorder.items) + 1
            <= 16_777_216 && old(fanout)@.recorder.items.len() < 4096,
        queued ==> final(fanout)@.recorder.items == old(fanout)@.recorder.items.push(
            RecorderItem::Barrier(ticket),
        ),
        !queued ==> final(fanout)@.recorder == old(fanout)@.recorder,
        final(fanout)@.parser == old(fanout)@.parser,
        final(fanout)@.stats == old(fanout)@.stats,
{
    old(fanout).lemma_limits();
}

/// Nothing passes where there are no bytes. What is larger than a consumer could ever hold, or
/// comes after it was closed, passes it by without displacing anything.
pub proof fn law_what_no_consumer_can_hold_passes_by(
    fanout: &mut Fanout,
    direction: Direction,
    bytes: Vec<u8>,
    tx_job_id: Option<Uuid>,
    offset_ns: i64,
    report: FanoutReport,
)
    requires
        old(fanout).wf(),
        has_room_for(old(fanout)@, bytes@.len()),
        call_ensures(
            Fanout::push,
            (fanout, direction, bytes, tx_job_id, offset_ns),
            report,
        ),
    ensures
        report.source_id == old(fanout)@.source_id,
        bytes@.len() == 0 ==> {
            &&& final(fanout)@ == old(fanout)@
            &&& report.recording_failed is None
            &&& report.parser_dropped_bytes is None
        },
        bytes@.len() > 2_097_152 || old(fanout)@.terminal.closed ==> final(fanout)@.terminal
            == old(fanout)@.terminal,
        bytes@.len() > 4_194_304 || old(fanout)@.parser.closed ==> {
            &&& final(fanout)@.parser == old(fanout)@.parser
            &&& final(fanout)@.gap_generation == old(fanout)@.gap_generation
            &&& report.parser_dropped_bytes is None
        },
        bytes@.len() > 16_777_216 && old(fanout)@.accepting ==> {
            &&& final(fanout)@.recorder == old(fanout)@.recorder
            &&& !final(fanout)@.accepting
            &&& report.recording_failed is Some
            &&& report.recording_failed->Some_0.message_key@ == "recording_queue_full"@
            &&& report.recording_failed->Some_0.source_id == Some(old(fanout)@.source_id)
        },
        !old(fanout)@.accepting ==> {
            &&& final(fanout)@.recorder == old(fanout)@.recorder
            &&& report.recording_failed is None
        },
        bytes@.len() > 0 ==> final(fanout)@.raw_sequence == old(fanout)@.raw_sequence + 1,
{
    old(fanout).lemma_limits();
}

/// A parser begins with nothing kept, knowing of all gaps until then, and forgets everything at
/// its end but how many frames it has numbered. Envelopes are numbered from one, and a batch
/// for the recorder begins empty.
pub proof fn law_workers_begin_with_nothing<V: Copy>(
    project: Arc<ToolboxProject<V>>,
    current_gap: u64,
    worker: ParserWorker<V>,
    ending: &mut ParserWorker<V>,
    source_id: Uuid,
    source_epoch: u64,
    created: StreamSequencer,
    sequencer: &mut StreamSequencer,
    message: &StreamMessage,
    bytes: Vec<u8>,
    batch: RecorderBatch,
)
    requires
        call_ensures(ParserWorker::<V>::new, (project, current_gap), Ok(worker)),
        old(ending).wf(),
        call_ensures(ParserWorker::<V>::finish, (ending,), ()),
        call_ensures(StreamSequencer::new, (source_id, source_epoch), created),
        *old(sequencer) == created,
        call_ensures(StreamSequencer::envelope, (sequencer, message), bytes),
        call_ensures(RecorderBatch::new, (), batch),
    ensures
        worker.seen_gap() == current_gap,
        worker.framing().buffer.len() == 0,
        worker.state().last_sequence == 0,
        !worker.warming(),
        final(ending).framing().buffer.len() == 0,
        !final(ending).framing().dropping,
        final(ending).state().memories == Memories::<V>::empty(),
        final(ending).state().last_sequence == old(ending).state().last_sequence,
        final(ending).last_reset() == Some(ResetReason::Disconnect),
        !final(ending).warming(),
        bytes@ == envelope_bytes(
            EnvelopeMeta {
                payload_type: message.payload_type,
                payload_version: message.payload_version,
                source_id,
                source_epoch,
                sequence: 1,
                monotonic_offset_ns: message.monotonic_offset_ns,
            },
            message.payload@,
        ),
        batch.chunks@.len() == 0,
        batch.barriers@.len() == 0,
        batch.bytes == 0,
{
}

/// A parser gives the samples of the frames of each chunk, and remembers what transforms need
/// for the next one, unless chunks were lost in between.
pub proof fn law_a_parser_gives_the_samples_of_its_frames<V: Copy, M: SampleMath<V>>(
    worker: &mut ParserWorker<V>,
    chunk: RawChunk,
    current_gap: u64,
    math: &M,
    output: PipelineOutput<V>,
    seen: RawChunk,
)
    requires
        old(worker).wf(),
        call_ensures(
            ParserWorker::<V>::parse::<M>,
            (worker, chunk, current_gap, math),
            output,
        ),
        seen == (RawChunk {
            gap_before: chunk.gap_before || current_gap != old(worker).seen_gap(),
            ..chunk
        }),
    ensures
        seen.gap_before ==> chunk_gave(
            math,
            old(worker).project(),
            seen,
            Memories::<V>::empty(),
            output,
            final(worker).state().memories,
        ),
        !seen.gap_before ==> chunk_gave(
            math,
            old(worker).project(),
            seen,
            old(worker).state().memories,
            output,
            final(worker).state().memories,
        ),
{
    lemma_chunk_gave(
        math,
        old(worker).project(),
        seen,
        old(worker).framing(),
        old(worker).state(),
        output,
        final(worker).framing(),
        final(worker).state(),
    );
}

} // verus!
