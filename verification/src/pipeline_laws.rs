//! What holds of a pipeline over any run of calls.

use crate::checksum::validate_checksum;
use crate::error::{
    code_text, failure, ContextData, ErrorCode, ErrorData, ToolboxResult,
};
use crate::framer::{drained, frame_bytes, Framer, FramerOutput, FramerState};
use crate::framer_laws::{field_number, lemma_field_value};
use crate::ident::Uuid;
use crate::idmap::IdMap;
use crate::json::{json_document, json_entries, number_at};
use crate::math::{
    evaluates, finiteness, parses, stands_for, Operation, RawNumber, SampleMath,
};
use crate::model::{
    ByteOrder, ChannelSource, ChannelSpec, DecoderSpec, FieldSpec, FieldType, RawChunk,
    ResetReason, SampleView, ToolboxProject,
};
use crate::numeral::{
    big_endian, lemma_span_values, lemma_unsigned_bound, little_endian, unsigned,
};
use crate::pipeline::{
    any_fed, any_valid, channel_reads, channel_sampled, channels_read, checksum_error, chunk_processed, csv_cells,
    decode_field, decode_fields, field_decoded, field_fits, field_missing, fields_decoded,
    frame_data, frame_processed, frame_readable, frames_processed, invalid_frames, is_fed,
    law_every_frame_is_accounted_for, next_sequence, numbered, output_data, raw_field,
    read_binary_channels, read_csv_channels, read_into, read_json_channels, sample_channels,
    sampled, with_frame, FrameContent, FrameData, FrameFate, FramesOutcome, Pipeline,
    PipelineOutput, PipelineState,
};
use crate::text::{law_separators_part_a_text, split_on, trim};
use crate::transform::{transformed, Memories, TransformEngine};
use std::sync::Arc;
use vstd::prelude::*;
use vstd::utf8::{decode_utf8, valid_utf8};

verus! {

/// A frame says whether it is valid and why not, carries nothing if it is not, and is
/// marked as its chunk is.
pub open spec fn frame_sound<V>(frame: FrameData<V>, chunk: RawChunk) -> bool {
    &&& frame.valid <==> frame.error_code is None
    &&& !frame.valid ==> frame.fields == Map::<Uuid, V>::empty()
    &&& frame.direction == chunk.direction
    &&& frame.monotonic_offset_ns == chunk.monotonic_offset_ns
}

/// A sample comes from one of these frames, and that one is valid.
pub open spec fn has_valid_origin<V>(sample: SampleView<V>, frames: Seq<FrameData<V>>) -> bool {
    exists|i: int|
        {
            &&& 0 <= i < frames.len()
            &&& (#[trigger] frames[i]).valid
            &&& frames[i].sequence == sample.frame_sequence
        }
}

/// The frames and samples of a chunk fit together: all frames are sound, their numbers
/// run on from the last one before them, no sample belongs to a frame that is not valid,
/// and as many failures are counted as there are such frames.
pub open spec fn frames_sound<V>(
    frames: Seq<FrameData<V>>,
    samples: Seq<SampleView<V>>,
    failures: nat,
    chunk: RawChunk,
    last_sequence: nat,
) -> bool {
    &&& forall|i: int|
        0 <= i < frames.len() ==> {
            &&& frame_sound(#[trigger] frames[i], chunk)
            &&& frames[i].sequence == last_sequence + 1 + i
        }
    &&& forall|i: int, j: int|
        0 <= i < frames.len() && 0 <= j < samples.len() && !frames[i].valid ==> (
        #[trigger] samples[j]).frame_sequence != (#[trigger] frames[i]).sequence
    &&& failures == invalid_frames(frames)
}

/// All samples of a frame carry its number.
proof fn lemma_samples_are_numbered<V, M: SampleMath<V>>(
    math: &M,
    source_id: Uuid,
    time_ns: i64,
    frame_sequence: u64,
    channels: Seq<ChannelSpec<V>>,
    raw: Map<Uuid, V>,
    memories: Memories<V>,
    samples: Seq<SampleView<V>>,
    after: Memories<V>,
)
    requires
        sampled(
            math,
            source_id,
            time_ns,
            frame_sequence,
            channels,
            raw,
            memories,
            samples,
            after,
        ),
    ensures
        forall|j: int|
            0 <= j < samples.len() ==> (#[trigger] samples[j]).frame_sequence == frame_sequence,
    decreases channels.len(),
{
    if channels.len() > 0 {
        let (before, held) = choose|before: Seq<SampleView<V>>, held: Memories<V>|
            {
                &&& sampled(
                    math,
                    source_id,
                    time_ns,
                    frame_sequence,
                    channels.drop_last(),
                    raw,
                    memories,
                    before,
                    held,
                )
                &&& #[trigger] channel_sampled(
                    math,
                    source_id,
                    time_ns,
                    frame_sequence,
                    channels.last(),
                    raw,
                    held,
                    before,
                    samples,
                    after,
                )
            };
        lemma_samples_are_numbered(
            math,
            source_id,
            time_ns,
            frame_sequence,
            channels.drop_last(),
            raw,
            memories,
            before,
            held,
        );
    }
}

proof fn lemma_frame<V, M: SampleMath<V>>(
    math: &M,
    project: ToolboxProject<V>,
    chunk: RawChunk,
    bytes: Seq<u8>,
    sequence: u64,
    memories: Memories<V>,
    fate: FrameFate,
    frame: FrameData<V>,
    samples: Seq<SampleView<V>>,
    after: Memories<V>,
)
    requires
        frame_processed(
            math,
            project,
            chunk,
            bytes,
            sequence,
            memories,
            fate,
            frame,
            samples,
            after,
        ),
    ensures
        frame_sound(frame, chunk),
        samples.len() > 0 ==> frame.valid,
        forall|j: int|
            0 <= j < samples.len() ==> (#[trigger] samples[j]).frame_sequence == frame.sequence,
{
    if fate is Decoded {
        let (content, raw) = choose|content: FrameContent<V>, raw: Map<Uuid, V>|
            {
                &&& #[trigger] frame_readable(
                    math,
                    *project.decoder,
                    bytes,
                    content,
                    frame.fields,
                )
                &&& #[trigger] channels_read(
                    math,
                    content,
                    project.channels@,
                    raw,
                )
                &&& sampled(
                    math,
                    chunk.source_id,
                    chunk.monotonic_offset_ns,
                    sequence,
                    project.channels@,
                    raw,
                    memories,
                    samples,
                    after,
                )
            };
        lemma_samples_are_numbered(
            math,
            chunk.source_id,
            chunk.monotonic_offset_ns,
            sequence,
            project.channels@,
            raw,
            memories,
            samples,
            after,
        );
    }
}

proof fn lemma_frames<V, M: SampleMath<V>>(
    math: &M,
    project: ToolboxProject<V>,
    chunk: RawChunk,
    frames: Seq<Seq<u8>>,
    state: PipelineState<V>,
    outcome: FramesOutcome<V>,
    after: PipelineState<V>,
)
    requires
        frames_processed(math, project, chunk, frames, state, outcome, after),
    ensures
        forall|i: int|
            0 <= i < outcome.frames.len() ==> frame_sound(#[trigger] outcome.frames[i], chunk),
        forall|j: int|
            0 <= j < outcome.samples.len() ==> has_valid_origin(
                #[trigger] outcome.samples[j],
                outcome.frames,
            ),
    decreases frames.len(),
{
    if frames.len() > 0 {
        let (before, held, fate, frame, samples) = choose|
            before: FramesOutcome<V>,
            held: PipelineState<V>,
            fate: FrameFate,
            frame: FrameData<V>,
            samples: Seq<SampleView<V>>,
        |
            {
                &&& frames_processed(
                    math,
                    project,
                    chunk,
                    frames.drop_last(),
                    state,
                    before,
                    held,
                )
                &&& #[trigger] frame_processed(
                    math,
                    project,
                    chunk,
                    frames.last(),
                    next_sequence(held.last_sequence),
                    held.memories,
                    fate,
                    frame,
                    samples,
                    after.memories,
                )
                &&& after.last_sequence == next_sequence(held.last_sequence)
                &&& outcome == #[trigger] with_frame(before, fate, frame, samples)
            };
        lemma_frames(math, project, chunk, frames.drop_last(), state, before, held);
        lemma_frame(
            math,
            project,
            chunk,
            frames.last(),
            next_sequence(held.last_sequence),
            held.memories,
            fate,
            frame,
            samples,
            after.memories,
        );
        let count = before.frames.len() as int;
        assert forall|i: int| 0 <= i < outcome.frames.len() implies frame_sound(
            #[trigger] outcome.frames[i],
            chunk,
        ) by {
            if i < count {
                assert(outcome.frames[i] == before.frames[i]);
            }
        }
        assert forall|j: int| 0 <= j < outcome.samples.len() implies has_valid_origin(
            #[trigger] outcome.samples[j],
            outcome.frames,
        ) by {
            if j < before.samples.len() {
                assert(outcome.samples[j] == before.samples[j]);
                let i = choose|i: int|
                    {
                        &&& 0 <= i < before.frames.len()
                        &&& (#[trigger] before.frames[i]).valid
                        &&& before.frames[i].sequence == before.samples[j].frame_sequence
                    };
                assert(outcome.frames[i] == before.frames[i]);
            } else {
                assert(outcome.samples[j] == samples[j - before.samples.len()]);
                assert(outcome.frames[count] == frame);
            }
        }
    }
}

/// Consecutive numbers, as long as they do not run out.
proof fn lemma_numbered(last_sequence: u64, count: nat)
    requires
        last_sequence + count <= u64::MAX,
    ensures
        numbered(last_sequence, count) == last_sequence + count,
    decreases count,
{
    if count > 0 {
        lemma_numbered(last_sequence, (count - 1) as nat);
    }
}

/// What comes of one chunk fits together, as long as the frame numbers do not run out.
pub proof fn law_a_chunk_is_accounted_for<V, M: SampleMath<V>>(
    math: &M,
    project: ToolboxProject<V>,
    chunk: RawChunk,
    framing: FramerState,
    state: PipelineState<V>,
    output: PipelineOutput<V>,
    framing_after: FramerState,
    after: PipelineState<V>,
)
    requires
        chunk_processed(math, project, chunk, framing, state, output, framing_after, after),
        state.last_sequence + output.frames@.len() <= u64::MAX,
    ensures
        frames_sound(
            frame_data(output.frames@),
            output.samples@,
            (output.checksum_failures + output.parse_failures) as nat,
            chunk,
            state.last_sequence as nat,
        ),
        after.last_sequence == state.last_sequence + output.frames@.len(),
{
    let kept = if chunk.gap_before {
        FramerState::fresh()
    } else {
        framing
    };
    let start = if chunk.gap_before {
        PipelineState { memories: Memories::<V>::empty(), ..state }
    } else {
        state
    };
    let frames = drained(project.framer@, kept.receive(chunk.bytes@)).frames;
    let outcome = output_data(output);
    law_every_frame_is_accounted_for(math, project, chunk, frames, start, outcome, after);
    lemma_frames(math, project, chunk, frames, start, outcome, after);
    let shown = outcome.frames;
    assert forall|i: int| 0 <= i < shown.len() implies (#[trigger] shown[i]).sequence
        == state.last_sequence + 1 + i by {
        lemma_numbered(state.last_sequence, (i + 1) as nat);
    }
    lemma_numbered(state.last_sequence, frames.len());
    assert forall|i: int, j: int|
        0 <= i < shown.len() && 0 <= j < outcome.samples.len() && !shown[i].valid implies (
    #[trigger] outcome.samples[j]).frame_sequence != (#[trigger] shown[i]).sequence by {
        let k = choose|k: int|
            {
                &&& 0 <= k < shown.len()
                &&& (#[trigger] shown[k]).valid
                &&& shown[k].sequence == outcome.samples[j].frame_sequence
            };
    }
}

/// A call that a pipeline was given, with what it returned.
pub enum PipelineCall<V> {
    Process { chunk: RawChunk, output: PipelineOutput<V> },
    Reset,
}

/// What a call does to what a pipeline keeps.
pub open spec fn pipeline_called<V, M: SampleMath<V>>(
    math: &M,
    project: ToolboxProject<V>,
    before: (FramerState, PipelineState<V>),
    call: PipelineCall<V>,
    after: (FramerState, PipelineState<V>),
) -> bool {
    match call {
        PipelineCall::Process { chunk, output } => chunk_processed(
            math,
            project,
            chunk,
            before.0,
            before.1,
            output,
            after.0,
            after.1,
        ),
        PipelineCall::Reset => {
            &&& after.0 == FramerState::fresh()
            &&& after.1 == (PipelineState { memories: Memories::<V>::empty(), ..before.1 })
        },
    }
}

/// What a pipeline keeps between calls that were made one after the other.
pub open spec fn pipeline_run<V, M: SampleMath<V>>(
    math: &M,
    project: ToolboxProject<V>,
    states: Seq<(FramerState, PipelineState<V>)>,
    calls: Seq<PipelineCall<V>>,
) -> bool {
    &&& states.len() == calls.len() + 1
    &&& forall|i: int|
        #![trigger calls[i]]
        0 <= i < calls.len() ==> pipeline_called(math, project, states[i], calls[i], states[i + 1])
}

/// How many frames calls have given.
pub open spec fn frames_given<V>(calls: Seq<PipelineCall<V>>) -> nat
    decreases calls.len(),
{
    if calls.len() == 0 {
        0
    } else {
        frames_given(calls.drop_last()) + match calls.last() {
            PipelineCall::Process { output, .. } => output.frames@.len(),
            PipelineCall::Reset => 0,
        }
    }
}

/// Over any run of calls the frame numbers go on from one, and a reset does not start
/// them again.
proof fn lemma_numbers_go_on<V, M: SampleMath<V>>(
    math: &M,
    project: ToolboxProject<V>,
    states: Seq<(FramerState, PipelineState<V>)>,
    calls: Seq<PipelineCall<V>>,
    count: int,
)
    requires
        pipeline_run(math, project, states, calls),
        states[0].1.last_sequence == 0,
        0 <= count <= calls.len(),
        frames_given(calls) <= u64::MAX,
    ensures
        frames_given(calls.take(count)) <= frames_given(calls),
        states[count].1.last_sequence == frames_given(calls.take(count)),
    decreases count,
{
    lemma_given_grows(calls, count);
    if count > 0 {
        lemma_numbers_go_on(math, project, states, calls, count - 1);
        let call = calls[count - 1];
        assert(calls.take(count).drop_last() =~= calls.take(count - 1));
        assert(pipeline_called(math, project, states[count - 1], call, states[count]));
        if let PipelineCall::Process { chunk, output } = call {
            law_a_chunk_is_accounted_for(
                math,
                project,
                chunk,
                states[count - 1].0,
                states[count - 1].1,
                output,
                states[count].0,
                states[count].1,
            );
        }
    }
}

proof fn lemma_given_grows<V>(calls: Seq<PipelineCall<V>>, count: int)
    requires
        0 <= count <= calls.len(),
    ensures
        frames_given(calls.take(count)) <= frames_given(calls),
    decreases calls.len(),
{
    if count < calls.len() {
        lemma_given_grows(calls.drop_last(), count);
        assert(calls.drop_last().take(count) =~= calls.take(count));
    } else {
        assert(calls.take(count) =~= calls);
    }
}

/// Over any run of calls of a new pipeline, what each chunk gives fits together: frames
/// are valid exactly if they have no error code; a frame that is not valid has no fields
/// and no samples and is counted as one failure; frames are marked as their chunk is; and
/// their numbers go on from one over all calls, whatever is reset in between.
pub proof fn law_all_frames_are_accounted_for<V, M: SampleMath<V>>(
    math: &M,
    project: ToolboxProject<V>,
    states: Seq<(FramerState, PipelineState<V>)>,
    calls: Seq<PipelineCall<V>>,
    i: int,
)
    requires
        pipeline_run(math, project, states, calls),
        states[0].1.last_sequence == 0,
        frames_given(calls) <= u64::MAX,
        0 <= i < calls.len(),
    ensures
        calls[i] matches PipelineCall::Process { chunk, output } ==> frames_sound(
            frame_data(output.frames@),
            output.samples@,
            (output.checksum_failures + output.parse_failures) as nat,
            chunk,
            frames_given(calls.take(i)),
        ),
{
    lemma_numbers_go_on(math, project, states, calls, i);
    lemma_given_grows(calls, i + 1);
    assert(calls.take(i + 1).drop_last() =~= calls.take(i));
    assert(pipeline_called(math, project, states[i], calls[i], states[i + 1]));
    if let PipelineCall::Process { chunk, output } = calls[i] {
        law_a_chunk_is_accounted_for(
            math,
            project,
            chunk,
            states[i].0,
            states[i].1,
            output,
            states[i + 1].0,
            states[i + 1].1,
        );
    }
}

/// The number in a field of a frame, its bytes weighed one by one in a byte order.
pub open spec fn weighed(bytes: Seq<u8>, at: int, width: int, order: ByteOrder) -> int {
    if width <= 4 {
        field_number(bytes, at, width, order)
    } else {
        match order {
            ByteOrder::Big => field_number(bytes, at, 4, order) * 0x1_0000_0000 + field_number(
                bytes,
                at + 4,
                4,
                order,
            ),
            ByteOrder::Little => field_number(bytes, at, 4, order) + field_number(
                bytes,
                at + 4,
                4,
                order,
            ) * 0x1_0000_0000,
        }
    }
}

/// A field spells the number that its bytes weigh.
pub proof fn lemma_weighed(bytes: Seq<u8>, at: int, width: int, order: ByteOrder)
    requires
        width == 1 || width == 2 || width == 4 || width == 8,
        0 <= at,
        at + width <= bytes.len(),
    ensures
        unsigned(bytes.subrange(at, at + width), order) == weighed(bytes, at, width, order),
{
    if width <= 4 {
        lemma_field_value(bytes, at, width, order);
    } else {
        let field = bytes.subrange(at, at + width);
        reveal_with_fuel(little_endian, 9);
        reveal_with_fuel(big_endian, 9);
        assert(forall|i: int| 0 <= i < width ==> #[trigger] field[i] == bytes[at + i]);
    }
}

/// How many bytes a field of a type has.
pub open spec fn bytes_of_type(field_type: FieldType) -> int {
    match field_type {
        FieldType::U8 | FieldType::I8 => 1,
        FieldType::U16 | FieldType::I16 => 2,
        FieldType::U32 | FieldType::I32 | FieldType::F32 => 4,
        FieldType::F64 => 8,
    }
}

/// `raw` is the number that bytes of this weight are in a type: as it is for unsigned types
/// and the bits of fractions, and less twice the weight of the first bit for signed ones.
pub open spec fn is_number_of(raw: RawNumber, weight: int, field_type: FieldType) -> bool {
    match field_type {
        FieldType::U8 | FieldType::U16 | FieldType::U32 => raw matches RawNumber::Unsigned(value)
            && value == weight,
        FieldType::I8 => raw matches RawNumber::Signed(value) && -0x80 <= value < 0x80 && (value
            == weight || value == weight - 0x100),
        FieldType::I16 => raw matches RawNumber::Signed(value) && -0x8000 <= value < 0x8000 && (
        value == weight || value == weight - 0x1_0000),
        FieldType::I32 => raw matches RawNumber::Signed(value) && -0x8000_0000 <= value
            < 0x8000_0000 && (value == weight || value == weight - 0x1_0000_0000),
        FieldType::F32 => raw matches RawNumber::Float32(bits) && bits == weight,
        FieldType::F64 => raw matches RawNumber::Float64(bits) && bits == weight,
    }
}

/// A field of a frame is decoded exactly if it lies inside the frame. Its value is the number
/// that its bytes make up in the configured type and byte order, scaled and shifted.
pub proof fn law_a_field_is_read_where_it_lies<V: Copy, M: SampleMath<V>>(
    bytes: &[u8],
    spec: &FieldSpec<V>,
    math: &M,
    result: ToolboxResult<V>,
)
    requires
        call_ensures(decode_field::<V, M>, (bytes, spec, math), result),
    ensures
        result is Ok <==> spec.offset + bytes_of_type(spec.field_type) <= bytes@.len(),
        result matches Ok(value) ==> exists|raw: RawNumber, plain: V|
            {
                &&& is_number_of(
                    raw,
                    weighed(
                        bytes@,
                        spec.offset as int,
                        bytes_of_type(spec.field_type),
                        spec.byte_order,
                    ),
                    spec.field_type,
                )
                &&& #[trigger] stands_for(math, raw, plain)
                &&& evaluates(
                    math,
                    Operation::ScaleBias { value: plain, scale: spec.scale, bias: spec.bias },
                    value,
                )
            },
{
    if let Ok(value) = result {
        let width = bytes_of_type(spec.field_type);
        let raw = raw_field(bytes@, spec.offset as nat, spec.field_type, spec.byte_order);
        lemma_weighed(bytes@, spec.offset as int, width, spec.byte_order);
        lemma_span_values();
        lemma_unsigned_bound(
            bytes@.subrange(spec.offset as int, spec.offset as int + width),
            spec.byte_order,
        );
        let plain = choose|plain: V|
            {
                &&& #[trigger] stands_for(math, raw, plain)
                &&& evaluates(
                    math,
                    Operation::ScaleBias { value: plain, scale: spec.scale, bias: spec.bias },
                    value,
                )
            };
        assert(stands_for(math, raw, plain));
    }
}

/// Cells with delimiters between them.
pub open spec fn joined_cells(cells: Seq<Seq<char>>, delimiter: char) -> Seq<char>
    decreases cells.len(),
{
    if cells.len() == 0 {
        Seq::empty()
    } else if cells.len() == 1 {
        cells[0]
    } else {
        cells[0].push(delimiter) + joined_cells(cells.drop_first(), delimiter)
    }
}

proof fn lemma_joined_cells(cells: Seq<Seq<char>>, delimiter: char)
    requires
        cells.len() > 0,
        forall|i: int| 0 <= i < cells.len() ==> !(#[trigger] cells[i]).contains(delimiter),
    ensures
        split_on(joined_cells(cells, delimiter), delimiter) == cells,
    decreases cells.len(),
{
    if cells.len() == 1 {
        law_separators_part_a_text(cells[0], Seq::empty(), delimiter);
        assert(seq![cells[0]] =~= cells);
    } else {
        let rest = cells.drop_first();
        assert forall|i: int| 0 <= i < rest.len() implies !(#[trigger] rest[i]).contains(
            delimiter,
        ) by {
            assert(rest[i] == cells[i + 1]);
        }
        lemma_joined_cells(rest, delimiter);
        law_separators_part_a_text(cells[0], joined_cells(rest, delimiter), delimiter);
        assert(seq![cells[0]] + rest =~= cells);
    }
}

/// A channel of a line of cells reads the cell of its number, counted from zero, without the
/// white space around it; a cell that the line does not have is an error.
pub proof fn law_a_channel_reads_its_cell<V: Copy, M: SampleMath<V>>(
    math: &M,
    decoder: DecoderSpec<V>,
    bytes: Seq<u8>,
    cells: Seq<Seq<char>>,
    content: FrameContent<V>,
    fields: Map<Uuid, V>,
    index: usize,
    outcome: Option<Result<V, ErrorData>>,
)
    requires
        frame_readable(math, decoder, bytes, content, fields),
        decoder is Csv,
        cells.len() > 0,
        forall|i: int| 0 <= i < cells.len() ==> !(#[trigger] cells[i]).contains(decoder->delimiter),
        decode_utf8(bytes) == joined_cells(cells, decoder->delimiter),
        channel_reads(math, content, ChannelSource::CsvIndex { index }, outcome),
    ensures
        index < cells.len() ==> exists|text: String, parsed: Result<V, String>|
            {
                &&& #[trigger] parses(math, text, parsed)
                &&& text@ == trim(cells[index as int])
                &&& match parsed {
                    Ok(value) => outcome == Some(Ok::<V, ErrorData>(value)),
                    Err(_) => outcome matches Some(Err(_)),
                }
            },
        index >= cells.len() ==> outcome matches Some(Err(_)),
{
    lemma_joined_cells(cells, decoder->delimiter);
    if index < cells.len() {
        let trimmed_cells = content->Csv_0;
        assert(trimmed_cells[index as int] == trim(cells[index as int]));
        let (text, parsed) = choose|text: String, parsed: Result<V, String>|
            {
                &&& #[trigger] parses(math, text, parsed)
                &&& text@ == trimmed_cells[index as int]
                &&& outcome == Some(
                    match parsed {
                        Ok(value) => Ok(value),
                        Err(message) => Err(
                            failure(
                                ErrorCode::ParseFailed,
                                "pipeline.csv"@,
                                "csv_number_invalid"@,
                            ).because(message@),
                        ),
                    },
                )
            };
        assert(parses(math, text, parsed));
    }
}

/// What a channel made of a value that was read for it, if it was an ordinary number.
pub open spec fn channel_result<V, M: SampleMath<V>>(
    math: &M,
    source_id: Uuid,
    time_ns: i64,
    channel: ChannelSpec<V>,
    raw: Map<Uuid, V>,
    before: Memories<V>,
    result: Option<V>,
    after: Memories<V>,
) -> bool {
    if raw.dom().contains(channel.id) {
        exists|value: V|
            {
                &&& #[trigger] transformed(
                    math,
                    source_id,
                    channel.id,
                    channel.transforms@,
                    time_ns,
                    raw[channel.id],
                    before,
                    value,
                    after,
                )
                &&& finiteness(math, value, result is Some)
                &&& result is Some ==> result == Some(value)
            }
    } else {
        result is None && after == before
    }
}

/// The samples of channels that have results, in the order of the channels.
pub open spec fn samples_of<V>(
    channels: Seq<ChannelSpec<V>>,
    results: Seq<Option<V>>,
    time_ns: i64,
    frame_sequence: u64,
) -> Seq<SampleView<V>>
    decreases results.len(),
{
    if results.len() == 0 || channels.len() < results.len() {
        Seq::empty()
    } else {
        let before = samples_of(channels, results.drop_last(), time_ns, frame_sequence);
        match results.last() {
            Some(value) => before.push(
                SampleView {
                    channel_id: channels[results.len() - 1].id,
                    value,
                    monotonic_offset_ns: time_ns,
                    frame_sequence,
                },
            ),
            None => before,
        }
    }
}

/// Each channel has its result.
pub open spec fn all_results<V, M: SampleMath<V>>(
    math: &M,
    source_id: Uuid,
    time_ns: i64,
    channels: Seq<ChannelSpec<V>>,
    raw: Map<Uuid, V>,
    memories: Seq<Memories<V>>,
    results: Seq<Option<V>>,
) -> bool {
    &&& results.len() == channels.len()
    &&& memories.len() == channels.len() + 1
    &&& forall|i: int|
        #![trigger results[i]]
        0 <= i < channels.len() ==> channel_result(
            math,
            source_id,
            time_ns,
            channels[i],
            raw,
            memories[i],
            results[i],
            memories[i + 1],
        )
}

proof fn lemma_samples_prefix<V>(
    left: Seq<ChannelSpec<V>>,
    right: Seq<ChannelSpec<V>>,
    results: Seq<Option<V>>,
    time_ns: i64,
    frame_sequence: u64,
)
    requires
        results.len() <= left.len(),
        results.len() <= right.len(),
        forall|i: int| 0 <= i < results.len() ==> #[trigger] left[i] == right[i],
    ensures
        samples_of(left, results, time_ns, frame_sequence) == samples_of(
            right,
            results,
            time_ns,
            frame_sequence,
        ),
    decreases results.len(),
{
    if results.len() > 0 {
        lemma_samples_prefix(left, right, results.drop_last(), time_ns, frame_sequence);
        assert(left[results.len() - 1] == right[results.len() - 1]);
    }
}

proof fn lemma_all_results<V, M: SampleMath<V>>(
    math: &M,
    source_id: Uuid,
    time_ns: i64,
    frame_sequence: u64,
    channels: Seq<ChannelSpec<V>>,
    raw: Map<Uuid, V>,
    memories: Memories<V>,
    samples: Seq<SampleView<V>>,
    after: Memories<V>,
) -> (run: (Seq<Memories<V>>, Seq<Option<V>>))
    requires
        sampled(
            math,
            source_id,
            time_ns,
            frame_sequence,
            channels,
            raw,
            memories,
            samples,
            after,
        ),
    ensures
        all_results(math, source_id, time_ns, channels, raw, run.0, run.1),
        run.0[0] == memories,
        run.0.last() == after,
        samples == samples_of(channels, run.1, time_ns, frame_sequence),
    decreases channels.len(),
{
    if channels.len() == 0 {
        (seq![memories], Seq::empty())
    } else {
        let head = channels.drop_last();
        let channel = channels.last();
        let (before, held) = choose|before: Seq<SampleView<V>>, held: Memories<V>|
            {
                &&& sampled(
                    math,
                    source_id,
                    time_ns,
                    frame_sequence,
                    channels.drop_last(),
                    raw,
                    memories,
                    before,
                    held,
                )
                &&& #[trigger] channel_sampled(
                    math,
                    source_id,
                    time_ns,
                    frame_sequence,
                    channels.last(),
                    raw,
                    held,
                    before,
                    samples,
                    after,
                )
            };
        let earlier = lemma_all_results(
            math,
            source_id,
            time_ns,
            frame_sequence,
            head,
            raw,
            memories,
            before,
            held,
        );
        let result: Option<V> = if raw.dom().contains(channel.id) {
            let (value, finite) = choose|value: V, finite: bool|
                {
                    &&& transformed(
                        math,
                        source_id,
                        channel.id,
                        channel.transforms@,
                        time_ns,
                        raw[channel.id],
                        held,
                        value,
                        after,
                    )
                    &&& #[trigger] finiteness(math, value, finite)
                    &&& samples == if finite {
                        before.push(
                            SampleView {
                                channel_id: channel.id,
                                value,
                                monotonic_offset_ns: time_ns,
                                frame_sequence,
                            },
                        )
                    } else {
                        before
                    }
                };
            if finite {
                Some(value)
            } else {
                None
            }
        } else {
            None
        };
        assert(channel_result(math, source_id, time_ns, channel, raw, held, result, after));
        let results = earlier.1.push(result);
        let states = earlier.0.push(after);
        assert(results.drop_last() =~= earlier.1);
        lemma_samples_prefix(head, channels, earlier.1, time_ns, frame_sequence);
        assert forall|i: int| #![trigger results[i]] 0 <= i < channels.len() implies channel_result(
            math,
            source_id,
            time_ns,
            channels[i],
            raw,
            states[i],
            results[i],
            states[i + 1],
        ) by {
            if i < head.len() {
                assert(results[i] == earlier.1[i]);
                assert(head[i] == channels[i]);
            } else {
                assert(states[i] == earlier.0.last());
            }
        }
        (states, results)
    }
}

/// The samples of a frame follow its channels: each channel for which a value was read takes
/// it through its own transforms, and gives one sample of what comes out, with its own
/// identifier and the time and number of the frame, unless that is no ordinary number.
pub proof fn law_samples_follow_the_channels<V: Copy, M: SampleMath<V>>(
    math: &M,
    transforms: &mut TransformEngine<V>,
    channels: &Vec<ChannelSpec<V>>,
    raw: &IdMap<V>,
    source_id: Uuid,
    time_ns: i64,
    frame_sequence: u64,
    samples: Vec<SampleView<V>>,
)
    requires
        old(transforms).wf(),
        raw.wf(),
        call_ensures(
            sample_channels::<V, M>,
            (transforms, channels, raw, source_id, time_ns, frame_sequence, math),
            samples,
        ),
    ensures
        exists|memories: Seq<Memories<V>>, results: Seq<Option<V>>|
            {
                &&& #[trigger] all_results(
                    math,
                    source_id,
                    time_ns,
                    channels@,
                    raw@,
                    memories,
                    results,
                )
                &&& memories[0] == old(transforms).memories()
                &&& memories.last() == final(transforms).memories()
                &&& samples@ == samples_of(channels@, results, time_ns, frame_sequence)
            },
{
    let run = lemma_all_results(
        math,
        source_id,
        time_ns,
        frame_sequence,
        channels@,
        raw@,
        old(transforms).memories(),
        samples@,
        final(transforms).memories(),
    );
    assert(all_results(math, source_id, time_ns, channels@, raw@, run.0, run.1));
}

/// No later channel has the identifier of this one.
pub open spec fn last_of_its_name<V>(channels: Seq<ChannelSpec<V>>, c: int) -> bool {
    &&& 0 <= c < channels.len()
    &&& forall|j: int| c < j < channels.len() ==> (#[trigger] channels[j]).id != channels[c].id
}

/// What was noted for a channel is what it read.
proof fn lemma_channel_noted<V, M: SampleMath<V>>(
    math: &M,
    content: FrameContent<V>,
    channels: Seq<ChannelSpec<V>>,
    raw: Map<Uuid, V>,
    c: int,
) -> (outcome: Option<Result<V, ErrorData>>)
    requires
        channels_read(math, content, channels, raw),
        last_of_its_name(channels, c),
    ensures
        channel_reads(math, content, channels[c].source, outcome),
        match outcome {
            Some(Ok(value)) => raw.dom().contains(channels[c].id) && raw[channels[c].id] == value,
            Some(Err(_)) => false,
            None => true,
        },
    decreases channels.len(),
{
    let last = channels.len() - 1;
    let (before, outcome) = choose|before: Map<Uuid, V>, outcome: Option<Result<V, ErrorData>>|
        {
            &&& channels_read(math, content, channels.drop_last(), before)
            &&& #[trigger] channel_reads(math, content, channels.last().source, outcome)
            &&& #[trigger] read_into(before, channels.last().id, outcome, raw)
        };
    if c == last {
        outcome
    } else {
        let head = channels.drop_last();
        assert(channels[last].id != channels[c].id);
        assert forall|j: int| c < j < head.len() implies (#[trigger] head[j]).id != head[c].id by {
            assert(head[j] == channels[j]);
        }
        lemma_channel_noted(math, content, head, before, c)
    }
}

/// Only what channels read is noted.
proof fn lemma_only_channels_noted<V, M: SampleMath<V>>(
    math: &M,
    content: FrameContent<V>,
    channels: Seq<ChannelSpec<V>>,
    raw: Map<Uuid, V>,
    id: Uuid,
) -> (c: int)
    requires
        channels_read(math, content, channels, raw),
        raw.dom().contains(id),
    ensures
        0 <= c < channels.len(),
        channels[c].id == id,
        channel_reads(math, content, channels[c].source, Some(Ok::<V, ErrorData>(raw[id]))),
    decreases channels.len(),
{
    if channels.len() == 0 {
        0
    } else {
        let last = channels.len() - 1;
        let (before, outcome) = choose|before: Map<Uuid, V>, outcome: Option<Result<V, ErrorData>>|
            {
                &&& channels_read(math, content, channels.drop_last(), before)
                &&& #[trigger] channel_reads(math, content, channels.last().source, outcome)
                &&& #[trigger] read_into(before, channels.last().id, outcome, raw)
            };
        if channels.last().id == id && outcome is Some {
            last
        } else {
            let c = lemma_only_channels_noted(math, content, channels.drop_last(), before, id);
            assert(channels.drop_last()[c] == channels[c]);
            c
        }
    }
}

/// From a line of cells each channel gets the number that its cell spells, under its own
/// identifier; of channels that share one, the last counts. Where a cell is missing or spells
/// no number, the line is refused.
pub proof fn law_channels_get_the_numbers_of_their_cells<V: Copy, M: SampleMath<V>>(
    text: &str,
    delimiter: char,
    channels: &Vec<ChannelSpec<V>>,
    math: &M,
    result: ToolboxResult<IdMap<V>>,
    cells: Seq<Seq<char>>,
    c: int,
    index: usize,
)
    requires
        call_ensures(read_csv_channels::<V, M>, (text, delimiter, channels, math), result),
        cells.len() > 0,
        forall|i: int| 0 <= i < cells.len() ==> !(#[trigger] cells[i]).contains(delimiter),
        text@ == joined_cells(cells, delimiter),
        last_of_its_name(channels@, c),
        channels@[c].source == (ChannelSource::CsvIndex { index }),
    ensures
        result is Ok ==> {
            &&& index < cells.len()
            &&& result->Ok_0@.dom().contains(channels@[c].id)
            &&& exists|spelling: String|
                {
                    &&& spelling@ == trim(cells[index as int])
                    &&& #[trigger] parses(
                        math,
                        spelling,
                        Ok::<V, String>(result->Ok_0@[channels@[c].id]),
                    )
                }
        },
        index >= cells.len() ==> result is Err,
        result is Err ==> exists|k: int|
            {
                &&& 0 <= k < channels@.len()
                &&& (#[trigger] channels@[k]).source is CsvIndex
                &&& channels@[k].source->index >= cells.len() || exists|
                    spelling: String,
                    message: String,
                |
                    {
                        &&& spelling@ == trim(cells[channels@[k].source->index as int])
                        &&& #[trigger] parses(math, spelling, Err::<V, String>(message))
                    }
            },
{
    lemma_joined_cells(cells, delimiter);
    let trimmed_cells = csv_cells(text@, delimiter);
    let content = FrameContent::<V>::Csv(trimmed_cells);
    assert forall|i: int| 0 <= i < cells.len() implies #[trigger] trimmed_cells[i] == trim(
        cells[i],
    ) by {}
    match result {
        Ok(raw) => {
            let outcome = lemma_channel_noted(math, content, channels@, raw@, c);
            if index < cells.len() {
                let (spelling, parsed) = choose|spelling: String, parsed: Result<V, String>|
                    {
                        &&& #[trigger] parses(math, spelling, parsed)
                        &&& spelling@ == trimmed_cells[index as int]
                        &&& outcome == Some(
                            match parsed {
                                Ok(value) => Ok(value),
                                Err(message) => Err(
                                    failure(
                                        ErrorCode::ParseFailed,
                                        "pipeline.csv"@,
                                        "csv_number_invalid"@,
                                    ).because(message@),
                                ),
                            },
                        )
                    };
                assert(parses(math, spelling, Ok::<V, String>(raw@[channels@[c].id])));
            }
        },
        Err(error) => {
            let (k, before) = choose|k: int, before: Map<Uuid, V>|
                {
                    &&& 0 <= k < channels@.len()
                    &&& #[trigger] channels_read(math, content, channels@.take(k), before)
                    &&& channel_reads(
                        math,
                        content,
                        channels@[k].source,
                        Some(Err::<V, ErrorData>(error@)),
                    )
                };
            assert(channels@[k].source is CsvIndex);
            let at = channels@[k].source->index;
            if at < cells.len() {
                let (spelling, parsed) = choose|spelling: String, parsed: Result<V, String>|
                    {
                        &&& #[trigger] parses(math, spelling, parsed)
                        &&& spelling@ == trimmed_cells[at as int]
                        &&& Some(Err::<V, ErrorData>(error@)) == Some(
                            match parsed {
                                Ok(value) => Ok(value),
                                Err(message) => Err(
                                    failure(
                                        ErrorCode::ParseFailed,
                                        "pipeline.csv"@,
                                        "csv_number_invalid"@,
                                    ).because(message@),
                                ),
                            },
                        )
                    };
                assert(parses(math, spelling, Err::<V, String>(parsed->Err_0)));
            }
        },
    }
}

/// From a document each channel gets the number that its path leads to; where a path leads to
/// none, the document is refused.
pub proof fn law_channels_get_the_numbers_of_their_paths<V: Copy, M: SampleMath<V>>(
    document: &serde_json::Value,
    channels: &Vec<ChannelSpec<V>>,
    math: &M,
    result: ToolboxResult<IdMap<V>>,
    c: int,
    path: &str,
    bits: Option<u64>,
)
    requires
        call_ensures(read_json_channels::<V, M>, (document, channels, math), result),
        last_of_its_name(channels@, c),
        channels@[c].source is JsonPath,
        channels@[c].source->path@ == path@,
        call_ensures(number_at, (document, path), bits),
    ensures
        bits is None ==> result is Err,
        result is Ok ==> {
            &&& result->Ok_0@.dom().contains(channels@[c].id)
            &&& stands_for(
                math,
                RawNumber::Float64(bits->Some_0),
                result->Ok_0@[channels@[c].id],
            )
        },
{
    if let Ok(raw) = result {
        let content = FrameContent::<V>::Json(json_entries(*document));
        let outcome = lemma_channel_noted(math, content, channels@, raw@, c);
        if let Some(bits) = bits {
            let value = choose|value: V|
                {
                    &&& #[trigger] stands_for(math, RawNumber::Float64(bits), value)
                    &&& outcome == Some(Ok::<V, ErrorData>(value))
                };
            assert(stands_for(math, RawNumber::Float64(bits), value));
        }
    }
}

/// From fields each channel gets the value of the field that it names, and nothing where there
/// is no such field. Nothing is noted but what channels read.
pub proof fn law_channels_get_the_values_of_their_fields<V: Copy, M: SampleMath<V>>(
    fields: &IdMap<V>,
    channels: &Vec<ChannelSpec<V>>,
    math: &M,
    raw: IdMap<V>,
    c: int,
    field_id: Uuid,
    id: Uuid,
)
    requires
        fields.wf(),
        call_ensures(read_binary_channels::<V, M>, (fields, channels, math), raw),
        last_of_its_name(channels@, c),
        channels@[c].source == (ChannelSource::BinaryField { field_id }),
    ensures
        fields@.dom().contains(field_id) ==> {
            &&& raw@.dom().contains(channels@[c].id)
            &&& raw@[channels@[c].id] == fields@[field_id]
        },
        raw@.dom().contains(id) ==> exists|k: int|
            {
                &&& 0 <= k < channels@.len()
                &&& (#[trigger] channels@[k]).id == id
                &&& channels@[k].source is BinaryField
                &&& fields@.dom().contains(channels@[k].source->field_id)
                &&& raw@[id] == fields@[channels@[k].source->field_id]
            },
{
    let content = FrameContent::Binary(fields@);
    let outcome = lemma_channel_noted(math, content, channels@, raw@, c);
    if raw@.dom().contains(id) {
        let k = lemma_only_channels_noted(math, content, channels@, raw@, id);
        assert(channels@[k].id == id);
    }
}

/// The fields of a frame are read exactly if all of them lie inside it; the first one that
/// does not is named. Each stands under its own identifier; of fields that share one, the last
/// counts.
pub proof fn law_fields_stand_under_their_identifiers<V: Copy, M: SampleMath<V>>(
    bytes: &[u8],
    specs: &Vec<FieldSpec<V>>,
    math: &M,
    result: ToolboxResult<IdMap<V>>,
    f: int,
)
    requires
        call_ensures(decode_fields::<V, M>, (bytes, specs, math), result),
        0 <= f < specs@.len(),
        forall|j: int| f < j < specs@.len() ==> (#[trigger] specs@[j]).id != specs@[f].id,
    ensures
        result is Ok ==> {
            &&& specs@[f].offset + bytes_of_type(specs@[f].field_type) <= bytes@.len()
            &&& result->Ok_0@.dom().contains(specs@[f].id)
            &&& exists|raw: RawNumber, plain: V|
                {
                    &&& is_number_of(
                        raw,
                        weighed(
                            bytes@,
                            specs@[f].offset as int,
                            bytes_of_type(specs@[f].field_type),
                            specs@[f].byte_order,
                        ),
                        specs@[f].field_type,
                    )
                    &&& #[trigger] stands_for(math, raw, plain)
                    &&& evaluates(
                        math,
                        Operation::ScaleBias {
                            value: plain,
                            scale: specs@[f].scale,
                            bias: specs@[f].bias,
                        },
                        result->Ok_0@[specs@[f].id],
                    )
                }
        },
        result is Err ==> exists|i: int|
            {
                &&& 0 <= i < specs@.len()
                &&& (#[trigger] specs@[i]).offset + bytes_of_type(specs@[i].field_type)
                    > bytes@.len()
                &&& forall|j: int|
                    0 <= j < i ==> (#[trigger] specs@[j]).offset + bytes_of_type(
                        specs@[j].field_type,
                    ) <= bytes@.len()
                &&& result->Err_0@.context["field"@] == ContextData::Text(specs@[i].name@)
            },
{
    match result {
        Ok(fields) => {
            lemma_field_noted(math, bytes@, specs@, fields@, f);
            let value = fields@[specs@[f].id];
            let width = bytes_of_type(specs@[f].field_type);
            let at = specs@[f].offset as int;
            let raw = raw_field(
                bytes@,
                specs@[f].offset as nat,
                specs@[f].field_type,
                specs@[f].byte_order,
            );
            lemma_weighed(bytes@, at, width, specs@[f].byte_order);
            lemma_span_values();
            lemma_unsigned_bound(bytes@.subrange(at, at + width), specs@[f].byte_order);
            let plain = choose|plain: V|
                {
                    &&& #[trigger] stands_for(math, raw, plain)
                    &&& evaluates(
                        math,
                        Operation::ScaleBias {
                            value: plain,
                            scale: specs@[f].scale,
                            bias: specs@[f].bias,
                        },
                        value,
                    )
                };
            assert(stands_for(math, raw, plain));
        },
        Err(error) => {
            let i = choose|i: int|
                {
                    &&& 0 <= i < specs@.len()
                    &&& !(#[trigger] field_fits(bytes@, specs@[i]))
                    &&& forall|j: int| 0 <= j < i ==> #[trigger] field_fits(bytes@, specs@[j])
                    &&& error@ == field_missing(specs@[i])
                };
            assert(!field_fits(bytes@, specs@[i]));
            assert forall|j: int| 0 <= j < i implies (#[trigger] specs@[j]).offset
                + bytes_of_type(specs@[j].field_type) <= bytes@.len() by {
                assert(field_fits(bytes@, specs@[j]));
            }
        },
    }
}

proof fn lemma_field_noted<V, M: SampleMath<V>>(
    math: &M,
    bytes: Seq<u8>,
    specs: Seq<FieldSpec<V>>,
    fields: Map<Uuid, V>,
    f: int,
)
    requires
        fields_decoded(math, bytes, specs, fields),
        0 <= f < specs.len(),
        forall|j: int| f < j < specs.len() ==> (#[trigger] specs[j]).id != specs[f].id,
    ensures
        fields.dom().contains(specs[f].id),
        field_decoded(math, bytes, specs[f], fields[specs[f].id]),
    decreases specs.len(),
{
    let last = specs.len() - 1;
    let head = specs.drop_last();
    let (before, value) = choose|before: Map<Uuid, V>, value: V|
        {
            &&& fields_decoded(math, bytes, head, before)
            &&& #[trigger] field_decoded(math, bytes, specs.last(), value)
            &&& fields == #[trigger] before.insert(specs.last().id, value)
        };
    if f < last {
        assert(specs[last].id != specs[f].id);
        assert forall|j: int| f < j < head.len() implies (#[trigger] head[j]).id != head[f].id by {
            assert(head[j] == specs[j]);
        }
        lemma_field_noted(math, bytes, head, before, f);
    }
}

/// How many frames carry an error code.
pub open spec fn coded<V>(frames: Seq<FrameData<V>>, code: Seq<char>) -> nat
    decreases frames.len(),
{
    if frames.len() == 0 {
        0
    } else {
        coded(frames.drop_last(), code) + if frames.last().error_code == Some(code) {
            1nat
        } else {
            0nat
        }
    }
}

/// What is shown of a frame follows from its checksum alone where that is wrong.
pub open spec fn shown_for_checksum<V>(
    project: ToolboxProject<V>,
    frame: FrameData<V>,
) -> bool {
    match checksum_error(project.checksum, frame.bytes) {
        Some(error) => {
            &&& !frame.valid
            &&& frame.error_code == Some(error.code)
            &&& frame.error_code != Some("E_PARSE_FAILED"@)
        },
        None => frame.valid || frame.error_code == Some("E_PARSE_FAILED"@),
    }
}

proof fn lemma_codes_differ()
    ensures
        "E_PARSE_FAILED"@ != "E_CHECKSUM_MISMATCH"@,
        "E_PARSE_FAILED"@ != code_text(ErrorCode::ProjectSchemaInvalid),
        code_text(ErrorCode::ParseFailed) == "E_PARSE_FAILED"@,
        code_text(ErrorCode::ChecksumMismatch) == "E_CHECKSUM_MISMATCH"@,
{
    reveal_strlit("E_PARSE_FAILED");
    reveal_strlit("E_CHECKSUM_MISMATCH");
    assert("E_PARSE_FAILED"@.len() == 14 && "E_CHECKSUM_MISMATCH"@.len() == 19);
    reveal_strlit("E_PROJECT_SCHEMA_INVALID");
    assert("E_PROJECT_SCHEMA_INVALID"@.len() == 24);
}

proof fn lemma_frames_by_code<V, M: SampleMath<V>>(
    math: &M,
    project: ToolboxProject<V>,
    chunk: RawChunk,
    frames: Seq<Seq<u8>>,
    state: PipelineState<V>,
    outcome: FramesOutcome<V>,
    after: PipelineState<V>,
)
    requires
        frames_processed(math, project, chunk, frames, state, outcome, after),
    ensures
        outcome.parse_failures == coded(outcome.frames, "E_PARSE_FAILED"@),
        forall|i: int|
            0 <= i < outcome.frames.len() ==> shown_for_checksum(
                project,
                #[trigger] outcome.frames[i],
            ),
    decreases frames.len(),
{
    if frames.len() > 0 {
        let (before, held, fate, frame, samples) = choose|
            before: FramesOutcome<V>,
            held: PipelineState<V>,
            fate: FrameFate,
            frame: FrameData<V>,
            samples: Seq<SampleView<V>>,
        |
            {
                &&& frames_processed(
                    math,
                    project,
                    chunk,
                    frames.drop_last(),
                    state,
                    before,
                    held,
                )
                &&& #[trigger] frame_processed(
                    math,
                    project,
                    chunk,
                    frames.last(),
                    next_sequence(held.last_sequence),
                    held.memories,
                    fate,
                    frame,
                    samples,
                    after.memories,
                )
                &&& after.last_sequence == next_sequence(held.last_sequence)
                &&& outcome == #[trigger] with_frame(before, fate, frame, samples)
            };
        lemma_frames_by_code(math, project, chunk, frames.drop_last(), state, before, held);
        lemma_codes_differ();
        assert(outcome.frames.drop_last() =~= before.frames);
        assert(shown_for_checksum(project, frame));
        assert forall|i: int| 0 <= i < outcome.frames.len() implies shown_for_checksum(
            project,
            #[trigger] outcome.frames[i],
        ) by {
            if i < before.frames.len() {
                assert(outcome.frames[i] == before.frames[i]);
            }
        }
    }
}

/// A pipeline shows the frames that its framer hands out for the bytes of a chunk, in order,
/// numbered on, each with the time and direction of the chunk. After a gap the framer has
/// nothing kept. A frame whose checksum is wrong is shown with that error, a frame that cannot
/// be read with that of a failed parse, and each kind is counted for itself; a frame with
/// neither is valid.
pub proof fn law_a_pipeline_shows_the_frames_of_its_stream<V: Copy, M: SampleMath<V>>(
    pipeline: &mut Pipeline<V>,
    chunk: &RawChunk,
    math: &M,
    output: PipelineOutput<V>,
    framer: &mut Framer,
    bytes: &[u8],
    framed: FramerOutput,
    i: int,
    frame: &[u8],
    verdict: ToolboxResult<()>,
)
    requires
        old(pipeline).wf(),
        call_ensures(Pipeline::<V>::process::<M>, (pipeline, chunk, math), output),
        old(framer).rule() == old(pipeline).project().framer@,
        chunk.gap_before ==> old(framer).state().buffer.len() == 0 && !old(framer).state().dropping,
        !chunk.gap_before ==> old(framer).state() == old(pipeline).framing(),
        bytes@ == chunk.bytes@,
        call_ensures(Framer::push, (framer, bytes), framed),
        old(pipeline).state().last_sequence + output.frames@.len() <= u64::MAX,
        0 <= i < output.frames@.len(),
        frame@ == output.frames@[i].bytes@,
        old(pipeline).project().checksum is Some ==> call_ensures(
            validate_checksum,
            (frame, &old(pipeline).project().checksum->Some_0),
            verdict,
        ),
    ensures
        final(pipeline).framing() == final(framer).state(),
        output.frames@.len() == framed.frames@.len(),
        output.frames@[i].bytes@ == framed.frames@[i]@,
        output.frames@[i].sequence == old(pipeline).state().last_sequence + 1 + i,
        output.frames@[i].monotonic_offset_ns == chunk.monotonic_offset_ns,
        output.frames@[i].direction == chunk.direction,
        output.oversize_frames == framed.oversize_frames,
        output.resyncs == framed.resyncs,
        final(pipeline).state().last_sequence == old(pipeline).state().last_sequence
            + output.frames@.len(),
        output.frames@[i].valid <==> output.frames@[i].error_code is None,
        !output.frames@[i].valid ==> output.frames@[i].fields@ == Map::<Uuid, V>::empty(),
        old(pipeline).project().checksum is Some && verdict is Err ==> {
            &&& !output.frames@[i].valid
            &&& output.frames@[i].error_code->Some_0@ == verdict->Err_0.code@
        },
        old(pipeline).project().checksum is None || verdict is Ok ==> output.frames@[i].valid
            || output.frames@[i].error_code->Some_0@ == "E_PARSE_FAILED"@,
        output.parse_failures == coded(frame_data(output.frames@), "E_PARSE_FAILED"@),
        output.parse_failures + output.checksum_failures == invalid_frames(
            frame_data(output.frames@),
        ),
{
    let project = old(pipeline).project();
    let kept = if chunk.gap_before {
        FramerState::fresh()
    } else {
        old(pipeline).framing()
    };
    assert(kept =~= old(framer).state());
    let start = if chunk.gap_before {
        PipelineState { memories: Memories::<V>::empty(), ..old(pipeline).state() }
    } else {
        old(pipeline).state()
    };
    let frames = drained(project.framer@, kept.receive(chunk.bytes@)).frames;
    let outcome = output_data(output);
    let after = final(pipeline).state();
    law_every_frame_is_accounted_for(math, project, *chunk, frames, start, outcome, after);
    law_a_chunk_is_accounted_for(
        math,
        project,
        *chunk,
        old(pipeline).framing(),
        old(pipeline).state(),
        output,
        final(pipeline).framing(),
        after,
    );
    lemma_frames_by_code(math, project, *chunk, frames, start, outcome, after);
    lemma_codes_differ();
    assert(outcome.frames[i] == output.frames@[i]@);
    assert(frame_sound(outcome.frames[i], *chunk));
    assert(shown_for_checksum(project, outcome.frames[i]));
    assert(frame_bytes(framed.frames@)[i] == framed.frames@[i]@);
    assert(frame_bytes(framed.frames@).len() == framed.frames@.len());
}

/// What a frame holds for channels, and which of its fields are shown.
pub open spec fn holds<V, M: SampleMath<V>>(
    math: &M,
    decoder: DecoderSpec<V>,
    bytes: Seq<u8>,
    content: FrameContent<V>,
    fields: Map<Uuid, V>,
) -> bool {
    &&& decoder is Text ==> content is Text && fields == Map::<Uuid, V>::empty()
    &&& decoder is Csv ==> {
        &&& valid_utf8(bytes)
        &&& content == FrameContent::<V>::Csv(csv_cells(decode_utf8(bytes), decoder->delimiter))
        &&& fields == Map::<Uuid, V>::empty()
    }
    &&& decoder is Json ==> {
        &&& json_document(bytes) is Ok
        &&& content == FrameContent::<V>::Json(json_document(bytes)->Ok_0)
        &&& fields == Map::<Uuid, V>::empty()
    }
    &&& decoder is Binary ==> {
        &&& fields_decoded(math, bytes, decoder->fields@, fields)
        &&& content == FrameContent::Binary(fields)
    }
}

/// A frame gave these samples: nothing where it is not valid; else each channel took what it
/// read from the frame through its transforms, at the time of the chunk.
pub open spec fn frame_gave<V, M: SampleMath<V>>(
    math: &M,
    project: ToolboxProject<V>,
    chunk: RawChunk,
    frame: FrameData<V>,
    before: Memories<V>,
    samples: Seq<SampleView<V>>,
    after: Memories<V>,
) -> bool {
    if frame.valid {
        exists|
            content: FrameContent<V>,
            raw: Map<Uuid, V>,
            memories: Seq<Memories<V>>,
            results: Seq<Option<V>>,
        |
            {
                &&& #[trigger] holds(math, *project.decoder, frame.bytes, content, frame.fields)
                &&& #[trigger] channels_read(math, content, project.channels@, raw)
                &&& #[trigger] all_results(
                    math,
                    chunk.source_id,
                    chunk.monotonic_offset_ns,
                    project.channels@,
                    raw,
                    memories,
                    results,
                )
                &&& memories[0] == before
                &&& memories.last() == after
                &&& samples == samples_of(
                    project.channels@,
                    results,
                    chunk.monotonic_offset_ns,
                    frame.sequence,
                )
            }
    } else {
        samples.len() == 0 && after == before
    }
}

/// Samples one after another.
pub open spec fn joined_samples<V>(parts: Seq<Seq<SampleView<V>>>) -> Seq<SampleView<V>>
    decreases parts.len(),
{
    if parts.len() == 0 {
        Seq::empty()
    } else {
        joined_samples(parts.drop_last()) + parts.last()
    }
}

/// Each of these frames gave its samples.
pub open spec fn frames_gave<V, M: SampleMath<V>>(
    math: &M,
    project: ToolboxProject<V>,
    chunk: RawChunk,
    frames: Seq<FrameData<V>>,
    memories: Seq<Memories<V>>,
    parts: Seq<Seq<SampleView<V>>>,
) -> bool {
    &&& parts.len() == frames.len()
    &&& memories.len() == frames.len() + 1
    &&& forall|i: int|
        #![trigger parts[i]]
        0 <= i < frames.len() ==> frame_gave(
            math,
            project,
            chunk,
            frames[i],
            memories[i],
            parts[i],
            memories[i + 1],
        )
}

proof fn lemma_frame_gave<V, M: SampleMath<V>>(
    math: &M,
    project: ToolboxProject<V>,
    chunk: RawChunk,
    bytes: Seq<u8>,
    sequence: u64,
    memories: Memories<V>,
    fate: FrameFate,
    frame: FrameData<V>,
    samples: Seq<SampleView<V>>,
    after: Memories<V>,
)
    requires
        frame_processed(
            math,
            project,
            chunk,
            bytes,
            sequence,
            memories,
            fate,
            frame,
            samples,
            after,
        ),
    ensures
        frame_gave(math, project, chunk, frame, memories, samples, after),
{
    if fate is Decoded {
        let (content, raw) = choose|content: FrameContent<V>, raw: Map<Uuid, V>|
            {
                &&& #[trigger] frame_readable(math, *project.decoder, bytes, content, frame.fields)
                &&& #[trigger] channels_read(math, content, project.channels@, raw)
                &&& sampled(
                    math,
                    chunk.source_id,
                    chunk.monotonic_offset_ns,
                    sequence,
                    project.channels@,
                    raw,
                    memories,
                    samples,
                    after,
                )
            };
        let run = lemma_all_results(
            math,
            chunk.source_id,
            chunk.monotonic_offset_ns,
            sequence,
            project.channels@,
            raw,
            memories,
            samples,
            after,
        );
        assert(holds(math, *project.decoder, frame.bytes, content, frame.fields));
        assert(channels_read(math, content, project.channels@, raw));
        assert(all_results(
            math,
            chunk.source_id,
            chunk.monotonic_offset_ns,
            project.channels@,
            raw,
            run.0,
            run.1,
        ));
    }
}

proof fn lemma_frames_gave<V, M: SampleMath<V>>(
    math: &M,
    project: ToolboxProject<V>,
    chunk: RawChunk,
    frames: Seq<Seq<u8>>,
    state: PipelineState<V>,
    outcome: FramesOutcome<V>,
    after: PipelineState<V>,
) -> (run: (Seq<Memories<V>>, Seq<Seq<SampleView<V>>>))
    requires
        frames_processed(math, project, chunk, frames, state, outcome, after),
    ensures
        frames_gave(math, project, chunk, outcome.frames, run.0, run.1),
        run.0[0] == state.memories,
        run.0.last() == after.memories,
        outcome.samples == joined_samples(run.1),
    decreases frames.len(),
{
    if frames.len() == 0 {
        (seq![state.memories], Seq::empty())
    } else {
        let (before, held, fate, frame, samples) = choose|
            before: FramesOutcome<V>,
            held: PipelineState<V>,
            fate: FrameFate,
            frame: FrameData<V>,
            samples: Seq<SampleView<V>>,
        |
            {
                &&& frames_processed(
                    math,
                    project,
                    chunk,
                    frames.drop_last(),
                    state,
                    before,
                    held,
                )
                &&& #[trigger] frame_processed(
                    math,
                    project,
                    chunk,
                    frames.last(),
                    next_sequence(held.last_sequence),
                    held.memories,
                    fate,
                    frame,
                    samples,
                    after.memories,
                )
                &&& after.last_sequence == next_sequence(held.last_sequence)
                &&& outcome == #[trigger] with_frame(before, fate, frame, samples)
            };
        let earlier = lemma_frames_gave(
            math,
            project,
            chunk,
            frames.drop_last(),
            state,
            before,
            held,
        );
        lemma_frame_gave(
            math,
            project,
            chunk,
            frames.last(),
            next_sequence(held.last_sequence),
            held.memories,
            fate,
            frame,
            samples,
            after.memories,
        );
        let memories = earlier.0.push(after.memories);
        let parts = earlier.1.push(samples);
        assert(parts.drop_last() =~= earlier.1);
        assert forall|i: int|
            #![trigger parts[i]]
            0 <= i < outcome.frames.len() implies frame_gave(
            math,
            project,
            chunk,
            outcome.frames[i],
            memories[i],
            parts[i],
            memories[i + 1],
        ) by {
            if i < before.frames.len() {
                assert(parts[i] == earlier.1[i]);
                assert(outcome.frames[i] == before.frames[i]);
            } else {
                assert(memories[i] == earlier.0.last());
            }
        }
        (memories, parts)
    }
}

/// The frames of a chunk gave its samples, one frame after the other.
pub open spec fn chunk_gave<V, M: SampleMath<V>>(
    math: &M,
    project: ToolboxProject<V>,
    chunk: RawChunk,
    before: Memories<V>,
    output: PipelineOutput<V>,
    after: Memories<V>,
) -> bool {
    exists|memories: Seq<Memories<V>>, parts: Seq<Seq<SampleView<V>>>|
        {
            &&& #[trigger] frames_gave(
                math,
                project,
                chunk,
                frame_data(output.frames@),
                memories,
                parts,
            )
            &&& memories[0] == before
            &&& memories.last() == after
            &&& output.samples@ == joined_samples(parts)
        }
}

/// What comes of a chunk are the samples of its frames.
pub proof fn lemma_chunk_gave<V, M: SampleMath<V>>(
    math: &M,
    project: ToolboxProject<V>,
    chunk: RawChunk,
    framing: FramerState,
    state: PipelineState<V>,
    output: PipelineOutput<V>,
    framing_after: FramerState,
    after: PipelineState<V>,
)
    requires
        chunk_processed(math, project, chunk, framing, state, output, framing_after, after),
    ensures
        chunk.gap_before ==> chunk_gave(
            math,
            project,
            chunk,
            Memories::<V>::empty(),
            output,
            after.memories,
        ),
        !chunk.gap_before ==> chunk_gave(
            math,
            project,
            chunk,
            state.memories,
            output,
            after.memories,
        ),
{
    let kept = if chunk.gap_before {
        FramerState::fresh()
    } else {
        framing
    };
    let start = if chunk.gap_before {
        PipelineState { memories: Memories::<V>::empty(), ..state }
    } else {
        state
    };
    let frames = drained(project.framer@, kept.receive(chunk.bytes@)).frames;
    let run = lemma_frames_gave(math, project, chunk, frames, start, output_data(output), after);
    assert(frames_gave(math, project, chunk, frame_data(output.frames@), run.0, run.1));
}

/// The samples of a chunk are those of its valid frames, in the order of the frames. Each
/// frame is read by the rule of the project; what transforms remember goes from each frame to
/// the next, and from the last one to the next chunk. After a gap they remember nothing.
pub proof fn law_a_pipeline_gives_the_samples_of_its_frames<V: Copy, M: SampleMath<V>>(
    pipeline: &mut Pipeline<V>,
    chunk: &RawChunk,
    math: &M,
    output: PipelineOutput<V>,
)
    requires
        old(pipeline).wf(),
        call_ensures(Pipeline::<V>::process::<M>, (pipeline, chunk, math), output),
    ensures
        chunk.gap_before ==> chunk_gave(
            math,
            old(pipeline).project(),
            *chunk,
            Memories::<V>::empty(),
            output,
            final(pipeline).state().memories,
        ),
        !chunk.gap_before ==> chunk_gave(
            math,
            old(pipeline).project(),
            *chunk,
            old(pipeline).state().memories,
            output,
            final(pipeline).state().memories,
        ),
        final(pipeline).project() == old(pipeline).project(),
{
    lemma_chunk_gave(
        math,
        old(pipeline).project(),
        *chunk,
        old(pipeline).framing(),
        old(pipeline).state(),
        output,
        final(pipeline).framing(),
        final(pipeline).state(),
    );
}

/// A pipeline begins with nothing: no frame numbered, nothing kept or remembered. Resetting it
/// takes it back there but for the number of frames; its filters then have to warm up again
/// where the stream was interrupted or left, not where its settings changed.
pub proof fn law_a_pipeline_begins_with_nothing<V: Copy>(
    project: Arc<ToolboxProject<V>>,
    fresh: Pipeline<V>,
    pipeline: &mut Pipeline<V>,
    reason: ResetReason,
)
    requires
        call_ensures(Pipeline::<V>::new, (project,), Ok(fresh)),
        old(pipeline).wf(),
        call_ensures(Pipeline::<V>::reset, (pipeline, reason), ()),
    ensures
        fresh.framing().buffer.len() == 0,
        !fresh.framing().dropping,
        fresh.state().last_sequence == 0,
        fresh.state().memories == Memories::<V>::empty(),
        !fresh.warming(),
        final(pipeline).framing() == fresh.framing(),
        final(pipeline).state().memories == Memories::<V>::empty(),
        final(pipeline).state().last_sequence == old(pipeline).state().last_sequence,
        final(pipeline).last_reset() == Some(reason),
        final(pipeline).project() == old(pipeline).project(),
        final(pipeline).warming() <==> reason == ResetReason::ReplaySeek || reason
            == ResetReason::StreamGap || reason == ResetReason::EpochChanged,
{
}

proof fn lemma_fed<V>(project: ToolboxProject<V>, c: int)
    ensures
        0 <= c < project.channels@.len() && is_fed(*project.decoder, project.channels@[c].source)
            ==> any_fed(*project.decoder, project.channels@),
{
}

/// After a gap filters warm up until a valid frame has had a number for a channel.
pub proof fn law_filters_warm_up_after_a_gap<V: Copy, M: SampleMath<V>>(
    pipeline: &mut Pipeline<V>,
    chunk: &RawChunk,
    math: &M,
    output: PipelineOutput<V>,
    c: int,
)
    requires
        old(pipeline).wf(),
        call_ensures(Pipeline::<V>::process::<M>, (pipeline, chunk, math), output),
    ensures
        !chunk.gap_before && !old(pipeline).warming() ==> !final(pipeline).warming(),
        (forall|i: int| 0 <= i < output.frames@.len() ==> !(#[trigger] output.frames@[i]).valid) ==> (
        final(pipeline).warming() <==> chunk.gap_before || old(pipeline).warming()),
        0 <= c < old(pipeline).project().channels@.len() && ({
            let decoder = *old(pipeline).project().decoder;
            let source = old(pipeline).project().channels@[c].source;
            decoder is Csv && source is CsvIndex || decoder is Json && source is JsonPath
        }) && (exists|i: int|
            0 <= i < output.frames@.len() && (#[trigger] output.frames@[i]).valid)
            ==> !final(pipeline).warming(),
        *old(pipeline).project().decoder is Text ==> (final(pipeline).warming()
            <==> chunk.gap_before || old(pipeline).warming()),
{
    let frames = frame_data(output.frames@);
    assert forall|i: int| 0 <= i < frames.len() implies #[trigger] frames[i]
        == output.frames@[i]@ by {}
    if exists|i: int| 0 <= i < output.frames@.len() && (#[trigger] output.frames@[i]).valid {
        let i = choose|i: int| 0 <= i < output.frames@.len() && (#[trigger] output.frames@[i]).valid;
        assert(frames[i].valid);
        assert(any_valid(frames));
        let project = old(pipeline).project();
        lemma_fed(project, c);
    } else {
        assert(!any_valid(frames)) by {
            if any_valid(frames) {
                let i = choose|i: int| 0 <= i < frames.len() && (#[trigger] frames[i]).valid;
                assert(output.frames@[i].valid);
            }
        }
    }
}

} // verus!
