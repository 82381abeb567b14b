//! From raw chunks to frames and samples.

use crate::checksum::{checksum_verdict, validate_checksum};
use crate::error::{
    code_text, failure, optional_text, ContextData, ContextValue, ErrorCode, ErrorData,
    ToolboxError, ToolboxResult,
};
use crate::framer::{drained, frame_bytes, rule_defect, Framer, FramerState};
use crate::ident::Uuid;
use crate::idmap::IdMap;
use crate::json::{
    json_document, json_entries, number_at, number_under, parse_document, JsonEntries,
};
use crate::math::{evaluates, finiteness, parses, stands_for, Operation, RawNumber, SampleMath};
use crate::model::{
    copy_bytes, ByteOrder, ChannelSource, ChannelSpec, ChecksumSpec, DecoderSpec, Direction,
    FieldSpec, FieldType, FrameView, RawChunk, ResetReason, SampleView, ToolboxProject,
};
use crate::numeral::{lemma_span_values, lemma_unsigned_bound, read_unsigned, unsigned};
use crate::text::{
    chars_of, decode_text, path_keys, piece, split_on, split_ranges, trim, trim_range,
    utf8_error_text,
};
use crate::transform::{transformed, warms_up, Memories, TransformEngine};
use std::sync::Arc;
use vstd::prelude::*;
use vstd::slice::slice_subrange;
use vstd::utf8::{decode_utf8, valid_utf8};

verus! {

/// What a pipeline makes of one chunk.
#[derive(Debug)]
pub struct PipelineOutput<V> {
    pub frames: Vec<FrameView<V>>,
    pub samples: Vec<SampleView<V>>,
    pub oversize_frames: u64,
    pub resyncs: u64,
    pub checksum_failures: u64,
    pub parse_failures: u64,
}

/// What a `FrameView` shows.
#[verifier::ext_equal]
pub struct FrameData<V> {
    pub sequence: u64,
    pub monotonic_offset_ns: i64,
    pub direction: Direction,
    pub bytes: Seq<u8>,
    pub valid: bool,
    pub error_code: Option<Seq<char>>,
    pub fields: Map<Uuid, V>,
}

impl<V> View for FrameView<V> {
    type V = FrameData<V>;

    open spec fn view(&self) -> FrameData<V> {
        FrameData {
            sequence: self.sequence,
            monotonic_offset_ns: self.monotonic_offset_ns,
            direction: self.direction,
            bytes: self.bytes@,
            valid: self.valid,
            error_code: optional_text(self.error_code),
            fields: self.fields@,
        }
    }
}

/// What a list of frames shows.
pub open spec fn frame_data<V>(frames: Seq<FrameView<V>>) -> Seq<FrameData<V>> {
    frames.map_values(|frame: FrameView<V>| frame@)
}

/// What channels can read from a frame.
pub enum FrameContent<V> {
    /// Nothing.
    Text,
    /// The trimmed cells of a line.
    Csv(Seq<Seq<char>>),
    /// What is in a document.
    Json(JsonEntries),
    /// The values of the fields.
    Binary(Map<Uuid, V>),
}

/// How many bytes a field takes up.
pub open spec fn field_width(field_type: FieldType) -> nat {
    match field_type {
        FieldType::U8 | FieldType::I8 => 1,
        FieldType::U16 | FieldType::I16 => 2,
        FieldType::U32 | FieldType::I32 | FieldType::F32 => 4,
        FieldType::F64 => 8,
    }
}

/// A number of so many bytes read as a signed one.
pub open spec fn signed(value: nat, width: nat) -> int {
    if width == 1 {
        if value >= 0x80 {
            value - 0x100
        } else {
            value as int
        }
    } else if width == 2 {
        if value >= 0x8000 {
            value - 0x1_0000
        } else {
            value as int
        }
    } else if value >= 0x8000_0000 {
        value - 0x1_0000_0000
    } else {
        value as int
    }
}

/// The number that a frame holds in a field.
pub open spec fn raw_field(
    bytes: Seq<u8>,
    offset: nat,
    field_type: FieldType,
    order: ByteOrder,
) -> RawNumber {
    let width = field_width(field_type);
    let value = unsigned(bytes.subrange(offset as int, (offset + width) as int), order);
    match field_type {
        FieldType::U8 | FieldType::U16 | FieldType::U32 => RawNumber::Unsigned(value as u64),
        FieldType::I8 | FieldType::I16 | FieldType::I32 => RawNumber::Signed(
            signed(value, width) as i64,
        ),
        FieldType::F32 => RawNumber::Float32(value as u32),
        FieldType::F64 => RawNumber::Float64(value as u64),
    }
}

/// Whether a field lies inside a frame.
pub open spec fn field_fits<V>(bytes: Seq<u8>, spec: FieldSpec<V>) -> bool {
    spec.offset + field_width(spec.field_type) <= bytes.len()
}

/// `value` is what a field of a frame stands for.
pub open spec fn field_decoded<V, M: SampleMath<V>>(
    math: &M,
    bytes: Seq<u8>,
    spec: FieldSpec<V>,
    value: V,
) -> bool {
    &&& field_fits(bytes, spec)
    &&& exists|raw: V|
        {
            &&& #[trigger] stands_for(
                math,
                raw_field(bytes, spec.offset as nat, spec.field_type, spec.byte_order),
                raw,
            )
            &&& evaluates(
                math,
                Operation::ScaleBias { value: raw, scale: spec.scale, bias: spec.bias },
                value,
            )
        }
}

/// What is said of a field that does not lie inside the frame.
pub open spec fn field_missing<V>(spec: FieldSpec<V>) -> ErrorData {
    failure(ErrorCode::ParseFailed, "pipeline.binary"@, "field_out_of_range"@).noting(
        "field"@,
        ContextData::Text(spec.name@),
    )
}

/// `fields` holds what all fields of a frame stand for; where two share an
/// identifier, the later one counts.
pub open spec fn fields_decoded<V, M: SampleMath<V>>(
    math: &M,
    bytes: Seq<u8>,
    specs: Seq<FieldSpec<V>>,
    fields: Map<Uuid, V>,
) -> bool
    decreases specs.len(),
{
    if specs.len() == 0 {
        fields == Map::<Uuid, V>::empty()
    } else {
        exists|before: Map<Uuid, V>, value: V|
            {
                &&& fields_decoded(math, bytes, specs.drop_last(), before)
                &&& #[trigger] field_decoded(math, bytes, specs.last(), value)
                &&& fields == #[trigger] before.insert(specs.last().id, value)
            }
    }
}

/// `error` is about the first field that does not lie inside the frame.
pub open spec fn fields_failed<V>(bytes: Seq<u8>, specs: Seq<FieldSpec<V>>, error: ErrorData) -> bool {
    exists|i: int|
        {
            &&& 0 <= i < specs.len()
            &&& !(#[trigger] field_fits(bytes, specs[i]))
            &&& forall|j: int| 0 <= j < i ==> #[trigger] field_fits(bytes, specs[j])
            &&& error == field_missing(specs[i])
        }
}

/// The trimmed cells of a line.
pub open spec fn csv_cells(text: Seq<char>, delimiter: char) -> Seq<Seq<char>> {
    split_on(text, delimiter).map_values(|cell: Seq<char>| trim(cell))
}

/// `content` is what channels can read from a frame, and `fields` what is shown of
/// its fields.
pub open spec fn frame_readable<V, M: SampleMath<V>>(
    math: &M,
    decoder: DecoderSpec<V>,
    bytes: Seq<u8>,
    content: FrameContent<V>,
    fields: Map<Uuid, V>,
) -> bool {
    match decoder {
        DecoderSpec::Text { .. } => content is Text && fields == Map::<Uuid, V>::empty(),
        DecoderSpec::Csv { delimiter, .. } => {
            &&& valid_utf8(bytes)
            &&& content == FrameContent::<V>::Csv(csv_cells(decode_utf8(bytes), delimiter))
            &&& fields == Map::<Uuid, V>::empty()
        },
        DecoderSpec::Json { .. } => {
            &&& json_document(bytes) matches Ok(entries)
            &&& content == FrameContent::<V>::Json(entries)
            &&& fields == Map::<Uuid, V>::empty()
        },
        DecoderSpec::Binary { fields: specs, .. } => {
            &&& fields_decoded(math, bytes, specs@, fields)
            &&& content == FrameContent::Binary(fields)
        },
    }
}

/// `error` says why nothing can be read from a frame.
pub open spec fn frame_unreadable<V>(
    decoder: DecoderSpec<V>,
    bytes: Seq<u8>,
    error: ErrorData,
) -> bool {
    match decoder {
        DecoderSpec::Text { .. } => false,
        DecoderSpec::Csv { .. } => {
            &&& !valid_utf8(bytes)
            &&& error == failure(ErrorCode::ParseFailed, "pipeline.csv"@, "utf8_invalid"@).because(
                utf8_error_text(bytes),
            )
        },
        DecoderSpec::Json { .. } => {
            &&& json_document(bytes) matches Err(message)
            &&& error == failure(ErrorCode::ParseFailed, "pipeline.json"@, "json_invalid"@).because(
                message,
            )
        },
        DecoderSpec::Binary { fields, .. } => fields_failed(bytes, fields@, error),
    }
}

/// What a channel reads: nothing, when the content is not for it; else a value, or
/// what is wrong.
pub open spec fn channel_reads<V, M: SampleMath<V>>(
    math: &M,
    content: FrameContent<V>,
    source: ChannelSource,
    outcome: Option<Result<V, ErrorData>>,
) -> bool {
    match (content, source) {
        (FrameContent::Csv(cells), ChannelSource::CsvIndex { index }) => {
            if index < cells.len() {
                exists|text: String, parsed: Result<V, String>|
                    {
                        &&& #[trigger] parses(math, text, parsed)
                        &&& text@ == cells[index as int]
                        &&& outcome == Some(
                            match parsed {
                                Ok(value) => Ok(value),
                                Err(message) => Err(
                                    failure(
                                        ErrorCode::ParseFailed,
                                        "pipeline.csv"@,
                                        "csv_number_invalid"@,
                                    ).because(message@),
                                ),
                            },
                        )
                    }
            } else {
                outcome == Some(
                    Err::<V, ErrorData>(
                        failure(
                            ErrorCode::ParseFailed,
                            "pipeline.csv"@,
                            "csv_index_missing"@,
                        ).noting("index"@, ContextData::Unsigned(index as u64)),
                    ),
                )
            }
        },
        (FrameContent::Json(entries), ChannelSource::JsonPath { path }) => {
            match number_under(entries, path_keys(path@)) {
                Some(bits) => exists|value: V|
                    {
                        &&& #[trigger] stands_for(math, RawNumber::Float64(bits), value)
                        &&& outcome == Some(Ok::<V, ErrorData>(value))
                    },
                None => outcome == Some(
                    Err::<V, ErrorData>(
                        failure(
                            ErrorCode::ParseFailed,
                            "pipeline.json"@,
                            "json_path_missing"@,
                        ).noting("path"@, ContextData::Text(path@)),
                    ),
                ),
            }
        },
        (FrameContent::Binary(fields), ChannelSource::BinaryField { field_id }) => {
            if fields.dom().contains(field_id) {
                outcome == Some(Ok::<V, ErrorData>(fields[field_id]))
            } else {
                outcome is None
            }
        },
        _ => outcome is None,
    }
}

/// `raw` holds what all channels read; where two share an identifier, the later one
/// counts.
pub open spec fn channels_read<V, M: SampleMath<V>>(
    math: &M,
    content: FrameContent<V>,
    channels: Seq<ChannelSpec<V>>,
    raw: Map<Uuid, V>,
) -> bool
    decreases channels.len(),
{
    if channels.len() == 0 {
        raw == Map::<Uuid, V>::empty()
    } else {
        exists|before: Map<Uuid, V>, outcome: Option<Result<V, ErrorData>>|
            {
                &&& channels_read(math, content, channels.drop_last(), before)
                &&& #[trigger] channel_reads(math, content, channels.last().source, outcome)
                &&& #[trigger] read_into(before, channels.last().id, outcome, raw)
            }
    }
}

/// What a channel reads is noted under its identifier.
pub open spec fn read_into<V>(
    before: Map<Uuid, V>,
    id: Uuid,
    outcome: Option<Result<V, ErrorData>>,
    after: Map<Uuid, V>,
) -> bool {
    match outcome {
        Some(Ok(value)) => after == before.insert(id, value),
        Some(Err(_)) => false,
        None => after == before,
    }
}

/// Whether a channel has a value to read in every frame that a decoder accepts; if not,
/// it has none in any.
pub open spec fn is_fed<V>(decoder: DecoderSpec<V>, source: ChannelSource) -> bool {
    match (decoder, source) {
        (DecoderSpec::Csv { .. }, ChannelSource::CsvIndex { .. }) => true,
        (DecoderSpec::Json { .. }, ChannelSource::JsonPath { .. }) => true,
        (DecoderSpec::Binary { fields, .. }, ChannelSource::BinaryField { field_id }) => exists|
            i: int,
        |
            0 <= i < fields@.len() && (#[trigger] fields@[i]).id == field_id,
        _ => false,
    }
}

/// Whether any channel has a value to read.
pub open spec fn any_fed<V>(decoder: DecoderSpec<V>, channels: Seq<ChannelSpec<V>>) -> bool {
    exists|i: int| 0 <= i < channels.len() && is_fed(decoder, (#[trigger] channels[i]).source)
}

/// Whether any channel finds a value among those that were read.
pub open spec fn any_read<V>(channels: Seq<ChannelSpec<V>>, raw: Map<Uuid, V>) -> bool {
    exists|i: int| 0 <= i < channels.len() && raw.dom().contains((#[trigger] channels[i]).id)
}

/// Fields that were decoded stand under the identifiers of the rule.
proof fn lemma_decoded_ids<V, M: SampleMath<V>>(
    math: &M,
    bytes: Seq<u8>,
    specs: Seq<FieldSpec<V>>,
    fields: Map<Uuid, V>,
    id: Uuid,
)
    requires
        fields_decoded(math, bytes, specs, fields),
    ensures
        fields.dom().contains(id) <==> exists|i: int|
            0 <= i < specs.len() && (#[trigger] specs[i]).id == id,
    decreases specs.len(),
{
    if specs.len() > 0 {
        let head = specs.drop_last();
        let (before, value) = choose|before: Map<Uuid, V>, value: V|
            {
                &&& fields_decoded(math, bytes, head, before)
                &&& #[trigger] field_decoded(math, bytes, specs.last(), value)
                &&& fields == #[trigger] before.insert(specs.last().id, value)
            };
        lemma_decoded_ids(math, bytes, head, before, id);
        assert(specs[specs.len() - 1] == specs.last());
        if exists|i: int| 0 <= i < specs.len() && (#[trigger] specs[i]).id == id {
            let i = choose|i: int| 0 <= i < specs.len() && (#[trigger] specs[i]).id == id;
            if i < head.len() {
                assert(head[i].id == id);
            }
        }
        if exists|i: int| 0 <= i < head.len() && (#[trigger] head[i]).id == id {
            let i = choose|i: int| 0 <= i < head.len() && (#[trigger] head[i]).id == id;
            assert(specs[i].id == id);
        }
    }
}

/// What was read is nothing exactly if no channel has anything to read.
proof fn lemma_fed_channels_read<V, M: SampleMath<V>>(
    math: &M,
    decoder: DecoderSpec<V>,
    bytes: Seq<u8>,
    content: FrameContent<V>,
    fields: Map<Uuid, V>,
    channels: Seq<ChannelSpec<V>>,
    raw: Map<Uuid, V>,
)
    requires
        frame_readable(math, decoder, bytes, content, fields),
        channels_read(math, content, channels, raw),
    ensures
        any_read(channels, raw) == any_fed(decoder, channels),
        forall|i: int|
            0 <= i < channels.len() && is_fed(decoder, channels[i].source) ==> raw.dom().contains(
                (#[trigger] channels[i]).id,
            ),
        !any_fed(decoder, channels) ==> raw == Map::<Uuid, V>::empty(),
    decreases channels.len(),
{
    if channels.len() > 0 {
        let head = channels.drop_last();
        let (before, outcome) = choose|before: Map<Uuid, V>, outcome: Option<Result<V, ErrorData>>|
            {
                &&& channels_read(math, content, head, before)
                &&& #[trigger] channel_reads(math, content, channels.last().source, outcome)
                &&& #[trigger] read_into(before, channels.last().id, outcome, raw)
            };
        lemma_fed_channels_read(math, decoder, bytes, content, fields, head, before);
        if let (DecoderSpec::Binary { fields: specs, .. }, ChannelSource::BinaryField { field_id }) =
            (decoder, channels.last().source) {
            lemma_decoded_ids(math, bytes, specs@, fields, field_id);
        }
        assert(is_fed(decoder, channels.last().source) <==> outcome is Some);
        assert(channels[channels.len() - 1] == channels.last());
        assert forall|i: int|
            0 <= i < channels.len() && is_fed(decoder, channels[i].source) implies raw.dom().contains(
            (#[trigger] channels[i]).id,
        ) by {
            if i < head.len() {
                assert(head[i] == channels[i]);
            }
        }
        if !any_fed(decoder, channels) {
            assert forall|i: int| 0 <= i < head.len() implies !is_fed(
                decoder,
                (#[trigger] head[i]).source,
            ) by {
                assert(head[i] == channels[i]);
            }
        }
    }
    if any_fed(decoder, channels) {
        let i = choose|i: int|
            0 <= i < channels.len() && is_fed(decoder, (#[trigger] channels[i]).source);
        assert(raw.dom().contains(channels[i].id));
    }
}

/// `error` is what the first channel that cannot read what it should reports.
pub open spec fn channels_failed<V, M: SampleMath<V>>(
    math: &M,
    content: FrameContent<V>,
    channels: Seq<ChannelSpec<V>>,
    error: ErrorData,
) -> bool {
    exists|i: int, before: Map<Uuid, V>|
        {
            &&& 0 <= i < channels.len()
            &&& #[trigger] channels_read(math, content, channels.take(i), before)
            &&& channel_reads(
                math,
                content,
                channels[i].source,
                Some(Err::<V, ErrorData>(error)),
            )
        }
}

/// `samples` are the finite results of taking what was read through the transforms
/// of each channel, in order of the channels.
pub open spec fn sampled<V, M: SampleMath<V>>(
    math: &M,
    source_id: Uuid,
    time_ns: i64,
    frame_sequence: u64,
    channels: Seq<ChannelSpec<V>>,
    raw: Map<Uuid, V>,
    memories: Memories<V>,
    samples: Seq<SampleView<V>>,
    after: Memories<V>,
) -> bool
    decreases channels.len(),
{
    if channels.len() == 0 {
        samples == Seq::<SampleView<V>>::empty() && after == memories
    } else {
        exists|before: Seq<SampleView<V>>, held: Memories<V>|
            {
                &&& sampled(
                    math,
                    source_id,
                    time_ns,
                    frame_sequence,
                    channels.drop_last(),
                    raw,
                    memories,
                    before,
                    held,
                )
                &&& #[trigger] channel_sampled(
                    math,
                    source_id,
                    time_ns,
                    frame_sequence,
                    channels.last(),
                    raw,
                    held,
                    before,
                    samples,
                    after,
                )
            }
    }
}

/// One channel adds its sample, if it has one.
pub open spec fn channel_sampled<V, M: SampleMath<V>>(
    math: &M,
    source_id: Uuid,
    time_ns: i64,
    frame_sequence: u64,
    channel: ChannelSpec<V>,
    raw: Map<Uuid, V>,
    memories: Memories<V>,
    before: Seq<SampleView<V>>,
    samples: Seq<SampleView<V>>,
    after: Memories<V>,
) -> bool {
    if raw.dom().contains(channel.id) {
        exists|value: V, finite: bool|
            {
                &&& transformed(
                    math,
                    source_id,
                    channel.id,
                    channel.transforms@,
                    time_ns,
                    raw[channel.id],
                    memories,
                    value,
                    after,
                )
                &&& #[trigger] finiteness(math, value, finite)
                &&& samples == if finite {
                    before.push(
                        SampleView {
                            channel_id: channel.id,
                            value,
                            monotonic_offset_ns: time_ns,
                            frame_sequence,
                        },
                    )
                } else {
                    before
                }
            }
    } else {
        samples == before && after == memories
    }
}

/// A frame was decoded into fields and samples.
pub open spec fn frame_decoded<V, M: SampleMath<V>>(
    math: &M,
    decoder: DecoderSpec<V>,
    channels: Seq<ChannelSpec<V>>,
    bytes: Seq<u8>,
    source_id: Uuid,
    time_ns: i64,
    frame_sequence: u64,
    memories: Memories<V>,
    fields: Map<Uuid, V>,
    samples: Seq<SampleView<V>>,
    after: Memories<V>,
) -> bool {
    exists|content: FrameContent<V>, raw: Map<Uuid, V>|
        {
            &&& #[trigger] frame_readable(math, decoder, bytes, content, fields)
            &&& #[trigger] channels_read(math, content, channels, raw)
            &&& sampled(
                math,
                source_id,
                time_ns,
                frame_sequence,
                channels,
                raw,
                memories,
                samples,
                after,
            )
        }
}

/// A frame could not be decoded.
pub open spec fn frame_rejected<V, M: SampleMath<V>>(
    math: &M,
    decoder: DecoderSpec<V>,
    channels: Seq<ChannelSpec<V>>,
    bytes: Seq<u8>,
    error: ErrorData,
) -> bool {
    ||| frame_unreadable(decoder, bytes, error)
    ||| exists|content: FrameContent<V>, fields: Map<Uuid, V>|
        {
            &&& #[trigger] frame_readable(math, decoder, bytes, content, fields)
            &&& channels_failed(math, content, channels, error)
        }
}

/// Whether a frame carries the checksum that it should, if it should carry one.
pub open spec fn checksum_error(checksum: Option<ChecksumSpec>, bytes: Seq<u8>) -> Option<ErrorData> {
    match checksum {
        Some(spec) => checksum_verdict(bytes, spec),
        None => None,
    }
}

/// How a frame came out.
pub enum FrameFate {
    Decoded,
    ChecksumFailed,
    ParseFailed,
}

/// What comes of one frame: it is shown with its fields and its samples follow, or
/// it is shown with the code of what is wrong, and nothing else changes.
pub open spec fn frame_processed<V, M: SampleMath<V>>(
    math: &M,
    project: ToolboxProject<V>,
    chunk: RawChunk,
    bytes: Seq<u8>,
    sequence: u64,
    memories: Memories<V>,
    fate: FrameFate,
    frame: FrameData<V>,
    samples: Seq<SampleView<V>>,
    after: Memories<V>,
) -> bool {
    &&& frame.sequence == sequence
    &&& frame.monotonic_offset_ns == chunk.monotonic_offset_ns
    &&& frame.direction == chunk.direction
    &&& frame.bytes == bytes
    &&& match fate {
        FrameFate::ChecksumFailed => {
            &&& checksum_error(project.checksum, bytes) matches Some(error)
            &&& !frame.valid
            &&& frame.error_code == Some(error.code)
            &&& frame.fields == Map::<Uuid, V>::empty()
            &&& samples == Seq::<SampleView<V>>::empty()
            &&& after == memories
        },
        FrameFate::Decoded => {
            &&& checksum_error(project.checksum, bytes) is None
            &&& frame.valid
            &&& frame.error_code is None
            &&& frame_decoded(
                math,
                *project.decoder,
                project.channels@,
                bytes,
                chunk.source_id,
                chunk.monotonic_offset_ns,
                sequence,
                memories,
                frame.fields,
                samples,
                after,
            )
        },
        FrameFate::ParseFailed => {
            &&& checksum_error(project.checksum, bytes) is None
            &&& !frame.valid
            &&& frame.error_code == Some(code_text(ErrorCode::ParseFailed))
            &&& exists|error: ErrorData| #[trigger]
                frame_rejected(math, *project.decoder, project.channels@, bytes, error)
            &&& frame.fields == Map::<Uuid, V>::empty()
            &&& samples == Seq::<SampleView<V>>::empty()
            &&& after == memories
        },
    }
}

/// The state of a pipeline between frames.
#[verifier::ext_equal]
pub struct PipelineState<V> {
    pub last_sequence: u64,
    pub memories: Memories<V>,
}

/// What came of all frames of a chunk.
#[verifier::ext_equal]
pub struct FramesOutcome<V> {
    pub frames: Seq<FrameData<V>>,
    pub samples: Seq<SampleView<V>>,
    pub checksum_failures: nat,
    pub parse_failures: nat,
}

/// One more frame added to what came of the frames before it.
pub open spec fn with_frame<V>(
    before: FramesOutcome<V>,
    fate: FrameFate,
    frame: FrameData<V>,
    samples: Seq<SampleView<V>>,
) -> FramesOutcome<V> {
    FramesOutcome {
        frames: before.frames.push(frame),
        samples: before.samples + samples,
        checksum_failures: before.checksum_failures + if fate is ChecksumFailed {
            1nat
        } else {
            0nat
        },
        parse_failures: before.parse_failures + if fate is ParseFailed {
            1nat
        } else {
            0nat
        },
    }
}

/// The number after a frame number; it stays at the largest one.
pub open spec fn next_sequence(sequence: u64) -> u64 {
    if sequence == u64::MAX {
        sequence
    } else {
        (sequence + 1) as u64
    }
}

/// What comes of frames one after another.
pub open spec fn frames_processed<V, M: SampleMath<V>>(
    math: &M,
    project: ToolboxProject<V>,
    chunk: RawChunk,
    frames: Seq<Seq<u8>>,
    state: PipelineState<V>,
    outcome: FramesOutcome<V>,
    after: PipelineState<V>,
) -> bool
    decreases frames.len(),
{
    if frames.len() == 0 {
        &&& outcome.frames == Seq::<FrameData<V>>::empty()
        &&& outcome.samples == Seq::<SampleView<V>>::empty()
        &&& outcome.checksum_failures == 0
        &&& outcome.parse_failures == 0
        &&& after == state
    } else {
        exists|
            before: FramesOutcome<V>,
            held: PipelineState<V>,
            fate: FrameFate,
            frame: FrameData<V>,
            samples: Seq<SampleView<V>>,
        |
            {
                &&& frames_processed(
                    math,
                    project,
                    chunk,
                    frames.drop_last(),
                    state,
                    before,
                    held,
                )
                &&& #[trigger] frame_processed(
                    math,
                    project,
                    chunk,
                    frames.last(),
                    next_sequence(held.last_sequence),
                    held.memories,
                    fate,
                    frame,
                    samples,
                    after.memories,
                )
                &&& after.last_sequence == next_sequence(held.last_sequence)
                &&& outcome == #[trigger] with_frame(before, fate, frame, samples)
            }
    }
}

/// One more channel read.
proof fn lemma_channels_read_next<V, M: SampleMath<V>>(
    math: &M,
    content: FrameContent<V>,
    channels: Seq<ChannelSpec<V>>,
    i: int,
    before: Map<Uuid, V>,
    outcome: Option<Result<V, ErrorData>>,
    after: Map<Uuid, V>,
)
    requires
        0 <= i < channels.len(),
        channels_read(math, content, channels.take(i), before),
        channel_reads(math, content, channels[i].source, outcome),
        read_into(before, channels[i].id, outcome, after),
    ensures
        channels_read(math, content, channels.take(i + 1), after),
{
    let longer = channels.take(i + 1);
    assert(longer.drop_last() =~= channels.take(i));
    assert(longer.last() == channels[i]);
}

/// Reads the first two bytes as a number.
fn read_u16(bytes: &[u8], order: ByteOrder) -> (value: u16)
    requires
        bytes@.len() == 2,
    ensures
        value == unsigned(bytes@, order),
{
    proof {
        lemma_span_values();
        lemma_unsigned_bound(bytes@, order);
    }
    read_unsigned(bytes, order) as u16
}

/// Reads four bytes as a number.
fn read_u32(bytes: &[u8], order: ByteOrder) -> (value: u32)
    requires
        bytes@.len() == 4,
    ensures
        value == unsigned(bytes@, order),
{
    proof {
        lemma_span_values();
        lemma_unsigned_bound(bytes@, order);
    }
    read_unsigned(bytes, order) as u32
}

/// Reads eight bytes as a number.
fn read_u64(bytes: &[u8], order: ByteOrder) -> (value: u64)
    requires
        bytes@.len() == 8,
    ensures
        value == unsigned(bytes@, order),
{
    read_unsigned(bytes, order)
}

/// Reads the number that a field of a frame holds.
fn read_field(bytes: &[u8], field_type: FieldType, order: ByteOrder) -> (raw: RawNumber)
    requires
        bytes@.len() == field_width(field_type),
    ensures
        raw == raw_field(bytes@, 0, field_type, order),
{
    assert(bytes@.subrange(0, bytes@.len() as int) =~= bytes@);
    match field_type {
        FieldType::U8 => {
            let value = read_byte(bytes, order);
            RawNumber::Unsigned(value as u64)
        },
        FieldType::I8 => {
            let value = read_byte(bytes, order);
            let number = value as i8;
            assert(number == if value >= 0x80 {
                value - 0x100
            } else {
                value as int
            }) by (bit_vector)
                requires
                    number == value as i8,
            ;
            RawNumber::Signed(number as i64)
        },
        FieldType::U16 => RawNumber::Unsigned(read_u16(bytes, order) as u64),
        FieldType::I16 => {
            let value = read_u16(bytes, order);
            let number = value as i16;
            assert(number == if value >= 0x8000 {
                value - 0x1_0000
            } else {
                value as int
            }) by (bit_vector)
                requires
                    number == value as i16,
            ;
            RawNumber::Signed(number as i64)
        },
        FieldType::U32 => RawNumber::Unsigned(read_u32(bytes, order) as u64),
        FieldType::I32 => {
            let value = read_u32(bytes, order);
            let number = value as i32;
            assert(number == if value >= 0x8000_0000 {
                value - 0x1_0000_0000
            } else {
                value as int
            }) by (bit_vector)
                requires
                    number == value as i32,
            ;
            RawNumber::Signed(number as i64)
        },
        FieldType::F32 => RawNumber::Float32(read_u32(bytes, order)),
        FieldType::F64 => RawNumber::Float64(read_u64(bytes, order)),
    }
}

/// Reads a single byte as a number.
fn read_byte(bytes: &[u8], order: ByteOrder) -> (value: u8)
    requires
        bytes@.len() == 1,
    ensures
        value == unsigned(bytes@, order),
{
    proof {
        lemma_span_values();
        lemma_unsigned_bound(bytes@, order);
    }
    read_unsigned(bytes, order) as u8
}

/// The value of a field of a frame, or that the frame is too short for it.
pub fn decode_field<V: Copy, M: SampleMath<V>>(
    bytes: &[u8],
    spec: &FieldSpec<V>,
    math: &M,
) -> (result: ToolboxResult<V>)
    ensures
        match result {
            Ok(value) => field_decoded(math, bytes@, *spec, value),
            Err(error) => !field_fits(bytes@, *spec) && error@ == field_missing(*spec),
        },
{
    let width: usize = match spec.field_type {
        FieldType::U8 | FieldType::I8 => 1,
        FieldType::U16 | FieldType::I16 => 2,
        FieldType::U32 | FieldType::I32 | FieldType::F32 => 4,
        FieldType::F64 => 8,
    };
    let len = bytes.len();
    if len < width || len - width < spec.offset {
        return Err(
            ToolboxError::new(
                ErrorCode::ParseFailed,
                "pipeline.binary",
                "field_out_of_range",
            ).context("field", ContextValue::Text(spec.name.clone())),
        );
    }
    let slice = slice_subrange(bytes, spec.offset, spec.offset + width);
    assert(slice@.subrange(0, width as int) =~= bytes@.subrange(
        spec.offset as int,
        spec.offset + width,
    ));
    let raw = math.number(read_field(slice, spec.field_type, spec.byte_order));
    let value = math.evaluate(
        Operation::ScaleBias { value: raw, scale: spec.scale, bias: spec.bias },
    );
    assert(stands_for(
        math,
        raw_field(bytes@, spec.offset as nat, spec.field_type, spec.byte_order),
        raw,
    ));
    Ok(value)
}

/// The values of all fields of a frame, or what is said of the first one that does
/// not lie inside it.
pub fn decode_fields<V: Copy, M: SampleMath<V>>(
    bytes: &[u8],
    specs: &Vec<FieldSpec<V>>,
    math: &M,
) -> (result: ToolboxResult<IdMap<V>>)
    ensures
        match result {
            Ok(fields) => fields.wf() && fields_decoded(math, bytes@, specs@, fields@),
            Err(error) => fields_failed(bytes@, specs@, error@),
        },
{
    let mut fields: IdMap<V> = IdMap::new();
    let mut i: usize = 0;
    assert(specs@.take(0) =~= Seq::<FieldSpec<V>>::empty());
    while i < specs.len()
        invariant
            i <= specs@.len(),
            fields.wf(),
            fields_decoded(math, bytes@, specs@.take(i as int), fields@),
            forall|j: int| 0 <= j < i ==> #[trigger] field_fits(bytes@, specs@[j]),
        decreases specs@.len() - i,
    {
        let ghost before = fields@;
        let ghost longer = specs@.take(i + 1);
        assert(longer.drop_last() =~= specs@.take(i as int));
        assert(longer.last() == specs@[i as int]);
        match decode_field(bytes, &specs[i], math) {
            Ok(value) => {
                fields.insert(specs[i].id, value);
                assert(field_decoded(math, bytes@, longer.last(), value));
                assert(fields@ == before.insert(longer.last().id, value));
                assert(fields_decoded(math, bytes@, longer, fields@));
            },
            Err(error) => {
                assert(!field_fits(bytes@, specs@[i as int]));
                return Err(error);
            },
        }
        i += 1;
    }
    assert(specs@.take(specs@.len() as int) =~= specs@);
    Ok(fields)
}

/// What channels read from a line of cells.
pub fn read_csv_channels<V: Copy, M: SampleMath<V>>(
    text: &str,
    delimiter: char,
    channels: &Vec<ChannelSpec<V>>,
    math: &M,
) -> (result: ToolboxResult<IdMap<V>>)
    ensures
        match result {
            Ok(raw) => raw.wf() && channels_read(
                math,
                FrameContent::Csv(csv_cells(text@, delimiter)),
                channels@,
                raw@,
            ),
            Err(error) => channels_failed(
                math,
                FrameContent::Csv(csv_cells(text@, delimiter)),
                channels@,
                error@,
            ),
        },
{
    let chars = chars_of(text);
    let ranges = split_ranges(&chars, delimiter);
    let ghost cells = csv_cells(text@, delimiter);
    let ghost content = FrameContent::<V>::Csv(cells);
    let mut raw: IdMap<V> = IdMap::new();
    let mut i: usize = 0;
    assert(channels@.take(0) =~= Seq::<ChannelSpec<V>>::empty());
    while i < channels.len()
        invariant
            i <= channels@.len(),
            raw.wf(),
            chars@ == text@,
            cells == csv_cells(text@, delimiter),
            content == FrameContent::<V>::Csv(cells),
            ranges@.len() == split_on(chars@, delimiter).len(),
            forall|j: int|
                0 <= j < ranges@.len() ==> {
                    &&& (#[trigger] ranges@[j]).0 <= ranges@[j].1 <= chars@.len()
                    &&& chars@.subrange(ranges@[j].0 as int, ranges@[j].1 as int) == split_on(
                        chars@,
                        delimiter,
                    )[j]
                },
            channels_read(math, content, channels@.take(i as int), raw@),
        decreases channels@.len() - i,
    {
        let channel = &channels[i];
        let ghost before = raw@;
        let mut outcome: Option<Result<V, ToolboxError>> = None;
        if let ChannelSource::CsvIndex { index } = &channel.source {
            if *index < ranges.len() {
                let inner = trim_range(&chars, ranges[*index]);
                let cell = piece(text, inner);
                assert(cell@ == cells[*index as int]);
                let ghost cell_text = cell;
                let parsed = math.parse(cell);
                assert(parses(math, cell_text, parsed));
                outcome =
                Some(
                    match parsed {
                        Ok(value) => Ok(value),
                        Err(message) => Err(
                            ToolboxError::new(
                                ErrorCode::ParseFailed,
                                "pipeline.csv",
                                "csv_number_invalid",
                            ).cause(message),
                        ),
                    },
                );
            } else {
                outcome =
                Some(
                    Err(
                        ToolboxError::new(
                            ErrorCode::ParseFailed,
                            "pipeline.csv",
                            "csv_index_missing",
                        ).context("index", ContextValue::Unsigned(*index as u64)),
                    ),
                );
            }
        }
        let ghost told = outcome_data(outcome);
        assert(channel_reads(math, content, channel.source, told));
        match outcome {
            Some(Ok(value)) => {
                raw.insert(channel.id, value);
            },
            Some(Err(error)) => {
                assert(channels_read(math, content, channels@.take(i as int), before));
                assert(channel_reads(
                    math,
                    content,
                    channels@[i as int].source,
                    Some(Err::<V, ErrorData>(error@)),
                ));
                return Err(error);
            },
            None => {},
        }
        proof {
            lemma_channels_read_next(math, content, channels@, i as int, before, told, raw@);
        }
        i += 1;
    }
    assert(channels@.take(channels@.len() as int) =~= channels@);
    Ok(raw)
}

/// What an outcome of reading says.
spec fn outcome_data<V>(outcome: Option<Result<V, ToolboxError>>) -> Option<Result<V, ErrorData>> {
    match outcome {
        Some(Ok(value)) => Some(Ok(value)),
        Some(Err(error)) => Some(Err(error@)),
        None => None,
    }
}

/// What channels read from a JSON document.
pub fn read_json_channels<V: Copy, M: SampleMath<V>>(
    document: &serde_json::Value,
    channels: &Vec<ChannelSpec<V>>,
    math: &M,
) -> (result: ToolboxResult<IdMap<V>>)
    ensures
        match result {
            Ok(raw) => raw.wf() && channels_read(
                math,
                FrameContent::Json(json_entries(*document)),
                channels@,
                raw@,
            ),
            Err(error) => channels_failed(
                math,
                FrameContent::Json(json_entries(*document)),
                channels@,
                error@,
            ),
        },
{
    let ghost content = FrameContent::<V>::Json(json_entries(*document));
    let mut raw: IdMap<V> = IdMap::new();
    let mut i: usize = 0;
    assert(channels@.take(0) =~= Seq::<ChannelSpec<V>>::empty());
    while i < channels.len()
        invariant
            i <= channels@.len(),
            raw.wf(),
            content == FrameContent::<V>::Json(json_entries(*document)),
            channels_read(math, content, channels@.take(i as int), raw@),
        decreases channels@.len() - i,
    {
        let channel = &channels[i];
        let ghost before = raw@;
        let mut outcome: Option<Result<V, ToolboxError>> = None;
        if let ChannelSource::JsonPath { path } = &channel.source {
            match number_at(document, path.as_str()) {
                Some(bits) => {
                    let value = math.number(RawNumber::Float64(bits));
                    assert(stands_for(math, RawNumber::Float64(bits), value));
                    outcome = Some(Ok(value));
                },
                None => {
                    outcome =
                    Some(
                        Err(
                            ToolboxError::new(
                                ErrorCode::ParseFailed,
                                "pipeline.json",
                                "json_path_missing",
                            ).context("path", ContextValue::Text(path.clone())),
                        ),
                    );
                },
            }
        }
        let ghost told = outcome_data(outcome);
        assert(channel_reads(math, content, channel.source, told));
        match outcome {
            Some(Ok(value)) => {
                raw.insert(channel.id, value);
            },
            Some(Err(error)) => {
                assert(channels_read(math, content, channels@.take(i as int), before));
                assert(channel_reads(
                    math,
                    content,
                    channels@[i as int].source,
                    Some(Err::<V, ErrorData>(error@)),
                ));
                return Err(error);
            },
            None => {},
        }
        proof {
            lemma_channels_read_next(math, content, channels@, i as int, before, told, raw@);
        }
        i += 1;
    }
    assert(channels@.take(channels@.len() as int) =~= channels@);
    Ok(raw)
}

/// What channels read from the fields of a binary frame.
pub fn read_binary_channels<V: Copy, M: SampleMath<V>>(
    fields: &IdMap<V>,
    channels: &Vec<ChannelSpec<V>>,
    math: &M,
) -> (raw: IdMap<V>)
    requires
        fields.wf(),
    ensures
        raw.wf(),
        channels_read(math, FrameContent::Binary(fields@), channels@, raw@),
{
    let ghost content = FrameContent::Binary(fields@);
    let mut raw: IdMap<V> = IdMap::new();
    let mut i: usize = 0;
    assert(channels@.take(0) =~= Seq::<ChannelSpec<V>>::empty());
    while i < channels.len()
        invariant
            i <= channels@.len(),
            fields.wf(),
            raw.wf(),
            content == FrameContent::Binary(fields@),
            channels_read(math, content, channels@.take(i as int), raw@),
        decreases channels@.len() - i,
    {
        let channel = &channels[i];
        let ghost before = raw@;
        let mut outcome: Option<V> = None;
        if let ChannelSource::BinaryField { field_id } = &channel.source {
            if let Some(value) = fields.get(*field_id) {
                outcome = Some(*value);
            }
        }
        let ghost told = match outcome {
            Some(value) => Some(Ok::<V, ErrorData>(value)),
            None => None,
        };
        assert(channel_reads(math, content, channel.source, told));
        if let Some(value) = outcome {
            raw.insert(channel.id, value);
        }
        proof {
            lemma_channels_read_next(math, content, channels@, i as int, before, told, raw@);
        }
        i += 1;
    }
    assert(channels@.take(channels@.len() as int) =~= channels@);
    raw
}

/// Nothing is read from a frame that channels cannot read.
proof fn lemma_text_reads_nothing<V, M: SampleMath<V>>(math: &M, channels: Seq<ChannelSpec<V>>)
    ensures
        channels_read(math, FrameContent::<V>::Text, channels, Map::empty()),
    decreases channels.len(),
{
    if channels.len() > 0 {
        lemma_text_reads_nothing(math, channels.drop_last());
        let outcome: Option<Result<V, ErrorData>> = None;
        assert(channel_reads(math, FrameContent::<V>::Text, channels.last().source, outcome));
        assert(read_into(
            Map::<Uuid, V>::empty(),
            channels.last().id,
            outcome,
            Map::<Uuid, V>::empty(),
        ));
    }
}

proof fn lemma_any_read_push<V>(channels: Seq<ChannelSpec<V>>, raw: Map<Uuid, V>, i: int)
    requires
        0 <= i < channels.len(),
    ensures
        any_read(channels.take(i + 1), raw) == (any_read(channels.take(i), raw)
            || raw.dom().contains(channels[i].id)),
{
    let shorter = channels.take(i);
    let longer = channels.take(i + 1);
    assert(longer[i] == channels[i]);
    if any_read(shorter, raw) {
        let j = choose|j: int|
            0 <= j < shorter.len() && raw.dom().contains((#[trigger] shorter[j]).id);
        assert(longer[j] == shorter[j]);
    }
    if any_read(longer, raw) {
        let j = choose|j: int|
            0 <= j < longer.len() && raw.dom().contains((#[trigger] longer[j]).id);
        if j < i {
            assert(shorter[j] == longer[j]);
        }
    }
}

/// Takes what was read through the transforms of each channel.
pub fn sample_channels<V: Copy, M: SampleMath<V>>(
    transforms: &mut TransformEngine<V>,
    channels: &Vec<ChannelSpec<V>>,
    raw: &IdMap<V>,
    source_id: Uuid,
    timestamp_ns: i64,
    frame_sequence: u64,
    math: &M,
) -> (samples: Vec<SampleView<V>>)
    requires
        old(transforms).wf(),
        raw.wf(),
    ensures
        final(transforms).wf(),
        final(transforms).last_reset == old(transforms).last_reset,
        final(transforms).warming == (old(transforms).warming && !any_read(channels@, raw@)),
        sampled(
            math,
            source_id,
            timestamp_ns,
            frame_sequence,
            channels@,
            raw@,
            old(transforms).memories(),
            samples@,
            final(transforms).memories(),
        ),
{
    let ghost start = transforms.memories();
    let mut samples: Vec<SampleView<V>> = Vec::new();
    let mut i: usize = 0;
    assert(channels@.take(0) =~= Seq::<ChannelSpec<V>>::empty());
    assert(samples@ =~= Seq::<SampleView<V>>::empty());
    while i < channels.len()
        invariant
            i <= channels@.len(),
            raw.wf(),
            transforms.wf(),
            transforms.last_reset == old(transforms).last_reset,
            transforms.warming == (old(transforms).warming && !any_read(
                channels@.take(i as int),
                raw@,
            )),
            sampled(
                math,
                source_id,
                timestamp_ns,
                frame_sequence,
                channels@.take(i as int),
                raw@,
                start,
                samples@,
                transforms.memories(),
            ),
        decreases channels@.len() - i,
    {
        let channel = &channels[i];
        let ghost before = samples@;
        let ghost held = transforms.memories();
        let ghost longer = channels@.take(i + 1);
        assert(longer.drop_last() =~= channels@.take(i as int));
        assert(longer.last() == *channel);
        proof {
            lemma_any_read_push(channels@, raw@, i as int);
        }
        if let Some(value) = raw.get(channel.id) {
            let result = transforms.apply(
                source_id,
                channel.id,
                channel.transforms.as_slice(),
                *value,
                timestamp_ns,
                math,
            );
            let finite = math.is_finite(result);
            assert(finiteness(math, result, finite));
            if finite {
                samples.push(
                    SampleView {
                        channel_id: channel.id,
                        value: result,
                        monotonic_offset_ns: timestamp_ns,
                        frame_sequence,
                    },
                );
            }
        }
        assert(channel_sampled(
            math,
            source_id,
            timestamp_ns,
            frame_sequence,
            longer.last(),
            raw@,
            held,
            before,
            samples@,
            transforms.memories(),
        ));
        i += 1;
    }
    assert(channels@.take(channels@.len() as int) =~= channels@);
    samples
}

/// Takes chunks through framing, checking, decoding and transforming.
pub struct Pipeline<V> {
    project: Arc<ToolboxProject<V>>,
    framer: Framer,
    transforms: TransformEngine<V>,
    next_frame_sequence: u64,
}

impl<V: Copy> Pipeline<V> {
    /// The project that the pipeline works for.
    pub closed spec fn project(&self) -> ToolboxProject<V> {
        *self.project
    }

    /// What the framer keeps between chunks.
    pub closed spec fn framing(&self) -> FramerState {
        self.framer.state()
    }

    /// What is kept between frames.
    pub closed spec fn state(&self) -> PipelineState<V> {
        PipelineState {
            last_sequence: self.next_frame_sequence,
            memories: self.transforms.memories(),
        }
    }

    /// Why everything was last forgotten.
    pub closed spec fn last_reset(&self) -> Option<ResetReason> {
        self.transforms.last_reset
    }

    /// Whether filters have seen no value since they had to warm up.
    pub closed spec fn warming(&self) -> bool {
        self.transforms.warming
    }

    /// The parts are well formed and belong to the project.
    pub closed spec fn wf(&self) -> bool {
        &&& self.framer.wf()
        &&& self.framer.rule() == self.project.framer@
        &&& self.transforms.wf()
    }

    /// A pipeline for a project, unless its framing rule is invalid.
    pub fn new(project: Arc<ToolboxProject<V>>) -> (result: ToolboxResult<Pipeline<V>>)
        ensures
            match result {
                Ok(pipeline) => {
                    &&& rule_defect(project.framer@) is None
                    &&& pipeline.wf()
                    &&& pipeline.project() == *project
                    &&& pipeline.framing() == FramerState::fresh()
                    &&& pipeline.state() == (PipelineState {
                        last_sequence: 0,
                        memories: Memories::<V>::empty(),
                    })
                    &&& pipeline.last_reset() is None
                    &&& !pipeline.warming()
                },
                Err(error) => {
                    &&& rule_defect(project.framer@) matches Some(message)
                    &&& error@ == failure(
                        ErrorCode::ProjectSchemaInvalid,
                        "pipeline.new"@,
                        "framer_invalid"@,
                    ).because(message)
                },
            },
    {
        match Framer::new((*project.framer).clone()) {
            Ok(framer) => Ok(
                Pipeline {
                    project,
                    framer,
                    transforms: TransformEngine::new(),
                    next_frame_sequence: 0,
                },
            ),
            Err(message) => Err(
                ToolboxError::new(
                    ErrorCode::ProjectSchemaInvalid,
                    "pipeline.new",
                    "framer_invalid",
                ).cause(message),
            ),
        }
    }

    /// Forgets half-received frames and all transform memory, but not the frame
    /// number.
    pub fn reset(&mut self, reason: ResetReason)
        requires
            old(self).wf(),
        ensures
            final(self).wf(),
            final(self).project() == old(self).project(),
            final(self).framing() == FramerState::fresh(),
            final(self).state() == (PipelineState {
                memories: Memories::<V>::empty(),
                ..old(self).state()
            }),
            final(self).last_reset() == Some(reason),
            final(self).warming() == warms_up(reason),
    {
        self.framer.reset();
        self.transforms.reset(reason);
    }

    spec fn decoder(&self) -> DecoderSpec<V> {
        *self.project.decoder
    }

    /// Decodes one frame.
    fn decode_frame<M: SampleMath<V>>(
        &mut self,
        bytes: &[u8],
        source_id: Uuid,
        timestamp_ns: i64,
        frame_sequence: u64,
        math: &M,
    ) -> (result: ToolboxResult<(IdMap<V>, Vec<SampleView<V>>)>)
        requires
            old(self).wf(),
        ensures
            final(self).wf(),
            final(self).project == old(self).project,
            final(self).framer == old(self).framer,
            final(self).next_frame_sequence == old(self).next_frame_sequence,
            final(self).transforms.last_reset == old(self).transforms.last_reset,
            match result {
                Ok((fields, samples)) => {
                    &&& fields.wf()
                    &&& frame_decoded(
                        math,
                        *old(self).project().decoder,
                        old(self).project().channels@,
                        bytes@,
                        source_id,
                        timestamp_ns,
                        frame_sequence,
                        old(self).state().memories,
                        fields@,
                        samples@,
                        final(self).state().memories,
                    )
                    &&& final(self).warming() == (old(self).warming() && !any_fed(
                        *old(self).project().decoder,
                        old(self).project().channels@,
                    ))
                },
                Err(error) => {
                    &&& frame_rejected(
                        math,
                        *old(self).project().decoder,
                        old(self).project().channels@,
                        bytes@,
                        error@,
                    )
                    &&& error@.code == code_text(ErrorCode::ParseFailed)
                    &&& final(self).transforms == old(self).transforms
                },
            },
    {
        let ghost decoder = self.decoder();
        let ghost channels = self.project().channels@;
        let (fields, raw, content): (IdMap<V>, IdMap<V>, Ghost<FrameContent<V>>) =
            match &*self.project.decoder {
            DecoderSpec::Text { .. } => {
                proof {
                    lemma_text_reads_nothing(math, channels);
                }
                (IdMap::new(), IdMap::new(), Ghost(FrameContent::Text))
            },
            DecoderSpec::Csv { delimiter, .. } => {
                let text = match decode_text(bytes) {
                    Ok(text) => text,
                    Err(message) => {
                        return Err(
                            ToolboxError::new(
                                ErrorCode::ParseFailed,
                                "pipeline.csv",
                                "utf8_invalid",
                            ).cause(message),
                        );
                    },
                };
                let ghost content = FrameContent::<V>::Csv(csv_cells(text@, *delimiter));
                assert(frame_readable(
                    math,
                    decoder,
                    bytes@,
                    content,
                    Map::<Uuid, V>::empty(),
                ));
                match read_csv_channels(text.as_str(), *delimiter, &self.project.channels, math) {
                    Ok(raw) => (IdMap::new(), raw, Ghost(content)),
                    Err(error) => {
                        proof {
                            lemma_failure_code(math, content, channels, error@);
                        }
                        return Err(error);
                    },
                }
            },
            DecoderSpec::Json { .. } => {
                let document = match parse_document(bytes) {
                    Ok(document) => document,
                    Err(message) => {
                        return Err(
                            ToolboxError::new(
                                ErrorCode::ParseFailed,
                                "pipeline.json",
                                "json_invalid",
                            ).cause(message),
                        );
                    },
                };
                let ghost content = FrameContent::<V>::Json(json_entries(document));
                assert(frame_readable(
                    math,
                    decoder,
                    bytes@,
                    content,
                    Map::<Uuid, V>::empty(),
                ));
                match read_json_channels(&document, &self.project.channels, math) {
                    Ok(raw) => (IdMap::new(), raw, Ghost(content)),
                    Err(error) => {
                        proof {
                            lemma_failure_code(math, content, channels, error@);
                        }
                        return Err(error);
                    },
                }
            },
            DecoderSpec::Binary { fields: specs, .. } => {
                match decode_fields(bytes, specs, math) {
                    Ok(fields) => {
                        let raw = read_binary_channels(&fields, &self.project.channels, math);
                        let ghost content = FrameContent::Binary(fields@);
                        (fields, raw, Ghost(content))
                    },
                    Err(error) => {
                        return Err(error);
                    },
                }
            },
        };
        assert(frame_readable(math, decoder, bytes@, content@, fields@));
        assert(channels_read(math, content@, channels, raw@));
        proof {
            lemma_fed_channels_read(math, decoder, bytes@, content@, fields@, channels, raw@);
        }
        let samples = sample_channels(
            &mut self.transforms,
            &self.project.channels,
            &raw,
            source_id,
            timestamp_ns,
            frame_sequence,
            math,
        );
        Ok((fields, samples))
    }

    /// Frames the bytes of a chunk and decodes each frame. A chunk after a gap starts
    /// from nothing.
    pub fn process<M: SampleMath<V>>(&mut self, chunk: &RawChunk, math: &M) -> (output:
        PipelineOutput<V>)
        requires
            old(self).wf(),
        ensures
            final(self).wf(),
            final(self).project() == old(self).project(),
            chunk_processed(
                math,
                old(self).project(),
                *chunk,
                old(self).framing(),
                old(self).state(),
                output,
                final(self).framing(),
                final(self).state(),
            ),
            final(self).last_reset() == if chunk.gap_before {
                Some(ResetReason::StreamGap)
            } else {
                old(self).last_reset()
            },
            final(self).warming() == still_warming(
                old(self).project(),
                *chunk,
                old(self).warming(),
                frame_data(output.frames@),
            ),
    {
        if chunk.gap_before {
            self.reset(ResetReason::StreamGap);
        }
        let ghost project = self.project();
        let ghost start = self.state();
        let framed = self.framer.push(chunk.bytes.as_slice());
        let ghost parts = frame_bytes(framed.frames@);
        let ghost framing = self.framing();
        let mut output: PipelineOutput<V> = PipelineOutput {
            frames: Vec::new(),
            samples: Vec::new(),
            oversize_frames: framed.oversize_frames,
            resyncs: framed.resyncs,
            checksum_failures: 0,
            parse_failures: 0,
        };
        let mut i: usize = 0;
        assert(parts.take(0) =~= Seq::<Seq<u8>>::empty());
        assert(frame_data(output.frames@) =~= Seq::<FrameData<V>>::empty());
        assert(output.samples@ =~= Seq::<SampleView<V>>::empty());
        while i < framed.frames.len()
            invariant
                i <= framed.frames@.len(),
                self.wf(),
                self.project() == project,
                self.framing() == framing,
                self.last_reset() == if chunk.gap_before {
                    Some(ResetReason::StreamGap)
                } else {
                    old(self).last_reset()
                },
                project == old(self).project(),
                self.warming() == still_warming(
                    project,
                    *chunk,
                    old(self).warming(),
                    frame_data(output.frames@),
                ),
                parts == frame_bytes(framed.frames@),
                output.oversize_frames == framed.oversize_frames,
                output.resyncs == framed.resyncs,
                output.checksum_failures <= i,
                output.parse_failures <= i,
                frames_processed(
                    math,
                    project,
                    *chunk,
                    parts.take(i as int),
                    start,
                    output_data(output),
                    self.state(),
                ),
            decreases framed.frames@.len() - i,
        {
            let bytes = &framed.frames[i];
            let ghost before = output_data(output);
            let ghost held = self.state();
            let ghost longer = parts.take(i + 1);
            assert(longer.drop_last() =~= parts.take(i as int));
            assert(longer.last() == bytes@);
            let ghost before_frames = output.frames@;
            let ghost before_samples = output.samples@;
            self.next_frame_sequence = self.next_frame_sequence.saturating_add(1);
            let frame_sequence = self.next_frame_sequence;
            let mut frame = FrameView {
                sequence: frame_sequence,
                monotonic_offset_ns: chunk.monotonic_offset_ns,
                direction: chunk.direction,
                bytes: copy_bytes(bytes),
                valid: true,
                error_code: None,
                fields: IdMap::new(),
            };
            let ghost mut fate = FrameFate::Decoded;
            let ghost mut added: Seq<SampleView<V>> = Seq::empty();
            if let Some(spec) = &self.project.checksum {
                if let Err(error) = validate_checksum(bytes.as_slice(), spec) {
                    frame.valid = false;
                    frame.error_code = Some(error.code);
                    output.checksum_failures = output.checksum_failures + 1;
                    proof {
                        fate = FrameFate::ChecksumFailed;
                    }
                }
            }
            if frame.valid {
                match self.decode_frame(
                    bytes.as_slice(),
                    chunk.source_id,
                    chunk.monotonic_offset_ns,
                    frame_sequence,
                    math,
                ) {
                    Ok((fields, samples)) => {
                        frame.fields = fields;
                        let mut samples = samples;
                        proof {
                            added = samples@;
                        }
                        output.samples.append(&mut samples);
                    },
                    Err(error) => {
                        frame.valid = false;
                        frame.error_code = Some(error.code);
                        output.parse_failures = output.parse_failures + 1;
                        proof {
                            fate = FrameFate::ParseFailed;
                        }
                    },
                }
            }
            let ghost shown = frame@;
            output.frames.push(frame);
            proof {
                assert(output.samples@ =~= before_samples + added);
                assert(frame_data(output.frames@) =~= frame_data(before_frames).push(shown));
                lemma_any_valid_push(frame_data(before_frames), shown);
                assert(frame_processed(
                    math,
                    project,
                    *chunk,
                    longer.last(),
                    next_sequence(held.last_sequence),
                    held.memories,
                    fate,
                    shown,
                    added,
                    self.state().memories,
                ));
                assert(output_data(output) =~= with_frame(before, fate, shown, added));
            }
            i += 1;
        }
        assert(parts.take(parts.len() as int) =~= parts);
        output
    }
}

/// Whether any frame is valid.
pub open spec fn any_valid<V>(frames: Seq<FrameData<V>>) -> bool {
    exists|i: int| 0 <= i < frames.len() && (#[trigger] frames[i]).valid
}

proof fn lemma_any_valid_push<V>(frames: Seq<FrameData<V>>, frame: FrameData<V>)
    ensures
        any_valid(frames.push(frame)) == (any_valid(frames) || frame.valid),
{
    let longer = frames.push(frame);
    assert(longer[frames.len() as int] == frame);
    if any_valid(frames) {
        let i = choose|i: int| 0 <= i < frames.len() && (#[trigger] frames[i]).valid;
        assert(longer[i] == frames[i]);
    }
    if any_valid(longer) {
        let i = choose|i: int| 0 <= i < longer.len() && (#[trigger] longer[i]).valid;
        if i < frames.len() {
            assert(frames[i] == longer[i]);
        }
    }
}

/// Whether filters are still to warm up after a chunk: they were before it or it comes
/// after a gap, and no valid frame of it had a value for any channel.
pub open spec fn still_warming<V>(
    project: ToolboxProject<V>,
    chunk: RawChunk,
    warming: bool,
    frames: Seq<FrameData<V>>,
) -> bool {
    &&& chunk.gap_before || warming
    &&& !(any_valid(frames) && any_fed(*project.decoder, project.channels@))
}

/// What came of the frames of an output.
pub open spec fn output_data<V>(output: PipelineOutput<V>) -> FramesOutcome<V> {
    FramesOutcome {
        frames: frame_data(output.frames@),
        samples: output.samples@,
        checksum_failures: output.checksum_failures as nat,
        parse_failures: output.parse_failures as nat,
    }
}

/// What comes of a chunk: its bytes follow what was kept of earlier ones, unless it
/// comes after a gap, and every frame that they complete is processed in order.
pub open spec fn chunk_processed<V, M: SampleMath<V>>(
    math: &M,
    project: ToolboxProject<V>,
    chunk: RawChunk,
    framing: FramerState,
    state: PipelineState<V>,
    output: PipelineOutput<V>,
    framing_after: FramerState,
    after: PipelineState<V>,
) -> bool {
    let framing = if chunk.gap_before {
        FramerState::fresh()
    } else {
        framing
    };
    let state = if chunk.gap_before {
        PipelineState { memories: Memories::<V>::empty(), ..state }
    } else {
        state
    };
    let result = drained(project.framer@, framing.receive(chunk.bytes@));
    &&& framing_after == result.rest
    &&& output.oversize_frames == result.oversize
    &&& output.resyncs == result.resyncs
    &&& frames_processed(
        math,
        project,
        chunk,
        result.frames,
        state,
        output_data(output),
        after,
    )
}

/// A channel that cannot read what it should reports a parse failure.
proof fn lemma_failure_code<V, M: SampleMath<V>>(
    math: &M,
    content: FrameContent<V>,
    channels: Seq<ChannelSpec<V>>,
    error: ErrorData,
)
    requires
        channels_failed(math, content, channels, error),
    ensures
        error.code == code_text(ErrorCode::ParseFailed),
{
}

/// After a gap nothing earlier matters: neither half-received bytes nor what
/// transforms remembered. Only the frame numbers go on.
pub proof fn law_a_gap_forgets_everything<V, M: SampleMath<V>>(
    math: &M,
    project: ToolboxProject<V>,
    chunk: RawChunk,
    left_framing: FramerState,
    left: PipelineState<V>,
    right_framing: FramerState,
    right: PipelineState<V>,
    output: PipelineOutput<V>,
    framing_after: FramerState,
    after: PipelineState<V>,
)
    requires
        chunk.gap_before,
        left.last_sequence == right.last_sequence,
    ensures
        chunk_processed(
            math,
            project,
            chunk,
            left_framing,
            left,
            output,
            framing_after,
            after,
        ) == chunk_processed(
            math,
            project,
            chunk,
            right_framing,
            right,
            output,
            framing_after,
            after,
        ),
{
    assert(PipelineState { memories: Memories::<V>::empty(), ..left } =~= PipelineState {
        memories: Memories::<V>::empty(),
        ..right
    });
}

/// The number of the `count`-th frame after some frame number.
pub open spec fn numbered(last_sequence: u64, count: nat) -> u64
    decreases count,
{
    if count == 0 {
        last_sequence
    } else {
        next_sequence(numbered(last_sequence, (count - 1) as nat))
    }
}

/// How many of these frames are not valid.
pub open spec fn invalid_frames<V>(frames: Seq<FrameData<V>>) -> nat
    decreases frames.len(),
{
    if frames.len() == 0 {
        0
    } else {
        invalid_frames(frames.drop_last()) + if frames.last().valid {
            0nat
        } else {
            1nat
        }
    }
}

/// Every frame is shown once, in the order of the stream and with consecutive
/// numbers, and every frame that is not valid is counted as exactly one failure.
pub proof fn law_every_frame_is_accounted_for<V, M: SampleMath<V>>(
    math: &M,
    project: ToolboxProject<V>,
    chunk: RawChunk,
    frames: Seq<Seq<u8>>,
    state: PipelineState<V>,
    outcome: FramesOutcome<V>,
    after: PipelineState<V>,
)
    requires
        frames_processed(math, project, chunk, frames, state, outcome, after),
    ensures
        outcome.frames.len() == frames.len(),
        forall|i: int|
            0 <= i < frames.len() ==> {
                &&& (#[trigger] outcome.frames[i]).bytes == frames[i]
                &&& outcome.frames[i].sequence == numbered(state.last_sequence, (i + 1) as nat)
            },
        after.last_sequence == numbered(state.last_sequence, frames.len()),
        outcome.checksum_failures + outcome.parse_failures == invalid_frames(outcome.frames),
    decreases frames.len(),
{
    if frames.len() > 0 {
        let (before, held, fate, frame, samples) = choose|
            before: FramesOutcome<V>,
            held: PipelineState<V>,
            fate: FrameFate,
            frame: FrameData<V>,
            samples: Seq<SampleView<V>>,
        |
            {
                &&& frames_processed(
                    math,
                    project,
                    chunk,
                    frames.drop_last(),
                    state,
                    before,
                    held,
                )
                &&& #[trigger] frame_processed(
                    math,
                    project,
                    chunk,
                    frames.last(),
                    next_sequence(held.last_sequence),
                    held.memories,
                    fate,
                    frame,
                    samples,
                    after.memories,
                )
                &&& after.last_sequence == next_sequence(held.last_sequence)
                &&& outcome == #[trigger] with_frame(before, fate, frame, samples)
            };
        law_every_frame_is_accounted_for(
            math,
            project,
            chunk,
            frames.drop_last(),
            state,
            before,
            held,
        );
        assert(outcome.frames.drop_last() =~= before.frames);
        assert forall|i: int| 0 <= i < frames.len() implies {
            &&& (#[trigger] outcome.frames[i]).bytes == frames[i]
            &&& outcome.frames[i].sequence == numbered(state.last_sequence, (i + 1) as nat)
        } by {
            if i < frames.len() - 1 {
                assert(outcome.frames[i] == before.frames[i]);
                assert(frames[i] == frames.drop_last()[i]);
            }
        }
    }
}

} // verus!
