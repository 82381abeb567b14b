//! The binary envelope around everything that is streamed to the user interface.

use crate::ident::{uuid_bytes, Uuid};
use crate::model::{ByteOrder, Direction};
use crate::numeral::{
    append_little_endian, lemma_span_values, lemma_spelled, lemma_spelled_injective, little_endian,
    span, spelled,
};
use crate::pipeline_laws::{lemma_weighed, weighed};
use vstd::prelude::*;

verus! {

pub const ENVELOPE_VERSION: u16 = 1;

/// The bytes before the payload.
pub const HEADER_BYTES: usize = 56;

/// What a payload holds.
#[derive(Debug, Clone, Copy, PartialEq, Eq, Structural)]
pub enum PayloadType {
    RawBatch,
    PacketBatch,
    SampleBatch,
    DiagnosticBatch,
}

/// The number that stands for a payload type on the wire.
pub open spec fn payload_code(payload_type: PayloadType) -> u16 {
    match payload_type {
        PayloadType::RawBatch => 1,
        PayloadType::PacketBatch => 2,
        PayloadType::SampleBatch => 3,
        PayloadType::DiagnosticBatch => 4,
    }
}

impl PayloadType {
    /// The number that stands for the payload type on the wire.
    pub fn code(self) -> (code: u16)
        ensures
            code == payload_code(self),
    {
        match self {
            PayloadType::RawBatch => 1,
            PayloadType::PacketBatch => 2,
            PayloadType::SampleBatch => 3,
            PayloadType::DiagnosticBatch => 4,
        }
    }
}

/// What an envelope says of its payload.
#[derive(Debug, Clone, Copy, PartialEq, Eq, Structural)]
pub struct EnvelopeMeta {
    pub payload_type: PayloadType,
    pub payload_version: u16,
    pub source_id: Uuid,
    pub source_epoch: u64,
    pub sequence: u64,
    pub monotonic_offset_ns: i64,
}

/// The bytes `ETBX`.
pub open spec fn magic() -> Seq<u8> {
    seq![0x45u8, 0x54u8, 0x42u8, 0x58u8]
}

/// A signed number as the unsigned number of the same eight bytes.
pub open spec fn as_unsigned(value: i64) -> nat {
    if value < 0 {
        (value + 0x1_0000_0000_0000_0000) as nat
    } else {
        value as nat
    }
}

/// The fifty-six bytes before a payload of some length.
pub open spec fn envelope_header(meta: EnvelopeMeta, payload_len: nat) -> Seq<u8> {
    magic() + spelled(ENVELOPE_VERSION as nat, 2) + spelled(payload_code(meta.payload_type) as nat, 2)
        + spelled(meta.payload_version as nat, 2) + spelled(0, 2) + uuid_bytes(meta.source_id.value)
        + spelled(meta.source_epoch as nat, 8) + spelled(meta.sequence as nat, 8) + spelled(
        as_unsigned(meta.monotonic_offset_ns),
        8,
    ) + spelled(payload_len, 4)
}

/// An envelope with its payload.
pub open spec fn envelope_bytes(meta: EnvelopeMeta, payload: Seq<u8>) -> Seq<u8> {
    envelope_header(meta, payload.len()) + payload
}

/// The number of a direction on the wire.
pub open spec fn direction_code(direction: Direction) -> u8 {
    match direction {
        Direction::Rx => 0,
        Direction::Tx => 1,
    }
}

/// A raw chunk as a payload.
pub open spec fn raw_payload(direction: Direction, sequence: u64, bytes: Seq<u8>) -> Seq<u8> {
    seq![direction_code(direction)] + spelled(sequence as nat, 8) + spelled(bytes.len(), 4) + bytes
}

/// A signed number as the unsigned number of the same eight bytes.
fn unsigned_of(value: i64) -> (number: u64)
    ensures
        number == as_unsigned(value),
{
    let number = value as u64;
    assert(number == if value < 0 {
        value + 0x1_0000_0000_0000_0000
    } else {
        value as int
    }) by (bit_vector)
        requires
            number == value as u64,
    ;
    number
}

/// Puts a payload into its envelope.
pub fn encode(meta: EnvelopeMeta, payload: &[u8]) -> (bytes: Vec<u8>)
    ensures
        bytes@ == envelope_bytes(meta, payload@),
{
    let mut bytes: Vec<u8> = Vec::new();
    bytes.push(0x45);
    bytes.push(0x54);
    bytes.push(0x42);
    bytes.push(0x58);
    assert(bytes@ =~= magic());
    append_little_endian(&mut bytes, ENVELOPE_VERSION as u64, 2);
    append_little_endian(&mut bytes, meta.payload_type.code() as u64, 2);
    append_little_endian(&mut bytes, meta.payload_version as u64, 2);
    append_little_endian(&mut bytes, 0, 2);
    let source = meta.source_id.to_bytes();
    bytes.extend_from_slice(source.as_slice());
    append_little_endian(&mut bytes, meta.source_epoch, 8);
    append_little_endian(&mut bytes, meta.sequence, 8);
    append_little_endian(&mut bytes, unsigned_of(meta.monotonic_offset_ns), 8);
    append_little_endian(&mut bytes, payload.len() as u64, 4);
    bytes.extend_from_slice(payload);
    assert(bytes@ =~= envelope_bytes(meta, payload@));
    bytes
}

/// Writes a raw chunk as a payload.
pub fn encode_raw_payload(direction: Direction, chunk_sequence: u64, bytes: &[u8]) -> (payload: Vec<
    u8,
>)
    ensures
        payload@ == raw_payload(direction, chunk_sequence, bytes@),
{
    let mut payload: Vec<u8> = Vec::new();
    payload.push(
        match direction {
            Direction::Rx => 0,
            Direction::Tx => 1,
        },
    );
    assert(payload@ =~= seq![direction_code(direction)]);
    append_little_endian(&mut payload, chunk_sequence, 8);
    append_little_endian(&mut payload, bytes.len() as u64, 4);
    payload.extend_from_slice(bytes);
    assert(payload@ =~= raw_payload(direction, chunk_sequence, bytes@));
    payload
}

/// Equal bytes at one place.
proof fn lemma_uuid_byte(a: u128, b: u128, i: int)
    requires
        0 <= i < 16,
        uuid_bytes(a)[i] == uuid_bytes(b)[i],
    ensures
        (a >> ((120 - 8 * i) as u128)) & 0xff == (b >> ((120 - 8 * i) as u128)) & 0xff,
{
    let m = a >> ((120 - 8 * i) as u128);
    let n = b >> ((120 - 8 * i) as u128);
    assert(m & 0xff <= 0xff && n & 0xff <= 0xff) by (bit_vector);
}

/// Identifiers are told apart by their bytes.
proof fn lemma_uuid_bytes_injective(a: u128, b: u128)
    requires
        uuid_bytes(a) == uuid_bytes(b),
    ensures
        a == b,
{
    lemma_uuid_byte(a, b, 0);
    lemma_uuid_byte(a, b, 1);
    lemma_uuid_byte(a, b, 2);
    lemma_uuid_byte(a, b, 3);
    lemma_uuid_byte(a, b, 4);
    lemma_uuid_byte(a, b, 5);
    lemma_uuid_byte(a, b, 6);
    lemma_uuid_byte(a, b, 7);
    lemma_uuid_byte(a, b, 8);
    lemma_uuid_byte(a, b, 9);
    lemma_uuid_byte(a, b, 10);
    lemma_uuid_byte(a, b, 11);
    lemma_uuid_byte(a, b, 12);
    lemma_uuid_byte(a, b, 13);
    lemma_uuid_byte(a, b, 14);
    lemma_uuid_byte(a, b, 15);
    assert(a == b) by (bit_vector)
        requires
            (a >> 120u128) & 0xff == (b >> 120u128) & 0xff,
            (a >> 112u128) & 0xff == (b >> 112u128) & 0xff,
            (a >> 104u128) & 0xff == (b >> 104u128) & 0xff,
            (a >> 96u128) & 0xff == (b >> 96u128) & 0xff,
            (a >> 88u128) & 0xff == (b >> 88u128) & 0xff,
            (a >> 80u128) & 0xff == (b >> 80u128) & 0xff,
            (a >> 72u128) & 0xff == (b >> 72u128) & 0xff,
            (a >> 64u128) & 0xff == (b >> 64u128) & 0xff,
            (a >> 56u128) & 0xff == (b >> 56u128) & 0xff,
            (a >> 48u128) & 0xff == (b >> 48u128) & 0xff,
            (a >> 40u128) & 0xff == (b >> 40u128) & 0xff,
            (a >> 32u128) & 0xff == (b >> 32u128) & 0xff,
            (a >> 24u128) & 0xff == (b >> 24u128) & 0xff,
            (a >> 16u128) & 0xff == (b >> 16u128) & 0xff,
            (a >> 8u128) & 0xff == (b >> 8u128) & 0xff,
            (a >> 0u128) & 0xff == (b >> 0u128) & 0xff,
    ;
}

/// Where each part of an envelope stands.
pub proof fn lemma_envelope_layout(meta: EnvelopeMeta, payload: Seq<u8>)
    ensures
        ({
            let bytes = envelope_bytes(meta, payload);
            &&& bytes.len() == HEADER_BYTES + payload.len()
            &&& bytes.subrange(0, 4) == magic()
            &&& bytes.subrange(4, 6) == spelled(ENVELOPE_VERSION as nat, 2)
            &&& bytes.subrange(6, 8) == spelled(payload_code(meta.payload_type) as nat, 2)
            &&& bytes.subrange(8, 10) == spelled(meta.payload_version as nat, 2)
            &&& bytes.subrange(10, 12) == spelled(0, 2)
            &&& bytes.subrange(12, 28) == uuid_bytes(meta.source_id.value)
            &&& bytes.subrange(28, 36) == spelled(meta.source_epoch as nat, 8)
            &&& bytes.subrange(36, 44) == spelled(meta.sequence as nat, 8)
            &&& bytes.subrange(44, 52) == spelled(as_unsigned(meta.monotonic_offset_ns), 8)
            &&& bytes.subrange(52, 56) == spelled(payload.len(), 4)
            &&& bytes.skip(56) == payload
        }),
{
    let bytes = envelope_bytes(meta, payload);
    lemma_spelled(ENVELOPE_VERSION as nat, 2);
    lemma_spelled(payload_code(meta.payload_type) as nat, 2);
    lemma_spelled(meta.payload_version as nat, 2);
    lemma_spelled(0, 2);
    lemma_spelled(meta.source_epoch as nat, 8);
    lemma_spelled(meta.sequence as nat, 8);
    lemma_spelled(as_unsigned(meta.monotonic_offset_ns), 8);
    lemma_spelled(payload.len(), 4);
    assert(bytes.subrange(0, 4) =~= magic());
    assert(bytes.subrange(4, 6) =~= spelled(ENVELOPE_VERSION as nat, 2));
    assert(bytes.subrange(6, 8) =~= spelled(payload_code(meta.payload_type) as nat, 2));
    assert(bytes.subrange(8, 10) =~= spelled(meta.payload_version as nat, 2));
    assert(bytes.subrange(10, 12) =~= spelled(0, 2));
    assert(bytes.subrange(12, 28) =~= uuid_bytes(meta.source_id.value));
    assert(bytes.subrange(28, 36) =~= spelled(meta.source_epoch as nat, 8));
    assert(bytes.subrange(36, 44) =~= spelled(meta.sequence as nat, 8));
    assert(bytes.subrange(44, 52) =~= spelled(as_unsigned(meta.monotonic_offset_ns), 8));
    assert(bytes.subrange(52, 56) =~= spelled(payload.len(), 4));
    assert(bytes.skip(56) =~= payload);
}

/// An envelope can be read back: equal bytes mean the same description and the
/// same payload.
pub proof fn law_envelopes_are_unambiguous(
    left: EnvelopeMeta,
    left_payload: Seq<u8>,
    right: EnvelopeMeta,
    right_payload: Seq<u8>,
)
    requires
        envelope_bytes(left, left_payload) == envelope_bytes(right, right_payload),
    ensures
        left == right,
        left_payload == right_payload,
{
    lemma_envelope_layout(left, left_payload);
    lemma_envelope_layout(right, right_payload);
    lemma_span_values();
    lemma_spelled_injective(
        payload_code(left.payload_type) as nat,
        payload_code(right.payload_type) as nat,
        2,
    );
    lemma_spelled_injective(left.payload_version as nat, right.payload_version as nat, 2);
    lemma_spelled_injective(left.source_epoch as nat, right.source_epoch as nat, 8);
    lemma_spelled_injective(left.sequence as nat, right.sequence as nat, 8);
    lemma_spelled_injective(
        as_unsigned(left.monotonic_offset_ns),
        as_unsigned(right.monotonic_offset_ns),
        8,
    );
    lemma_uuid_bytes_injective(left.source_id.value, right.source_id.value);
}

/// The version of the envelope is read without regard to the payload, and the
/// version of the payload without regard to the envelope's own.
pub proof fn law_versions_are_independent(meta: EnvelopeMeta, payload: Seq<u8>)
    ensures
        envelope_bytes(meta, payload).subrange(0, 4) == magic(),
        little_endian(envelope_bytes(meta, payload).subrange(4, 6)) == ENVELOPE_VERSION,
        little_endian(envelope_bytes(meta, payload).subrange(8, 10)) == meta.payload_version,
{
    lemma_envelope_layout(meta, payload);
    lemma_span_values();
    lemma_spelled(ENVELOPE_VERSION as nat, 2);
    lemma_spelled(meta.payload_version as nat, 2);
}

/// The length that an envelope states is the length of its payload, for every
/// payload below four gibibytes.
pub proof fn law_envelope_states_the_payload_length(meta: EnvelopeMeta, payload: Seq<u8>)
    requires
        payload.len() < span(4),
    ensures
        little_endian(envelope_bytes(meta, payload).subrange(52, 56)) == payload.len(),
        envelope_bytes(meta, payload).len() == HEADER_BYTES + payload.len(),
{
    lemma_envelope_layout(meta, payload);
    lemma_spelled(payload.len(), 4);
}

/// A raw payload can be read back: equal bytes mean the same chunk.
pub proof fn law_raw_payloads_are_unambiguous(
    left: Direction,
    left_sequence: u64,
    left_bytes: Seq<u8>,
    right: Direction,
    right_sequence: u64,
    right_bytes: Seq<u8>,
)
    requires
        raw_payload(left, left_sequence, left_bytes) == raw_payload(
            right,
            right_sequence,
            right_bytes,
        ),
    ensures
        left == right,
        left_sequence == right_sequence,
        left_bytes == right_bytes,
{
    let x = raw_payload(left, left_sequence, left_bytes);
    let y = raw_payload(right, right_sequence, right_bytes);
    lemma_span_values();
    lemma_spelled(left_sequence as nat, 8);
    lemma_spelled(right_sequence as nat, 8);
    lemma_spelled(left_bytes.len(), 4);
    lemma_spelled(right_bytes.len(), 4);
    assert(x[0] == direction_code(left));
    assert(y[0] == direction_code(right));
    assert(x.subrange(1, 9) =~= spelled(left_sequence as nat, 8));
    assert(y.subrange(1, 9) =~= spelled(right_sequence as nat, 8));
    lemma_spelled_injective(left_sequence as nat, right_sequence as nat, 8);
    assert(x.skip(13) =~= left_bytes);
    assert(y.skip(13) =~= right_bytes);
}

/// An envelope can be taken apart: behind its mark, every number stands at its place, least
/// significant byte first, and then the payload. Negative times are written as the number
/// that is larger by two to the sixty-fourth power.
pub proof fn law_an_envelope_can_be_taken_apart(meta: EnvelopeMeta, payload: &[u8], bytes: Vec<u8>)
    requires
        call_ensures(encode, (meta, payload), bytes),
    ensures
        bytes@.len() == 56 + payload@.len(),
        bytes@[0] == 'E' as u8,
        bytes@[1] == 'T' as u8,
        bytes@[2] == 'B' as u8,
        bytes@[3] == 'X' as u8,
        weighed(bytes@, 4, 2, ByteOrder::Little) == 1,
        weighed(bytes@, 6, 2, ByteOrder::Little) == match meta.payload_type {
            PayloadType::RawBatch => 1int,
            PayloadType::PacketBatch => 2,
            PayloadType::SampleBatch => 3,
            PayloadType::DiagnosticBatch => 4,
        },
        weighed(bytes@, 8, 2, ByteOrder::Little) == meta.payload_version,
        weighed(bytes@, 10, 2, ByteOrder::Little) == 0,
        forall|i: int|
            0 <= i < 16 ==> #[trigger] bytes@[12 + i] == ((meta.source_id.value >> ((120 - 8
                * i) as u128)) & 0xff) as u8,
        weighed(bytes@, 28, 8, ByteOrder::Little) == meta.source_epoch,
        weighed(bytes@, 36, 8, ByteOrder::Little) == meta.sequence,
        weighed(bytes@, 44, 8, ByteOrder::Little) == if meta.monotonic_offset_ns < 0 {
            meta.monotonic_offset_ns + 0x1_0000_0000_0000_0000
        } else {
            meta.monotonic_offset_ns as int
        },
        payload@.len() < 0x1_0000_0000 ==> weighed(bytes@, 52, 4, ByteOrder::Little)
            == payload@.len(),
        bytes@.skip(56) == payload@,
{
    let content = payload@;
    lemma_envelope_layout(meta, content);
    lemma_span_values();
    lemma_spelled(ENVELOPE_VERSION as nat, 2);
    lemma_spelled(payload_code(meta.payload_type) as nat, 2);
    lemma_spelled(meta.payload_version as nat, 2);
    lemma_spelled(0, 2);
    lemma_spelled(meta.source_epoch as nat, 8);
    lemma_spelled(meta.sequence as nat, 8);
    lemma_spelled(as_unsigned(meta.monotonic_offset_ns), 8);
    lemma_spelled(content.len(), 4);
    lemma_weighed(bytes@, 4, 2, ByteOrder::Little);
    lemma_weighed(bytes@, 6, 2, ByteOrder::Little);
    lemma_weighed(bytes@, 8, 2, ByteOrder::Little);
    lemma_weighed(bytes@, 10, 2, ByteOrder::Little);
    lemma_weighed(bytes@, 28, 8, ByteOrder::Little);
    lemma_weighed(bytes@, 36, 8, ByteOrder::Little);
    lemma_weighed(bytes@, 44, 8, ByteOrder::Little);
    lemma_weighed(bytes@, 52, 4, ByteOrder::Little);
    let mark = bytes@.subrange(0, 4);
    assert(mark[0] == bytes@[0] && mark[1] == bytes@[1] && mark[2] == bytes@[2] && mark[3]
        == bytes@[3]);
    let id = bytes@.subrange(12, 28);
    assert forall|i: int| 0 <= i < 16 implies #[trigger] bytes@[12 + i] == ((meta.source_id.value
        >> ((120 - 8 * i) as u128)) & 0xff) as u8 by {
        assert(id[i] == bytes@[12 + i]);
    }
}

/// The payload of a raw chunk can be taken apart: a zero for bytes that came or a one for
/// bytes that went, the number of the chunk, how many bytes there are, and the bytes.
pub proof fn law_a_raw_payload_can_be_taken_apart(
    direction: Direction,
    sequence: u64,
    bytes: &[u8],
    payload: Vec<u8>,
)
    requires
        call_ensures(encode_raw_payload, (direction, sequence, bytes), payload),
    ensures
        payload@.len() == 13 + bytes@.len(),
        payload@[0] == match direction {
            Direction::Rx => 0u8,
            Direction::Tx => 1u8,
        },
        weighed(payload@, 1, 8, ByteOrder::Little) == sequence,
        bytes@.len() < 0x1_0000_0000 ==> weighed(payload@, 9, 4, ByteOrder::Little) == bytes@.len(),
        payload@.skip(13) == bytes@,
{
    let content = bytes@;
    lemma_span_values();
    lemma_spelled(sequence as nat, 8);
    lemma_spelled(content.len(), 4);
    assert(payload@.subrange(1, 9) =~= spelled(sequence as nat, 8));
    assert(payload@.subrange(9, 13) =~= spelled(content.len(), 4));
    assert(payload@.skip(13) =~= content);
    lemma_weighed(payload@, 1, 8, ByteOrder::Little);
    lemma_weighed(payload@, 9, 4, ByteOrder::Little);
}

} // verus!
