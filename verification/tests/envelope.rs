use embedded_toolbox::envelope::{
    encode, encode_raw_payload, EnvelopeMeta, PayloadType, ENVELOPE_VERSION,
};
use embedded_toolbox::ident::Uuid;
use embedded_toolbox::model::Direction;

fn meta(payload_version: u16) -> EnvelopeMeta {
    EnvelopeMeta {
        payload_type: PayloadType::RawBatch,
        payload_version,
        source_id: Uuid::nil(),
        source_epoch: 2,
        sequence: 3,
        monotonic_offset_ns: 4,
    }
}

#[test]
fn envelope_and_payload_versions_are_independent() {
    let bytes = encode(meta(7), b"abc");
    assert_eq!(&bytes[..4], b"ETBX");
    assert_eq!(u16::from_le_bytes([bytes[4], bytes[5]]), ENVELOPE_VERSION);
    assert_eq!(u16::from_le_bytes([bytes[8], bytes[9]]), 7);
}

#[test]
fn envelope_layout_is_exact() {
    let id = Uuid { value: 0x0011_2233_4455_6677_8899_aabb_ccdd_eeff };
    let bytes = encode(
        EnvelopeMeta {
            payload_type: PayloadType::SampleBatch,
            payload_version: 0x0201,
            source_id: id,
            source_epoch: 0x0102_0304,
            sequence: 5,
            monotonic_offset_ns: -2,
        },
        b"abc",
    );
    assert_eq!(bytes.len(), 56 + 3);
    assert_eq!(bytes[6..8], PayloadType::SampleBatch.code().to_le_bytes());
    assert_eq!(bytes[8..10], [0x01, 0x02]);
    assert_eq!(
        bytes[12..28],
        [
            0x00, 0x11, 0x22, 0x33, 0x44, 0x55, 0x66, 0x77, 0x88, 0x99, 0xaa, 0xbb, 0xcc, 0xdd,
            0xee, 0xff
        ]
    );
    assert_eq!(bytes[28..36], 0x0102_0304u64.to_le_bytes());
    assert_eq!(bytes[36..44], 5u64.to_le_bytes());
    assert_eq!(bytes[44..52], (-2i64).to_le_bytes());
    assert_eq!(bytes[52..56], 3u32.to_le_bytes());
    assert_eq!(&bytes[56..], b"abc");
}

#[test]
fn payload_types_have_distinct_codes() {
    let codes = [
        PayloadType::RawBatch.code(),
        PayloadType::PacketBatch.code(),
        PayloadType::SampleBatch.code(),
        PayloadType::DiagnosticBatch.code(),
    ];
    assert_eq!(codes, [1, 2, 3, 4]);
}

#[test]
fn different_payload_versions_give_different_envelopes() {
    assert_ne!(encode(meta(1), b"abc"), encode(meta(2), b"abc"));
}

#[test]
fn raw_payload_says_direction_and_number() {
    let rx = encode_raw_payload(Direction::Rx, 9, b"xy");
    let tx = encode_raw_payload(Direction::Tx, 9, b"xy");
    assert_ne!(rx[0], tx[0]);
    assert_eq!(rx[1..], tx[1..]);
    assert!(rx.ends_with(b"xy"));
    assert_ne!(encode_raw_payload(Direction::Rx, 10, b"xy"), rx);
}
