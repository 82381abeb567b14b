use embedded_toolbox::checksum::{calculate, validate_checksum};
use embedded_toolbox::error::ErrorCode;
use embedded_toolbox::ident::Uuid;
use embedded_toolbox::model::{ByteOrder, ChecksumAlgorithm, ChecksumSpec};

fn spec(algorithm: ChecksumAlgorithm, len: usize, stored_width: usize) -> ChecksumSpec {
    ChecksumSpec {
        id: Uuid::nil(),
        algorithm,
        start_offset: 0,
        end_offset_exclusive: len,
        stored_offset: len,
        stored_width,
        byte_order: ByteOrder::Little,
    }
}

#[test]
fn standard_crc_vectors_match() {
    let bytes = b"123456789";
    assert_eq!(calculate(ChecksumAlgorithm::Crc8, bytes), 0xf4);
    assert_eq!(calculate(ChecksumAlgorithm::Crc16Modbus, bytes), 0x4b37);
    assert_eq!(calculate(ChecksumAlgorithm::Crc16Ccitt, bytes), 0x29b1);
    assert_eq!(calculate(ChecksumAlgorithm::Crc32, bytes), 0xcbf4_3926);
}

#[test]
fn simple_sums_match() {
    assert_eq!(calculate(ChecksumAlgorithm::Xor8, &[0xf0, 0x0f, 0x01]), 0xfe);
    assert_eq!(calculate(ChecksumAlgorithm::Sum8, &[0xff, 0x02]), 0x01);
    assert_eq!(calculate(ChecksumAlgorithm::Xor8, &[]), 0);
}

#[test]
fn stored_checksums_are_compared() {
    let mut frame = b"123456789".to_vec();
    frame.extend(0x4b37u16.to_le_bytes());
    let little = spec(ChecksumAlgorithm::Crc16Modbus, 9, 2);
    assert!(validate_checksum(&frame, &little).is_ok());
    let big = ChecksumSpec { byte_order: ByteOrder::Big, ..little };
    let error = validate_checksum(&frame, &big).unwrap_err();
    assert_eq!(error.code, ErrorCode::ChecksumMismatch.as_str());
    assert_eq!(error.message_key, "checksum_mismatch");
}

#[test]
fn a_narrow_field_holds_the_low_bytes() {
    let mut frame = b"123456789".to_vec();
    frame.push(0x26);
    assert!(validate_checksum(&frame, &spec(ChecksumAlgorithm::Crc32, 9, 1)).is_ok());
}

#[test]
fn every_changed_byte_is_noticed() {
    let data = b"telemetry".to_vec();
    for algorithm in [
        ChecksumAlgorithm::Xor8,
        ChecksumAlgorithm::Sum8,
        ChecksumAlgorithm::Crc8,
        ChecksumAlgorithm::Crc16Modbus,
        ChecksumAlgorithm::Crc16Ccitt,
        ChecksumAlgorithm::Crc32,
    ] {
        for i in 0..data.len() {
            let mut changed = data.clone();
            changed[i] = changed[i].wrapping_add(0x51);
            assert_ne!(calculate(algorithm, &data), calculate(algorithm, &changed));
        }
    }
}

#[test]
fn impossible_ranges_are_refused() {
    let frame = [0u8; 8];
    let outside = spec(ChecksumAlgorithm::Crc8, 8, 1);
    let error = validate_checksum(&frame, &outside).unwrap_err();
    assert_eq!(error.code, ErrorCode::ProjectSchemaInvalid.as_str());
    assert_eq!(error.message_key, "checksum_range_invalid");
    let reversed = ChecksumSpec { start_offset: 3, end_offset_exclusive: 2, ..outside };
    assert_eq!(
        validate_checksum(&frame, &reversed).unwrap_err().message_key,
        "checksum_range_invalid"
    );
    let odd = spec(ChecksumAlgorithm::Crc8, 2, 3);
    assert_eq!(
        validate_checksum(&frame, &odd).unwrap_err().message_key,
        "checksum_width_invalid"
    );
}
