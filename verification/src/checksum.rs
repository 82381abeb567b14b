//! Frame checksums.

use crate::error::{code_text, failure, ContextData, ContextValue, ErrorCode, ErrorData, ToolboxError, ToolboxResult};
use crate::model::{ChecksumAlgorithm, ChecksumSpec};
use crate::framer_laws::{field_number, lemma_field_value};
use crate::numeral::{lemma_span_values, lemma_unsigned_bound, read_unsigned, span, unsigned};
use vstd::prelude::*;
use vstd::slice::slice_subrange;

verus! {

/// The exclusive-or of all bytes.
pub open spec fn xor8_of(data: Seq<u8>) -> u8
    decreases data.len(),
{
    if data.len() == 0 {
        0
    } else {
        xor8_of(data.drop_last()) ^ data.last()
    }
}

/// The sum of all bytes.
pub open spec fn total(data: Seq<u8>) -> nat
    decreases data.len(),
{
    if data.len() == 0 {
        0
    } else {
        total(data.drop_last()) + data.last() as nat
    }
}

/// One division step of CRC-8 (polynomial 0x07, most significant bit first).
pub open spec fn crc8_bit(crc: u8) -> u8 {
    if crc & 0x80 != 0 {
        (crc << 1) ^ 0x07
    } else {
        crc << 1
    }
}

/// One division step of CRC-16/MODBUS (reflected polynomial 0xA001).
pub open spec fn modbus_bit(crc: u16) -> u16 {
    if crc & 1 != 0 {
        (crc >> 1) ^ 0xa001
    } else {
        crc >> 1
    }
}

/// One division step of CRC-16/CCITT (polynomial 0x1021, most significant bit first).
pub open spec fn ccitt_bit(crc: u16) -> u16 {
    if crc & 0x8000 != 0 {
        (crc << 1) ^ 0x1021
    } else {
        crc << 1
    }
}

/// One division step of CRC-32 (reflected polynomial 0xEDB88320).
pub open spec fn crc32_bit(crc: u32) -> u32 {
    if crc & 1 != 0 {
        (crc >> 1) ^ 0xedb8_8320
    } else {
        crc >> 1
    }
}

/// A number of CRC-8 division steps.
pub open spec fn crc8_bits(crc: u8, steps: nat) -> u8
    decreases steps,
{
    if steps == 0 {
        crc
    } else {
        crc8_bit(crc8_bits(crc, (steps - 1) as nat))
    }
}

/// A number of CRC-16/MODBUS division steps.
pub open spec fn modbus_bits(crc: u16, steps: nat) -> u16
    decreases steps,
{
    if steps == 0 {
        crc
    } else {
        modbus_bit(modbus_bits(crc, (steps - 1) as nat))
    }
}

/// A number of CRC-16/CCITT division steps.
pub open spec fn ccitt_bits(crc: u16, steps: nat) -> u16
    decreases steps,
{
    if steps == 0 {
        crc
    } else {
        ccitt_bit(ccitt_bits(crc, (steps - 1) as nat))
    }
}

/// A number of CRC-32 division steps.
pub open spec fn crc32_bits(crc: u32, steps: nat) -> u32
    decreases steps,
{
    if steps == 0 {
        crc
    } else {
        crc32_bit(crc32_bits(crc, (steps - 1) as nat))
    }
}

/// CRC-8 of a byte string, from register 0.
pub open spec fn crc8_of(data: Seq<u8>) -> u8
    decreases data.len(),
{
    if data.len() == 0 {
        0
    } else {
        crc8_bits(crc8_of(data.drop_last()) ^ data.last(), 8)
    }
}

/// CRC-16/MODBUS of a byte string, from register 0xFFFF.
pub open spec fn modbus_of(data: Seq<u8>) -> u16
    decreases data.len(),
{
    if data.len() == 0 {
        0xffff
    } else {
        modbus_bits(modbus_of(data.drop_last()) ^ (data.last() as u16), 8)
    }
}

/// CRC-16/CCITT of a byte string, from register 0xFFFF.
pub open spec fn ccitt_of(data: Seq<u8>) -> u16
    decreases data.len(),
{
    if data.len() == 0 {
        0xffff
    } else {
        ccitt_bits(ccitt_of(data.drop_last()) ^ ((data.last() as u16) << 8), 8)
    }
}

/// The CRC-32 register after a byte string, from 0xFFFFFFFF and before the
/// final complement.
pub open spec fn crc32_register(data: Seq<u8>) -> u32
    decreases data.len(),
{
    if data.len() == 0 {
        0xffff_ffff
    } else {
        crc32_bits(crc32_register(data.drop_last()) ^ (data.last() as u32), 8)
    }
}

/// The checksum of a byte string.
pub open spec fn checksum_of(algorithm: ChecksumAlgorithm, data: Seq<u8>) -> nat {
    match algorithm {
        ChecksumAlgorithm::Xor8 => xor8_of(data) as nat,
        ChecksumAlgorithm::Sum8 => total(data) % 256,
        ChecksumAlgorithm::Crc8 => crc8_of(data) as nat,
        ChecksumAlgorithm::Crc16Modbus => modbus_of(data) as nat,
        ChecksumAlgorithm::Crc16Ccitt => ccitt_of(data) as nat,
        ChecksumAlgorithm::Crc32 => (!crc32_register(data)) as nat,
    }
}

/// Whether the ranges that a specification names lie inside a frame.
pub open spec fn checksum_ranges_fit(len: nat, spec: ChecksumSpec) -> bool {
    &&& spec.start_offset <= spec.end_offset_exclusive
    &&& spec.end_offset_exclusive <= len
    &&& spec.stored_offset + spec.stored_width <= len
}

/// The checksum that a frame carries.
pub open spec fn stored_checksum(frame: Seq<u8>, spec: ChecksumSpec) -> nat {
    unsigned(
        frame.subrange(
            spec.stored_offset as int,
            spec.stored_offset as int + spec.stored_width as int,
        ),
        spec.byte_order,
    )
}

/// The checksum that a frame should carry, cut to the stored width.
pub open spec fn expected_checksum(frame: Seq<u8>, spec: ChecksumSpec) -> nat {
    checksum_of(
        spec.algorithm,
        frame.subrange(spec.start_offset as int, spec.end_offset_exclusive as int),
    ) % span(spec.stored_width as nat)
}

/// The verdict on a frame: nothing to report, or what is wrong with it.
pub open spec fn checksum_verdict(frame: Seq<u8>, spec: ChecksumSpec) -> Option<ErrorData> {
    if !checksum_ranges_fit(frame.len(), spec) {
        Some(
            failure(
                ErrorCode::ProjectSchemaInvalid,
                "checksum.validate"@,
                "checksum_range_invalid"@,
            ),
        )
    } else if spec.stored_width != 1 && spec.stored_width != 2 && spec.stored_width != 4 {
        Some(
            failure(
                ErrorCode::ProjectSchemaInvalid,
                "checksum.validate"@,
                "checksum_width_invalid"@,
            ),
        )
    } else if stored_checksum(frame, spec) == expected_checksum(frame, spec) {
        None
    } else {
        Some(
            failure(
                ErrorCode::ChecksumMismatch,
                "checksum.validate"@,
                "checksum_mismatch"@,
            ).noting(
                "expected"@,
                ContextData::Unsigned(stored_checksum(frame, spec) as u64),
            ).noting("actual"@, ContextData::Unsigned(expected_checksum(frame, spec) as u64)),
        )
    }
}

/// Checks the checksum that a frame carries.
pub fn validate_checksum(frame: &[u8], spec: &ChecksumSpec) -> (result: ToolboxResult<()>)
    ensures
        match result {
            Ok(()) => checksum_verdict(frame@, *spec) is None,
            Err(error) => checksum_verdict(frame@, *spec) == Some(error@),
        },
{
    if spec.start_offset > spec.end_offset_exclusive || spec.end_offset_exclusive > frame.len()
        || spec.stored_width > frame.len() || spec.stored_offset > frame.len()
        - spec.stored_width {
        return Err(
            ToolboxError::new(
                ErrorCode::ProjectSchemaInvalid,
                "checksum.validate",
                "checksum_range_invalid",
            ),
        );
    }
    if spec.stored_width != 1 && spec.stored_width != 2 && spec.stored_width != 4 {
        return Err(
            ToolboxError::new(
                ErrorCode::ProjectSchemaInvalid,
                "checksum.validate",
                "checksum_width_invalid",
            ),
        );
    }
    let data = slice_subrange(frame, spec.start_offset, spec.end_offset_exclusive);
    let calculated = calculate(spec.algorithm, data);
    let stored_bytes = slice_subrange(
        frame,
        spec.stored_offset,
        spec.stored_offset + spec.stored_width,
    );
    let stored = read_unsigned(stored_bytes, spec.byte_order);
    proof {
        lemma_span_values();
        lemma_unsigned_bound(stored_bytes@, spec.byte_order);
    }
    let expected: u64 = if spec.stored_width == 1 {
        calculated % 0x100
    } else if spec.stored_width == 2 {
        calculated % 0x1_0000
    } else {
        calculated % 0x1_0000_0000
    };
    if expected == stored {
        Ok(())
    } else {
        Err(
            ToolboxError::new(
                ErrorCode::ChecksumMismatch,
                "checksum.validate",
                "checksum_mismatch",
            ).context("expected", ContextValue::Unsigned(stored)).context(
                "actual",
                ContextValue::Unsigned(expected),
            ),
        )
    }
}

/// Computes the checksum of a byte string.
pub fn calculate(algorithm: ChecksumAlgorithm, data: &[u8]) -> (checksum: u64)
    ensures
        checksum == checksum_of(algorithm, data@),
{
    match algorithm {
        ChecksumAlgorithm::Xor8 => xor8(data) as u64,
        ChecksumAlgorithm::Sum8 => sum8(data) as u64,
        ChecksumAlgorithm::Crc8 => crc8(data) as u64,
        ChecksumAlgorithm::Crc16Modbus => crc16_modbus(data) as u64,
        ChecksumAlgorithm::Crc16Ccitt => crc16_ccitt(data) as u64,
        ChecksumAlgorithm::Crc32 => crc32(data) as u64,
    }
}

fn xor8(data: &[u8]) -> (checksum: u8)
    ensures
        checksum == xor8_of(data@),
{
    let mut checksum: u8 = 0;
    let mut i: usize = 0;
    assert(data@.take(0) =~= Seq::<u8>::empty());
    while i < data.len()
        invariant
            i <= data@.len(),
            checksum == xor8_of(data@.take(i as int)),
        decreases data@.len() - i,
    {
        assert(data@.take(i + 1).drop_last() =~= data@.take(i as int));
        checksum = checksum ^ data[i];
        i += 1;
    }
    assert(data@.take(i as int) =~= data@);
    checksum
}

fn sum8(data: &[u8]) -> (checksum: u8)
    ensures
        checksum == total(data@) % 256,
{
    let mut checksum: u8 = 0;
    let mut i: usize = 0;
    assert(data@.take(0) =~= Seq::<u8>::empty());
    while i < data.len()
        invariant
            i <= data@.len(),
            checksum == total(data@.take(i as int)) % 256,
        decreases data@.len() - i,
    {
        assert(data@.take(i + 1).drop_last() =~= data@.take(i as int));
        checksum = checksum.wrapping_add(data[i]);
        i += 1;
    }
    assert(data@.take(i as int) =~= data@);
    checksum
}

fn crc8(data: &[u8]) -> (crc: u8)
    ensures
        crc == crc8_of(data@),
{
    let mut crc: u8 = 0;
    let mut i: usize = 0;
    assert(data@.take(0) =~= Seq::<u8>::empty());
    while i < data.len()
        invariant
            i <= data@.len(),
            crc == crc8_of(data@.take(i as int)),
        decreases data@.len() - i,
    {
        assert(data@.take(i + 1).drop_last() =~= data@.take(i as int));
        crc = crc ^ data[i];
        let ghost start = crc;
        let mut step: u8 = 0;
        while step < 8
            invariant
                step <= 8,
                crc == crc8_bits(start, step as nat),
            decreases 8 - step,
        {
            crc = if crc & 0x80 != 0 {
                (crc << 1) ^ 0x07
            } else {
                crc << 1
            };
            step += 1;
        }
        i += 1;
    }
    assert(data@.take(i as int) =~= data@);
    crc
}

fn crc16_modbus(data: &[u8]) -> (crc: u16)
    ensures
        crc == modbus_of(data@),
{
    let mut crc: u16 = 0xffff;
    let mut i: usize = 0;
    assert(data@.take(0) =~= Seq::<u8>::empty());
    while i < data.len()
        invariant
            i <= data@.len(),
            crc == modbus_of(data@.take(i as int)),
        decreases data@.len() - i,
    {
        assert(data@.take(i + 1).drop_last() =~= data@.take(i as int));
        crc = crc ^ (data[i] as u16);
        let ghost start = crc;
        let mut step: u8 = 0;
        while step < 8
            invariant
                step <= 8,
                crc == modbus_bits(start, step as nat),
            decreases 8 - step,
        {
            crc = if crc & 1 != 0 {
                (crc >> 1) ^ 0xa001
            } else {
                crc >> 1
            };
            step += 1;
        }
        i += 1;
    }
    assert(data@.take(i as int) =~= data@);
    crc
}

fn crc16_ccitt(data: &[u8]) -> (crc: u16)
    ensures
        crc == ccitt_of(data@),
{
    let mut crc: u16 = 0xffff;
    let mut i: usize = 0;
    assert(data@.take(0) =~= Seq::<u8>::empty());
    while i < data.len()
        invariant
            i <= data@.len(),
            crc == ccitt_of(data@.take(i as int)),
        decreases data@.len() - i,
    {
        assert(data@.take(i + 1).drop_last() =~= data@.take(i as int));
        crc = crc ^ ((data[i] as u16) << 8);
        let ghost start = crc;
        let mut step: u8 = 0;
        while step < 8
            invariant
                step <= 8,
                crc == ccitt_bits(start, step as nat),
            decreases 8 - step,
        {
            crc = if crc & 0x8000 != 0 {
                (crc << 1) ^ 0x1021
            } else {
                crc << 1
            };
            step += 1;
        }
        i += 1;
    }
    assert(data@.take(i as int) =~= data@);
    crc
}

fn crc32(data: &[u8]) -> (crc: u32)
    ensures
        crc == !crc32_register(data@),
{
    let mut crc: u32 = 0xffff_ffff;
    let mut i: usize = 0;
    assert(data@.take(0) =~= Seq::<u8>::empty());
    while i < data.len()
        invariant
            i <= data@.len(),
            crc == crc32_register(data@.take(i as int)),
        decreases data@.len() - i,
    {
        assert(data@.take(i + 1).drop_last() =~= data@.take(i as int));
        crc = crc ^ (data[i] as u32);
        let ghost start = crc;
        let mut step: u8 = 0;
        while step < 8
            invariant
                step <= 8,
                crc == crc32_bits(start, step as nat),
            decreases 8 - step,
        {
            crc = if crc & 1 != 0 {
                (crc >> 1) ^ 0xedb8_8320
            } else {
                crc >> 1
            };
            step += 1;
        }
        i += 1;
    }
    assert(data@.take(i as int) =~= data@);
    !crc
}

proof fn lemma_crc8_bits_injective(a: u8, b: u8, steps: nat)
    requires
        crc8_bits(a, steps) == crc8_bits(b, steps),
    ensures
        a == b,
    decreases steps,
{
    if steps > 0 {
        let p = crc8_bits(a, (steps - 1) as nat);
        let q = crc8_bits(b, (steps - 1) as nat);
        assert(crc8_bit(p) == crc8_bit(q) ==> p == q) by (bit_vector);
        lemma_crc8_bits_injective(a, b, (steps - 1) as nat);
    }
}

proof fn lemma_modbus_bits_injective(a: u16, b: u16, steps: nat)
    requires
        modbus_bits(a, steps) == modbus_bits(b, steps),
    ensures
        a == b,
    decreases steps,
{
    if steps > 0 {
        let p = modbus_bits(a, (steps - 1) as nat);
        let q = modbus_bits(b, (steps - 1) as nat);
        assert(modbus_bit(p) == modbus_bit(q) ==> p == q) by (bit_vector);
        lemma_modbus_bits_injective(a, b, (steps - 1) as nat);
    }
}

proof fn lemma_ccitt_bits_injective(a: u16, b: u16, steps: nat)
    requires
        ccitt_bits(a, steps) == ccitt_bits(b, steps),
    ensures
        a == b,
    decreases steps,
{
    if steps > 0 {
        let p = ccitt_bits(a, (steps - 1) as nat);
        let q = ccitt_bits(b, (steps - 1) as nat);
        assert(ccitt_bit(p) == ccitt_bit(q) ==> p == q) by (bit_vector);
        lemma_ccitt_bits_injective(a, b, (steps - 1) as nat);
    }
}

proof fn lemma_crc32_bits_injective(a: u32, b: u32, steps: nat)
    requires
        crc32_bits(a, steps) == crc32_bits(b, steps),
    ensures
        a == b,
    decreases steps,
{
    if steps > 0 {
        let p = crc32_bits(a, (steps - 1) as nat);
        let q = crc32_bits(b, (steps - 1) as nat);
        assert(crc32_bit(p) == crc32_bit(q) ==> p == q) by (bit_vector);
        lemma_crc32_bits_injective(a, b, (steps - 1) as nat);
    }
}

/// A change of exactly one byte changes the checksum, whichever algorithm
/// computes it.
pub proof fn law_single_byte_change_is_detected(
    algorithm: ChecksumAlgorithm,
    data: Seq<u8>,
    at: int,
    byte: u8,
)
    requires
        0 <= at < data.len(),
        data[at] != byte,
    ensures
        checksum_of(algorithm, data.update(at, byte)) != checksum_of(algorithm, data),
    decreases data.len(),
{
    let other = data.update(at, byte);
    let head = data.drop_last();
    let other_head = other.drop_last();
    let last = data.last();
    let other_last = other.last();
    if at == data.len() - 1 {
        assert(other_head =~= head);
    } else {
        assert(other_head =~= head.update(at, byte));
        assert(other_last == last);
        law_single_byte_change_is_detected(algorithm, head, at, byte);
    }
    match algorithm {
        ChecksumAlgorithm::Xor8 => {
            let p = xor8_of(head);
            let q = xor8_of(other_head);
            assert((p ^ last) == (q ^ other_last) ==> (p == q <==> last == other_last))
                by (bit_vector);
        },
        ChecksumAlgorithm::Sum8 => {},
        ChecksumAlgorithm::Crc8 => {
            let p = crc8_of(head);
            let q = crc8_of(other_head);
            assert((p ^ last) == (q ^ other_last) ==> (p == q <==> last == other_last))
                by (bit_vector);
            if crc8_of(data) == crc8_of(other) {
                lemma_crc8_bits_injective(p ^ last, q ^ other_last, 8);
            }
        },
        ChecksumAlgorithm::Crc16Modbus => {
            let p = modbus_of(head);
            let q = modbus_of(other_head);
            assert((p ^ (last as u16)) == (q ^ (other_last as u16)) ==> (p == q <==> last
                == other_last)) by (bit_vector);
            if modbus_of(data) == modbus_of(other) {
                lemma_modbus_bits_injective(p ^ (last as u16), q ^ (other_last as u16), 8);
            }
        },
        ChecksumAlgorithm::Crc16Ccitt => {
            let p = ccitt_of(head);
            let q = ccitt_of(other_head);
            assert((p ^ ((last as u16) << 8)) == (q ^ ((other_last as u16) << 8)) ==> (p == q
                <==> last == other_last)) by (bit_vector);
            if ccitt_of(data) == ccitt_of(other) {
                lemma_ccitt_bits_injective(
                    p ^ ((last as u16) << 8),
                    q ^ ((other_last as u16) << 8),
                    8,
                );
            }
        },
        ChecksumAlgorithm::Crc32 => {
            let p = crc32_register(head);
            let q = crc32_register(other_head);
            assert((p ^ (last as u32)) == (q ^ (other_last as u32)) ==> (p == q <==> last
                == other_last)) by (bit_vector);
            let x = crc32_register(data);
            let y = crc32_register(other);
            assert(!x == !y ==> x == y) by (bit_vector);
            assert(!p == !q <==> p == q) by (bit_vector);
            if x == y {
                lemma_crc32_bits_injective(p ^ (last as u32), q ^ (other_last as u32), 8);
            }
        },
    }
}

/// A frame is accepted exactly if the bytes of its checksum field, weighed in the configured
/// order, spell the checksum of the protected bytes, as far as the field is wide enough. A
/// frame that is too short, or a field of another width, is refused as a faulty rule, any
/// other frame as damaged.
pub proof fn law_a_frame_is_accepted_for_its_checksum(
    frame: &[u8],
    spec: &ChecksumSpec,
    data: &[u8],
    checksum: u64,
    result: ToolboxResult<()>,
)
    requires
        call_ensures(validate_checksum, (frame, spec), result),
        spec.start_offset <= spec.end_offset_exclusive <= frame@.len() ==> data@
            == frame@.subrange(spec.start_offset as int, spec.end_offset_exclusive as int),
        call_ensures(calculate, (spec.algorithm, data), checksum),
    ensures
        ({
            let width = spec.stored_width as int;
            let usable = {
                &&& spec.start_offset <= spec.end_offset_exclusive <= frame@.len()
                &&& spec.stored_offset + width <= frame@.len()
                &&& width == 1 || width == 2 || width == 4
            };
            let stored = field_number(frame@, spec.stored_offset as int, width, spec.byte_order);
            let expected = if width == 1 {
                checksum as int % 0x100
            } else if width == 2 {
                checksum as int % 0x1_0000
            } else {
                checksum as int % 0x1_0000_0000
            };
            &&& result is Ok <==> usable && stored == expected
            &&& usable && stored != expected ==> result->Err_0@.code == code_text(
                ErrorCode::ChecksumMismatch,
            )
            &&& !usable ==> result->Err_0@.code == code_text(ErrorCode::ProjectSchemaInvalid)
        }),
{
    lemma_span_values();
    let width = spec.stored_width;
    if checksum_ranges_fit(frame@.len(), *spec) && (width == 1 || width == 2 || width == 4) {
        lemma_field_value(frame@, spec.stored_offset as int, width as int, spec.byte_order);
        assert(expected_checksum(frame@, *spec) == checksum as nat % span(width as nat));
    }
}

/// The protected bytes and the checksum field alone decide: frames that agree on them are
/// judged alike.
pub proof fn law_other_bytes_do_not_matter(
    left: &[u8],
    right: &[u8],
    spec: &ChecksumSpec,
    left_result: ToolboxResult<()>,
    right_result: ToolboxResult<()>,
)
    requires
        call_ensures(validate_checksum, (left, spec), left_result),
        call_ensures(validate_checksum, (right, spec), right_result),
        left@.len() == right@.len(),
        forall|i: int|
            0 <= i < left@.len() && (spec.start_offset <= i < spec.end_offset_exclusive
                || spec.stored_offset <= i < spec.stored_offset + spec.stored_width)
                ==> left@[i] == #[trigger] right@[i],
    ensures
        left_result is Ok <==> right_result is Ok,
{
    if checksum_ranges_fit(left@.len(), *spec) {
        assert(left@.subrange(spec.start_offset as int, spec.end_offset_exclusive as int)
            =~= right@.subrange(spec.start_offset as int, spec.end_offset_exclusive as int));
        let end = spec.stored_offset as int + spec.stored_width as int;
        assert(left@.subrange(spec.stored_offset as int, end) =~= right@.subrange(
            spec.stored_offset as int,
            end,
        ));
    }
}

/// How many bytes a checksum takes.
pub open spec fn checksum_width(algorithm: ChecksumAlgorithm) -> int {
    match algorithm {
        ChecksumAlgorithm::Xor8 | ChecksumAlgorithm::Sum8 | ChecksumAlgorithm::Crc8 => 1,
        ChecksumAlgorithm::Crc16Modbus | ChecksumAlgorithm::Crc16Ccitt => 2,
        ChecksumAlgorithm::Crc32 => 4,
    }
}

/// A frame in which one protected byte was damaged on the way is refused, where the field
/// holds the whole checksum.
pub proof fn law_a_damaged_frame_is_refused(
    frame: &[u8],
    damaged: &[u8],
    spec: &ChecksumSpec,
    at: int,
    result: ToolboxResult<()>,
    damaged_result: ToolboxResult<()>,
)
    requires
        call_ensures(validate_checksum, (frame, spec), result),
        call_ensures(validate_checksum, (damaged, spec), damaged_result),
        result is Ok,
        spec.start_offset <= at < spec.end_offset_exclusive,
        !(spec.stored_offset <= at < spec.stored_offset + spec.stored_width),
        spec.stored_width >= checksum_width(spec.algorithm),
        damaged@.len() == frame@.len(),
        damaged@ == frame@.update(at, damaged@[at]),
        damaged@[at] != frame@[at],
    ensures
        damaged_result is Err,
        damaged_result->Err_0@.code == code_text(ErrorCode::ChecksumMismatch),
{
    let start = spec.start_offset as int;
    let end = spec.end_offset_exclusive as int;
    let stored_end = spec.stored_offset as int + spec.stored_width as int;
    let data = frame@.subrange(start, end);
    let other = damaged@.subrange(start, end);
    assert(other =~= data.update(at - start, damaged@[at]));
    assert(damaged@.subrange(spec.stored_offset as int, stored_end) =~= frame@.subrange(
        spec.stored_offset as int,
        stored_end,
    ));
    law_single_byte_change_is_detected(spec.algorithm, data, at - start, damaged@[at]);
    lemma_span_values();
    assert(checksum_of(spec.algorithm, data) < span(checksum_width(spec.algorithm) as nat));
    assert(checksum_of(spec.algorithm, other) < span(checksum_width(spec.algorithm) as nat));
    crate::numeral::lemma_span_monotone(
        checksum_width(spec.algorithm) as nat,
        spec.stored_width as nat,
    );
    vstd::arithmetic::div_mod::lemma_small_mod(
        checksum_of(spec.algorithm, data),
        span(spec.stored_width as nat),
    );
    vstd::arithmetic::div_mod::lemma_small_mod(
        checksum_of(spec.algorithm, other),
        span(spec.stored_width as nat),
    );
}

/// Bytes with their checksum behind them have the checksum zero, where it is divided for: the
/// most significant byte first, or last where the division runs the other way.
pub proof fn law_a_remainder_behind_its_bytes_vanishes(data: Seq<u8>)
    ensures
        checksum_of(
            ChecksumAlgorithm::Xor8,
            data.push(checksum_of(ChecksumAlgorithm::Xor8, data) as u8),
        ) == 0,
        checksum_of(
            ChecksumAlgorithm::Crc8,
            data.push(checksum_of(ChecksumAlgorithm::Crc8, data) as u8),
        ) == 0,
        ({
            let crc = checksum_of(ChecksumAlgorithm::Crc16Modbus, data);
            checksum_of(
                ChecksumAlgorithm::Crc16Modbus,
                data.push((crc % 256) as u8).push((crc / 256) as u8),
            ) == 0
        }),
        ({
            let crc = checksum_of(ChecksumAlgorithm::Crc16Ccitt, data);
            checksum_of(
                ChecksumAlgorithm::Crc16Ccitt,
                data.push((crc / 256) as u8).push((crc % 256) as u8),
            ) == 0
        }),
{
    let xor = xor8_of(data);
    assert(data.push(xor).drop_last() =~= data);
    assert(xor ^ xor == 0) by (bit_vector);
    let crc = crc8_of(data);
    assert(data.push(crc).drop_last() =~= data);
    assert(crc ^ crc == 0) by (bit_vector);
    assert(crc8_bit(0) == 0) by (bit_vector);
    reveal_with_fuel(crc8_bits, 9);
    let modbus = modbus_of(data);
    let low = (modbus % 256) as u8;
    let high = (modbus / 256) as u8;
    let once = data.push(low);
    assert(once.drop_last() =~= data);
    assert(once.push(high).drop_last() =~= once);
    let x = modbus ^ (low as u16);
    assert(x & 0xff == 0) by (bit_vector)
        requires
            low == (modbus % 256) as u8,
            x == modbus ^ (low as u16),
    ;
    lemma_modbus_shift(x);
    let y = modbus_of(once) ^ (high as u16);
    assert(y == 0) by (bit_vector)
        requires
            high == (modbus / 256) as u8,
            low == (modbus % 256) as u8,
            y == ((modbus ^ (low as u16)) >> 8) ^ (high as u16),
    ;
    assert(0u16 & 0xff == 0 && 0u16 >> 8 == 0) by (bit_vector);
    lemma_modbus_shift(0);
    let ccitt = ccitt_of(data);
    let first = (ccitt / 256) as u8;
    let second = (ccitt % 256) as u8;
    let twice = data.push(first);
    assert(twice.drop_last() =~= data);
    assert(twice.push(second).drop_last() =~= twice);
    let u = ccitt ^ ((first as u16) << 8);
    assert(u & 0xff00 == 0) by (bit_vector)
        requires
            first == (ccitt / 256) as u8,
            u == ccitt ^ ((first as u16) << 8),
    ;
    lemma_ccitt_shift(u);
    let v = ccitt_of(twice) ^ ((second as u16) << 8);
    assert(v == 0) by (bit_vector)
        requires
            first == (ccitt / 256) as u8,
            second == (ccitt % 256) as u8,
            v == ((ccitt ^ ((first as u16) << 8)) << 8) ^ ((second as u16) << 8),
    ;
    assert(0u16 & 0xff00 == 0 && 0u16 << 8 == 0) by (bit_vector);
    lemma_ccitt_shift(0);
}

/// Without bits to divide, dividing by a byte only shifts.
proof fn lemma_modbus_shift(x: u16)
    requires
        x & 0xff == 0,
    ensures
        modbus_bits(x, 8) == x >> 8,
{
    reveal_with_fuel(modbus_bits, 9);
    assert(x & 0xff == 0 ==> modbus_bit(
        modbus_bit(modbus_bit(modbus_bit(modbus_bit(modbus_bit(modbus_bit(modbus_bit(x))))))),
    ) == x >> 8) by (bit_vector);
}

proof fn lemma_ccitt_shift(x: u16)
    requires
        x & 0xff00 == 0,
    ensures
        ccitt_bits(x, 8) == x << 8,
{
    reveal_with_fuel(ccitt_bits, 9);
    assert(x & 0xff00 == 0 ==> ccitt_bit(
        ccitt_bit(ccitt_bit(ccitt_bit(ccitt_bit(ccitt_bit(ccitt_bit(ccitt_bit(x))))))),
    ) == x << 8) by (bit_vector);
}

/// Sums and exclusive-ors of parts make up those of the whole, in any order of the parts.
pub proof fn law_simple_checksums_are_sums(left: Seq<u8>, right: Seq<u8>)
    ensures
        checksum_of(ChecksumAlgorithm::Sum8, left + right) == (checksum_of(
            ChecksumAlgorithm::Sum8,
            left,
        ) + checksum_of(ChecksumAlgorithm::Sum8, right)) % 256,
        checksum_of(ChecksumAlgorithm::Sum8, left + right) == checksum_of(
            ChecksumAlgorithm::Sum8,
            right + left,
        ),
        checksum_of(ChecksumAlgorithm::Xor8, left + right) == checksum_of(
            ChecksumAlgorithm::Xor8,
            right + left,
        ),
        forall|byte: u8|
            #![trigger seq![byte]]
            checksum_of(ChecksumAlgorithm::Sum8, seq![byte]) == byte && checksum_of(
                ChecksumAlgorithm::Xor8,
                seq![byte],
            ) == byte,
{
    lemma_sums(left, right);
    lemma_sums(right, left);
    let (p, q) = (xor8_of(left), xor8_of(right));
    assert(p ^ q == q ^ p) by (bit_vector);
    assert forall|byte: u8| #![trigger seq![byte]] checksum_of(
        ChecksumAlgorithm::Sum8,
        seq![byte],
    ) == byte && checksum_of(ChecksumAlgorithm::Xor8, seq![byte]) == byte by {
        assert(seq![byte].drop_last() =~= Seq::<u8>::empty());
        assert(0u8 ^ byte == byte) by (bit_vector);
        reveal_with_fuel(total, 2);
        reveal_with_fuel(xor8_of, 2);
    }
}

proof fn lemma_sums(left: Seq<u8>, right: Seq<u8>)
    ensures
        total(left + right) == total(left) + total(right),
        xor8_of(left + right) == xor8_of(left) ^ xor8_of(right),
    decreases right.len(),
{
    let whole = left + right;
    if right.len() == 0 {
        assert(whole =~= left);
        let p = xor8_of(left);
        assert(p ^ 0u8 == p) by (bit_vector);
    } else {
        assert(whole.drop_last() =~= left + right.drop_last());
        lemma_sums(left, right.drop_last());
        let p = xor8_of(left);
        let q = xor8_of(right.drop_last());
        let last = right.last();
        assert((p ^ q) ^ last == p ^ (q ^ last)) by (bit_vector);
    }
}

/// One step of dividing by the polynomial of CRC-8, most significant bit first.
pub open spec fn divided8(register: u8) -> u8 {
    if register & 0x80 != 0 {
        (register << 1) ^ 0x07
    } else {
        register << 1
    }
}

/// One step of dividing by the polynomial of CRC-16, most significant bit first.
pub open spec fn divided16(register: u16) -> u16 {
    if register & 0x8000 != 0 {
        (register << 1) ^ 0x1021
    } else {
        register << 1
    }
}

/// One step of dividing by the polynomial of CRC-16, least significant bit first.
pub open spec fn divided16_reflected(register: u16) -> u16 {
    if register & 1 != 0 {
        (register >> 1) ^ 0xa001
    } else {
        register >> 1
    }
}

/// One step of dividing by the polynomial of CRC-32, least significant bit first.
pub open spec fn divided32_reflected(register: u32) -> u32 {
    if register & 1 != 0 {
        (register >> 1) ^ 0xedb8_8320
    } else {
        register >> 1
    }
}

/// A cyclic checksum is what is left of dividing the bytes by its polynomial: it begins with
/// its own register, and each byte goes into the register and is divided eight times. The
/// parameters are the registers that one more byte leads through.
pub proof fn law_cyclic_checksums_are_divisions(
    data: &[u8],
    longer: &[u8],
    crc8: (u64, u64, Seq<u8>),
    modbus: (u64, u64, Seq<u16>),
    ccitt: (u64, u64, Seq<u16>),
    crc32: (u64, u64, Seq<u32>),
)
    requires
        longer@.len() == data@.len() + 1,
        longer@.drop_last() == data@,
        call_ensures(calculate, (ChecksumAlgorithm::Crc8, data), crc8.0),
        call_ensures(calculate, (ChecksumAlgorithm::Crc8, longer), crc8.1),
        call_ensures(calculate, (ChecksumAlgorithm::Crc16Modbus, data), modbus.0),
        call_ensures(calculate, (ChecksumAlgorithm::Crc16Modbus, longer), modbus.1),
        call_ensures(calculate, (ChecksumAlgorithm::Crc16Ccitt, data), ccitt.0),
        call_ensures(calculate, (ChecksumAlgorithm::Crc16Ccitt, longer), ccitt.1),
        call_ensures(calculate, (ChecksumAlgorithm::Crc32, data), crc32.0),
        call_ensures(calculate, (ChecksumAlgorithm::Crc32, longer), crc32.1),
        crc8.2.len() == 9 && modbus.2.len() == 9 && ccitt.2.len() == 9 && crc32.2.len() == 9,
        crc8.2[0] == (crc8.0 as u8) ^ longer@.last(),
        modbus.2[0] == (modbus.0 as u16) ^ (longer@.last() as u16),
        ccitt.2[0] == (ccitt.0 as u16) ^ ((longer@.last() as u16) << 8),
        crc32.2[0] == (!(crc32.0 as u32)) ^ (longer@.last() as u32),
        forall|i: int| 0 <= i < 8 ==> crc8.2[i + 1] == divided8(#[trigger] crc8.2[i]),
        forall|i: int|
            0 <= i < 8 ==> modbus.2[i + 1] == divided16_reflected(#[trigger] modbus.2[i]),
        forall|i: int| 0 <= i < 8 ==> ccitt.2[i + 1] == divided16(#[trigger] ccitt.2[i]),
        forall|i: int|
            0 <= i < 8 ==> crc32.2[i + 1] == divided32_reflected(#[trigger] crc32.2[i]),
    ensures
        crc8.1 == crc8.2[8],
        modbus.1 == modbus.2[8],
        ccitt.1 == ccitt.2[8],
        crc32.1 == !crc32.2[8],
        data@.len() == 0 ==> crc8.0 == 0 && modbus.0 == 0xffff && ccitt.0 == 0xffff && crc32.0
            == 0,
{
    lemma_divided8(crc8.2, 8);
    lemma_divided16_reflected(modbus.2, 8);
    lemma_divided16(ccitt.2, 8);
    lemma_divided32_reflected(crc32.2, 8);
    let register = crc32_register(data@);
    assert(!(!register) == register) by (bit_vector);
    assert(!0xffff_ffffu32 == 0) by (bit_vector);
}

proof fn lemma_divided8(registers: Seq<u8>, steps: int)
    requires
        0 <= steps < registers.len(),
        forall|i: int|
            0 <= i < registers.len() - 1 ==> registers[i + 1] == divided8(
                #[trigger] registers[i],
            ),
    ensures
        registers[steps] == crc8_bits(registers[0], steps as nat),
    decreases steps,
{
    if steps > 0 {
        lemma_divided8(registers, steps - 1);
        assert(registers[steps - 1 + 1] == divided8(registers[steps - 1]));
    }
}

proof fn lemma_divided16(registers: Seq<u16>, steps: int)
    requires
        0 <= steps < registers.len(),
        forall|i: int|
            0 <= i < registers.len() - 1 ==> registers[i + 1] == divided16(
                #[trigger] registers[i],
            ),
    ensures
        registers[steps] == ccitt_bits(registers[0], steps as nat),
    decreases steps,
{
    if steps > 0 {
        lemma_divided16(registers, steps - 1);
        assert(registers[steps - 1 + 1] == divided16(registers[steps - 1]));
    }
}

proof fn lemma_divided16_reflected(registers: Seq<u16>, steps: int)
    requires
        0 <= steps < registers.len(),
        forall|i: int|
            0 <= i < registers.len() - 1 ==> registers[i + 1] == divided16_reflected(
                #[trigger] registers[i],
            ),
    ensures
        registers[steps] == modbus_bits(registers[0], steps as nat),
    decreases steps,
{
    if steps > 0 {
        lemma_divided16_reflected(registers, steps - 1);
        assert(registers[steps - 1 + 1] == divided16_reflected(registers[steps - 1]));
    }
}

proof fn lemma_divided32_reflected(registers: Seq<u32>, steps: int)
    requires
        0 <= steps < registers.len(),
        forall|i: int|
            0 <= i < registers.len() - 1 ==> registers[i + 1] == divided32_reflected(
                #[trigger] registers[i],
            ),
    ensures
        registers[steps] == crc32_bits(registers[0], steps as nat),
    decreases steps,
{
    if steps > 0 {
        lemma_divided32_reflected(registers, steps - 1);
        assert(registers[steps - 1 + 1] == divided32_reflected(registers[steps - 1]));
    }
}

/// A simple checksum goes on with each byte: it is added, and what does not fit into eight bits
/// is lost; or it is combined bit by bit. Without bytes there is nothing.
pub proof fn law_simple_checksums_go_on_byte_by_byte(
    data: &[u8],
    longer: &[u8],
    sum: (u64, u64),
    xor: (u64, u64),
)
    requires
        longer@.len() == data@.len() + 1,
        longer@.drop_last() == data@,
        call_ensures(calculate, (ChecksumAlgorithm::Sum8, data), sum.0),
        call_ensures(calculate, (ChecksumAlgorithm::Sum8, longer), sum.1),
        call_ensures(calculate, (ChecksumAlgorithm::Xor8, data), xor.0),
        call_ensures(calculate, (ChecksumAlgorithm::Xor8, longer), xor.1),
    ensures
        sum.1 == (sum.0 + longer@.last()) % 256,
        xor.1 == (xor.0 as u8) ^ longer@.last(),
        data@.len() == 0 ==> sum.0 == 0 && xor.0 == 0,
{
}

} // verus!
