//! Unsigned numbers spelled as bytes.

use crate::model::ByteOrder;
use vstd::prelude::*;

verus! {

/// The number that bytes spell, least significant first.
pub open spec fn little_endian(bytes: Seq<u8>) -> nat
    decreases bytes.len(),
{
    if bytes.len() == 0 {
        0
    } else {
        bytes[0] as nat + 256 * little_endian(bytes.drop_first())
    }
}

/// The number that bytes spell, most significant first.
pub open spec fn big_endian(bytes: Seq<u8>) -> nat
    decreases bytes.len(),
{
    if bytes.len() == 0 {
        0
    } else {
        256 * big_endian(bytes.drop_last()) + bytes.last() as nat
    }
}

/// The number that bytes spell in a byte order.
pub open spec fn unsigned(bytes: Seq<u8>, order: ByteOrder) -> nat {
    match order {
        ByteOrder::Little => little_endian(bytes),
        ByteOrder::Big => big_endian(bytes),
    }
}

/// 256 to a power: how many numbers so many bytes can spell.
pub open spec fn span(width: nat) -> nat
    decreases width,
{
    if width == 0 {
        1
    } else {
        256 * span((width - 1) as nat)
    }
}

pub proof fn lemma_span_values()
    ensures
        span(0) == 1,
        span(1) == 0x100,
        span(2) == 0x1_0000,
        span(3) == 0x100_0000,
        span(4) == 0x1_0000_0000,
        span(5) == 0x100_0000_0000,
        span(6) == 0x1_0000_0000_0000,
        span(7) == 0x100_0000_0000_0000,
        span(8) == 0x1_0000_0000_0000_0000,
{
    reveal_with_fuel(span, 9);
}

pub proof fn lemma_little_endian_bound(bytes: Seq<u8>)
    ensures
        little_endian(bytes) < span(bytes.len()),
    decreases bytes.len(),
{
    if bytes.len() > 0 {
        lemma_little_endian_bound(bytes.drop_first());
    }
}

pub proof fn lemma_big_endian_bound(bytes: Seq<u8>)
    ensures
        big_endian(bytes) < span(bytes.len()),
    decreases bytes.len(),
{
    if bytes.len() > 0 {
        lemma_big_endian_bound(bytes.drop_last());
    }
}

/// A number of so many bytes is below the count of such numbers.
pub proof fn lemma_unsigned_bound(bytes: Seq<u8>, order: ByteOrder)
    ensures
        unsigned(bytes, order) < span(bytes.len()),
{
    lemma_little_endian_bound(bytes);
    lemma_big_endian_bound(bytes);
}

pub proof fn lemma_span_monotone(a: nat, b: nat)
    requires
        a <= b,
    ensures
        span(a) <= span(b),
    decreases b,
{
    if a < b {
        lemma_span_monotone(a, (b - 1) as nat);
    }
}

/// Reads an unsigned number of at most eight bytes.
pub fn read_unsigned(bytes: &[u8], order: ByteOrder) -> (value: u64)
    requires
        bytes@.len() <= 8,
    ensures
        value == unsigned(bytes@, order),
{
    let mut value: u64 = 0;
    let len = bytes.len();
    proof {
        lemma_span_values();
    }
    match order {
        ByteOrder::Little => {
            let mut i: usize = len;
            assert(bytes@.skip(len as int) =~= Seq::<u8>::empty());
            while i > 0
                invariant
                    i <= len,
                    len == bytes@.len(),
                    len <= 8,
                    span(8) == 0x1_0000_0000_0000_0000,
                    value == little_endian(bytes@.skip(i as int)),
                decreases i,
            {
                i -= 1;
                proof {
                    assert(bytes@.skip(i as int).drop_first() =~= bytes@.skip(i + 1));
                    lemma_little_endian_bound(bytes@.skip(i as int));
                    lemma_span_monotone((len - i) as nat, 8);
                }
                value = value * 256 + bytes[i] as u64;
            }
            assert(bytes@.skip(0) =~= bytes@);
        },
        ByteOrder::Big => {
            let mut i: usize = 0;
            assert(bytes@.take(0) =~= Seq::<u8>::empty());
            while i < len
                invariant
                    i <= len,
                    len == bytes@.len(),
                    len <= 8,
                    span(8) == 0x1_0000_0000_0000_0000,
                    value == big_endian(bytes@.take(i as int)),
                decreases len - i,
            {
                proof {
                    assert(bytes@.take(i + 1).drop_last() =~= bytes@.take(i as int));
                    lemma_big_endian_bound(bytes@.take(i + 1));
                    lemma_span_monotone((i + 1) as nat, 8);
                }
                value = value * 256 + bytes[i] as u64;
                i += 1;
            }
            assert(bytes@.take(len as int) =~= bytes@);
        },
    }
    value
}

/// So many bytes of a number, least significant first; what does not fit is lost.
pub open spec fn spelled(value: nat, width: nat) -> Seq<u8>
    decreases width,
{
    if width == 0 {
        Seq::empty()
    } else {
        seq![(value % 256) as u8] + spelled(value / 256, (width - 1) as nat)
    }
}

/// A spelling has the width that was asked for, and spells what fits into it.
pub proof fn lemma_spelled(value: nat, width: nat)
    ensures
        spelled(value, width).len() == width,
        value < span(width) ==> little_endian(spelled(value, width)) == value,
    decreases width,
{
    if width > 0 {
        let rest = spelled(value / 256, (width - 1) as nat);
        lemma_spelled(value / 256, (width - 1) as nat);
        assert(spelled(value, width).drop_first() =~= rest);
    }
}

/// Numbers that fit are told apart by their spelling.
pub proof fn lemma_spelled_injective(a: nat, b: nat, width: nat)
    requires
        a < span(width),
        b < span(width),
        spelled(a, width) == spelled(b, width),
    ensures
        a == b,
{
    lemma_spelled(a, width);
    lemma_spelled(b, width);
}

/// Appends so many bytes of a number, least significant first.
pub fn append_little_endian(bytes: &mut Vec<u8>, value: u64, width: usize)
    ensures
        final(bytes)@ == old(bytes)@ + spelled(value as nat, width as nat),
{
    let mut rest: u64 = value;
    let mut i: usize = 0;
    assert(bytes@ + spelled(value as nat, width as nat) =~= old(bytes)@ + spelled(
        value as nat,
        width as nat,
    ));
    while i < width
        invariant
            i <= width,
            bytes@ + spelled(rest as nat, (width - i) as nat) == old(bytes)@ + spelled(
                value as nat,
                width as nat,
            ),
        decreases width - i,
    {
        let ghost before = bytes@;
        let low = (rest % 256) as u8;
        bytes.push(low);
        assert(bytes@ + spelled((rest / 256) as nat, (width - i - 1) as nat) =~= before + spelled(
            rest as nat,
            (width - i) as nat,
        ));
        rest = rest / 256;
        i += 1;
    }
    assert(bytes@ =~= bytes@ + spelled(rest as nat, 0));
}

/// A number that was written in so many bytes is read back from them, as far as it fits.
pub proof fn law_a_written_number_is_read_back(
    bytes: &mut Vec<u8>,
    value: u64,
    width: usize,
    written: &[u8],
    back: u64,
)
    requires
        width <= 8,
        value < span(width as nat),
        call_ensures(append_little_endian, (bytes, value, width), ()),
        written@ == final(bytes)@.skip(old(bytes)@.len() as int),
        call_ensures(read_unsigned, (written, ByteOrder::Little), back),
    ensures
        final(bytes)@.len() == old(bytes)@.len() + width,
        final(bytes)@.take(old(bytes)@.len() as int) == old(bytes)@,
        back == value,
{
    lemma_spelled(value as nat, width as nat);
    assert(written@ =~= spelled(value as nat, width as nat));
    assert(final(bytes)@.take(old(bytes)@.len() as int) =~= old(bytes)@);
}

/// The two orders of bytes read each other's numbers backwards: what stands first in one
/// stands last in the other.
pub proof fn law_orders_are_each_other_backwards(
    bytes: &[u8],
    turned: &[u8],
    big: u64,
    little: u64,
)
    requires
        bytes@.len() <= 8,
        turned@ == bytes@.reverse(),
        call_ensures(read_unsigned, (bytes, ByteOrder::Big), big),
        call_ensures(read_unsigned, (turned, ByteOrder::Little), little),
    ensures
        big == little,
{
    lemma_reversed(bytes@);
}

proof fn lemma_reversed(bytes: Seq<u8>)
    ensures
        big_endian(bytes) == little_endian(bytes.reverse()),
    decreases bytes.len(),
{
    if bytes.len() > 0 {
        let turned = bytes.reverse();
        lemma_reversed(bytes.drop_last());
        assert(turned.drop_first() =~= bytes.drop_last().reverse());
        assert(turned[0] == bytes.last());
    }
}

} // verus!
