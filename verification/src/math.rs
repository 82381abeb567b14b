//! Arithmetic on sample values.
//!
//! The library decides which operations happen on which values; how the values are
//! represented and rounded is up to the application.

use vstd::prelude::*;

verus! {

/// A number as it was received.
#[derive(Debug, Clone, Copy, PartialEq, Eq, Structural)]
pub enum RawNumber {
    Unsigned(u64),
    Signed(i64),
    /// The bits of a single-precision number.
    Float32(u32),
    /// The bits of a double-precision number.
    Float64(u64),
}

/// An operation on sample values.
#[derive(Debug, Clone, Copy)]
pub enum Operation<V> {
    /// Zero.
    Zero,
    /// `value * scale + bias`.
    ScaleBias { value: V, scale: V, bias: V },
    /// `a * value + (1 - a) * old`, where `a` is `alpha` brought between 0 and 1.
    Blend { value: V, old: V, alpha: V },
    /// `left + right`.
    Sum { left: V, right: V },
    /// `left - right`.
    Difference { left: V, right: V },
    /// `sum / count`.
    Mean { sum: V, count: usize },
    /// `(value - old)` per second, over so many nanoseconds.
    Slope { value: V, old: V, elapsed_ns: u64 },
}

/// How sample values are read and computed.
pub trait SampleMath<V> {
    /// The value that a text spells, or why it spells none.
    fn parse(&self, text: String) -> Result<V, String>;

    /// The value of a number that was received.
    fn number(&self, raw: RawNumber) -> V;

    /// The result of an operation.
    fn evaluate(&self, operation: Operation<V>) -> V;

    /// Whether a value is an ordinary number, neither infinite nor undefined.
    fn is_finite(&self, value: V) -> bool;
}

/// `result` is what the application computes for `operation`.
pub open spec fn evaluates<V, M: SampleMath<V>>(math: &M, operation: Operation<V>, result: V) -> bool {
    call_ensures(M::evaluate, (math, operation), result)
}

/// `value` is what the application makes of a received number.
pub open spec fn stands_for<V, M: SampleMath<V>>(math: &M, raw: RawNumber, value: V) -> bool {
    call_ensures(M::number, (math, raw), value)
}

/// `result` is what the application makes of a text.
pub open spec fn parses<V, M: SampleMath<V>>(math: &M, text: String, result: Result<V, String>) -> bool {
    call_ensures(M::parse, (math, text), result)
}

/// `finite` is what the application says of a value.
pub open spec fn finiteness<V, M: SampleMath<V>>(math: &M, value: V, finite: bool) -> bool {
    call_ensures(M::is_finite, (math, value), finite)
}

} // verus!
