//! Stable identifiers: 128-bit UUIDs held as plain values.

use vstd::prelude::*;

verus! {

/// A UUID, held as the 128-bit number that its sixteen bytes spell in
/// big-endian order.
#[derive(Clone, Copy, Debug, PartialEq, Eq, Structural, Hash, PartialOrd, Ord)]
pub struct Uuid {
    pub value: u128,
}

/// The 128-bit number that a UUID text stands for, or nothing when the text is
/// not a UUID in any of the accepted notations.
pub uninterp spec fn uuid_from_text(text: Seq<char>) -> Option<u128>;

/// A hexadecimal digit in lower case.
pub open spec fn hex_digit(value: u128) -> char {
    if value < 10 {
        (0x30 + value) as char
    } else {
        (0x57 + value) as char
    }
}

/// How many hyphens stand before a place in the hyphenated notation.
pub open spec fn hyphens_before(place: int) -> int {
    if place <= 8 {
        0
    } else if place <= 13 {
        1
    } else if place <= 18 {
        2
    } else if place <= 23 {
        3
    } else {
        4
    }
}

/// The lower-case hyphenated notation of a UUID: its thirty-two hexadecimal digits, most
/// significant first, in groups of eight, four, four, four and twelve.
pub open spec fn uuid_to_text(value: u128) -> Seq<char> {
    Seq::new(
        36,
        |place: int|
            if place == 8 || place == 13 || place == 18 || place == 23 {
                '-'
            } else {
                hex_digit((value >> ((124 - 4 * (place - hyphens_before(place))) as u128)) & 0xf)
            },
    )
}

/// The four version bits of a UUID.
pub open spec fn version_bits(value: u128) -> u128 {
    (value >> 76) & 0xf
}

/// The two variant bits of a UUID.
pub open spec fn variant_bits(value: u128) -> u128 {
    (value >> 62) & 0x3
}

/// The sixteen bytes of a UUID, most significant first.
pub open spec fn uuid_bytes(value: u128) -> Seq<u8> {
    Seq::new(16, |i: int| ((value >> ((120 - 8 * i) as u128)) & 0xff) as u8)
}

/// Calls `uuid::Uuid::now_v7`. Time and chance decide the value; every value
/// carries version 7 and the RFC 9562 variant.
#[verifier::external_body]
fn now_v7_value() -> (value: u128)
    ensures
        version_bits(value) == 7,
        variant_bits(value) == 2,
{
    uuid::Uuid::now_v7().as_u128()
}

/// Calls `uuid::Uuid::parse_str`. The answer is named `uuid_from_text` and
/// depends on the text alone.
#[verifier::external_body]
fn parse_value(text: &str) -> (value: Option<u128>)
    ensures
        value == uuid_from_text(text@),
{
    uuid::Uuid::parse_str(text).ok().map(|id| id.as_u128())
}

/// Calls the `Display` implementation of `uuid::Uuid`. The text is the lower-case
/// hyphenated notation, and `parse_str` reads it back as the same value.
#[verifier::external_body]
fn display_value(value: u128) -> (text: String)
    ensures
        text@ == uuid_to_text(value),
        uuid_from_text(text@) == Some(value),
{
    uuid::Uuid::from_u128(value).to_string()
}

/// Calls `uuid::Uuid::as_bytes`: the sixteen bytes, most significant first.
#[verifier::external_body]
fn bytes_of_value(value: u128) -> (bytes: Vec<u8>)
    ensures
        bytes@ == uuid_bytes(value),
{
    uuid::Uuid::from_u128(value).as_bytes().to_vec()
}

impl Uuid {
    /// The UUID with every bit zero.
    pub fn nil() -> (id: Uuid)
        ensures
            id.value == 0,
    {
        Uuid { value: 0 }
    }

    /// A fresh time-ordered identifier.
    pub fn now_v7() -> (id: Uuid)
        ensures
            version_bits(id.value) == 7,
            variant_bits(id.value) == 2,
    {
        Uuid { value: now_v7_value() }
    }

    /// Reads an identifier from its text.
    pub fn parse_str(text: &str) -> (id: Option<Uuid>)
        ensures
            match uuid_from_text(text@) {
                Some(value) => id == Some(Uuid { value }),
                None => id is None,
            },
    {
        match parse_value(text) {
            Some(value) => Some(Uuid { value }),
            None => None,
        }
    }

    /// Writes an identifier as text that `parse_str` reads back.
    pub fn to_text(&self) -> (text: String)
        ensures
            text@ == uuid_to_text(self.value),
            uuid_from_text(text@) == Some(self.value),
    {
        display_value(self.value)
    }

    /// The sixteen bytes of the identifier, most significant first.
    pub fn to_bytes(&self) -> (bytes: Vec<u8>)
        ensures
            bytes@ == uuid_bytes(self.value),
    {
        bytes_of_value(self.value)
    }
}

/// An identifier is read back from its text.
pub proof fn law_an_identifier_is_read_back(id: &Uuid, text: String, read: &str, back: Option<Uuid>)
    requires
        call_ensures(Uuid::to_text, (id,), text),
        read@ == text@,
        call_ensures(Uuid::parse_str, (read,), back),
    ensures
        back == Some(*id),
        text@.len() == 36,
{
}

} // verus!
