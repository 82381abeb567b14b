//! Reading text: decoding, splitting and comparing.

use vstd::prelude::*;
use vstd::string::{StrSliceExecFns, StringExecFns};
use vstd::utf8::{decode_utf8, valid_utf8};

verus! {

/// What is said of bytes that are not UTF-8.
pub uninterp spec fn utf8_error_text(bytes: Seq<u8>) -> Seq<char>;

/// Calls `std::str::from_utf8`. It accepts exactly the valid UTF-8 encodings and
/// gives the characters that they encode; what it says of others is named
/// `utf8_error_text`.
#[verifier::external_body]
pub(crate) fn decode_text(bytes: &[u8]) -> (result: Result<String, String>)
    ensures
        match result {
            Ok(text) => valid_utf8(bytes@) && text@ == decode_utf8(bytes@),
            Err(message) => !valid_utf8(bytes@) && message@ == utf8_error_text(bytes@),
        },
{
    match std::str::from_utf8(bytes) {
        Ok(text) => Ok(text.to_owned()),
        Err(error) => Err(error.to_string()),
    }
}

/// The characters of a text.
pub(crate) fn chars_of(text: &str) -> (chars: Vec<char>)
    ensures
        chars@ == text@,
{
    let mut chars: Vec<char> = Vec::new();
    for c in iter: text.chars()
        invariant
            iter.seq() == text@,
            chars@ == text@.take(iter.index() as int),
    {
        chars.push(c);
        assert(chars@ =~= text@.take(iter.index() + 1));
    }
    assert(text@.take(text@.len() as int) =~= text@);
    chars
}

/// The pieces of a text between separators. There is always at least one.
pub open spec fn split_on(text: Seq<char>, separator: char) -> Seq<Seq<char>>
    decreases text.len(),
{
    if text.len() == 0 {
        seq![Seq::empty()]
    } else {
        let before = split_on(text.drop_last(), separator);
        if text.last() == separator {
            before.push(Seq::empty())
        } else {
            before.drop_last().push(before.last().push(text.last()))
        }
    }
}

/// Where the pieces of a text stand in it.
pub(crate) fn split_ranges(chars: &Vec<char>, separator: char) -> (ranges: Vec<(usize, usize)>)
    ensures
        ranges@.len() == split_on(chars@, separator).len(),
        forall|i: int|
            0 <= i < ranges@.len() ==> {
                &&& (#[trigger] ranges@[i]).0 <= ranges@[i].1 <= chars@.len()
                &&& chars@.subrange(ranges@[i].0 as int, ranges@[i].1 as int) == split_on(
                    chars@,
                    separator,
                )[i]
            },
{
    let mut ranges: Vec<(usize, usize)> = Vec::new();
    let mut start: usize = 0;
    let mut i: usize = 0;
    assert(chars@.take(0) =~= Seq::<char>::empty());
    assert(chars@.subrange(0, 0) =~= Seq::<char>::empty());
    assert(split_on(chars@.take(0), separator).drop_last() =~= Seq::<Seq<char>>::empty());
    while i < chars.len()
        invariant
            start <= i <= chars@.len(),
            ranges@.len() + 1 == split_on(chars@.take(i as int), separator).len(),
            forall|j: int|
                0 <= j < ranges@.len() ==> {
                    &&& (#[trigger] ranges@[j]).0 <= ranges@[j].1 <= chars@.len()
                    &&& chars@.subrange(ranges@[j].0 as int, ranges@[j].1 as int) == split_on(
                        chars@.take(i as int),
                        separator,
                    )[j]
                },
            split_on(chars@.take(i as int), separator).last() == chars@.subrange(
                start as int,
                i as int,
            ),
        decreases chars@.len() - i,
    {
        let ghost before = split_on(chars@.take(i as int), separator);
        assert(chars@.take(i + 1).drop_last() =~= chars@.take(i as int));
        assert(chars@.take(i + 1).last() == chars@[i as int]);
        if chars[i] == separator {
            ranges.push((start, i));
            start = i + 1;
            assert(chars@.subrange(i + 1, i + 1) =~= Seq::<char>::empty());
        } else {
            assert(chars@.subrange(start as int, i + 1) =~= before.last().push(chars@[i as int]));
        }
        i += 1;
    }
    assert(chars@.take(chars@.len() as int) =~= chars@);
    ranges.push((start, i));
    ranges
}

/// Whether a character is white space, as Unicode defines it.
pub open spec fn white_space(c: char) -> bool {
    ||| '\u{9}' <= c <= '\u{d}'
    ||| c == '\u{20}'
    ||| c == '\u{85}'
    ||| c == '\u{a0}'
    ||| c == '\u{1680}'
    ||| '\u{2000}' <= c <= '\u{200a}'
    ||| c == '\u{2028}'
    ||| c == '\u{2029}'
    ||| c == '\u{202f}'
    ||| c == '\u{205f}'
    ||| c == '\u{3000}'
}

/// Whether a character is white space, as Unicode defines it.
pub fn is_white_space(c: char) -> (white: bool)
    ensures
        white == white_space(c),
{
    ('\u{9}' <= c && c <= '\u{d}') || c == '\u{20}' || c == '\u{85}' || c == '\u{a0}' || c
        == '\u{1680}' || ('\u{2000}' <= c && c <= '\u{200a}') || c == '\u{2028}' || c == '\u{2029}'
        || c == '\u{202f}' || c == '\u{205f}' || c == '\u{3000}'
}

/// A text without its leading white space.
pub open spec fn trim_start(text: Seq<char>) -> Seq<char>
    decreases text.len(),
{
    if text.len() > 0 && white_space(text[0]) {
        trim_start(text.drop_first())
    } else {
        text
    }
}

/// A text without its trailing white space.
pub open spec fn trim_end(text: Seq<char>) -> Seq<char>
    decreases text.len(),
{
    if text.len() > 0 && white_space(text.last()) {
        trim_end(text.drop_last())
    } else {
        text
    }
}

/// A text without the white space around it.
pub open spec fn trim(text: Seq<char>) -> Seq<char> {
    trim_end(trim_start(text))
}

/// A range of characters without the white space around it.
pub(crate) fn trim_range(chars: &Vec<char>, range: (usize, usize)) -> (inner: (usize, usize))
    requires
        range.0 <= range.1 <= chars@.len(),
    ensures
        inner.0 <= inner.1 <= chars@.len(),
        chars@.subrange(inner.0 as int, inner.1 as int) == trim(
            chars@.subrange(range.0 as int, range.1 as int),
        ),
{
    let mut from = range.0;
    let mut to = range.1;
    let ghost whole = chars@.subrange(range.0 as int, range.1 as int);
    while from < to && is_white_space(chars[from])
        invariant
            from <= to <= chars@.len(),
            to == range.1,
            trim_start(chars@.subrange(from as int, to as int)) == trim_start(whole),
        decreases to - from,
    {
        assert(chars@.subrange(from as int, to as int).drop_first() =~= chars@.subrange(
            from + 1,
            to as int,
        ));
        from += 1;
    }
    assert(chars@.subrange(from as int, to as int) == trim_start(whole));
    while from < to && is_white_space(chars[to - 1])
        invariant
            from <= to <= chars@.len(),
            trim_end(chars@.subrange(from as int, to as int)) == trim(whole),
        decreases to - from,
    {
        assert(chars@.subrange(from as int, to as int).drop_last() =~= chars@.subrange(
            from as int,
            to - 1,
        ));
        to -= 1;
    }
    (from, to)
}

/// A piece of a text as a text of its own.
pub(crate) fn piece(text: &str, range: (usize, usize)) -> (part: String)
    requires
        range.0 <= range.1 <= text@.len(),
    ensures
        part@ == text@.subrange(range.0 as int, range.1 as int),
{
    text.substring_char(range.0, range.1).to_owned()
}

/// The pieces that are not empty.
pub open spec fn non_empty(parts: Seq<Seq<char>>) -> Seq<Seq<char>>
    decreases parts.len(),
{
    if parts.len() == 0 {
        Seq::empty()
    } else if parts.last().len() > 0 {
        non_empty(parts.drop_last()).push(parts.last())
    } else {
        non_empty(parts.drop_last())
    }
}

/// The keys that a dotted path names, from the outside in.
pub open spec fn path_keys(path: Seq<char>) -> Seq<Seq<char>> {
    non_empty(split_on(path, '.'))
}

/// The texts of a list of strings.
pub open spec fn texts(parts: Seq<String>) -> Seq<Seq<char>> {
    parts.map_values(|part: String| part@)
}

/// The keys that a dotted path names, from the outside in.
pub fn split_path(path: &str) -> (keys: Vec<String>)
    ensures
        texts(keys@) == path_keys(path@),
{
    let chars = chars_of(path);
    let ranges = split_ranges(&chars, '.');
    let ghost parts = split_on(path@, '.');
    let mut keys: Vec<String> = Vec::new();
    let mut i: usize = 0;
    assert(texts(keys@) =~= Seq::<Seq<char>>::empty());
    assert(parts.take(0) =~= Seq::<Seq<char>>::empty());
    while i < ranges.len()
        invariant
            i <= ranges@.len(),
            chars@ == path@,
            parts == split_on(path@, '.'),
            ranges@.len() == parts.len(),
            forall|j: int|
                0 <= j < ranges@.len() ==> {
                    &&& (#[trigger] ranges@[j]).0 <= ranges@[j].1 <= chars@.len()
                    &&& chars@.subrange(ranges@[j].0 as int, ranges@[j].1 as int) == parts[j]
                },
            texts(keys@) == non_empty(parts.take(i as int)),
        decreases ranges@.len() - i,
    {
        let range = ranges[i];
        assert(parts.take(i + 1).drop_last() =~= parts.take(i as int));
        assert(parts.take(i + 1).last() == parts[i as int]);
        if range.0 < range.1 {
            let ghost before = keys@;
            let key = piece(path, range);
            keys.push(key);
            assert(texts(keys@) =~= texts(before).push(key@));
        }
        i += 1;
    }
    assert(parts.take(parts.len() as int) =~= parts);
    keys
}

/// The lower-case form of an ASCII letter; any other character as it is.
pub open spec fn ascii_lower(c: char) -> char {
    if 'A' <= c <= 'Z' {
        (c as u32 + 32) as char
    } else {
        c
    }
}

/// Whether two texts are equal up to the case of ASCII letters.
pub open spec fn same_ignoring_ascii_case(left: Seq<char>, right: Seq<char>) -> bool {
    &&& left.len() == right.len()
    &&& forall|i: int|
        0 <= i < left.len() ==> ascii_lower(#[trigger] left[i]) == ascii_lower(right[i])
}

fn same_char_ignoring_ascii_case(left: char, right: char) -> (same: bool)
    ensures
        same == (ascii_lower(left) == ascii_lower(right)),
{
    let l = left as u32;
    let r = right as u32;
    let low_l: u32 = if 0x41 <= l && l <= 0x5a {
        l + 32
    } else {
        l
    };
    let low_r: u32 = if 0x41 <= r && r <= 0x5a {
        r + 32
    } else {
        r
    };
    low_l == low_r
}

/// Whether two texts are equal up to the case of ASCII letters.
pub fn eq_ignore_ascii_case(left: &str, right: &str) -> (same: bool)
    ensures
        same == same_ignoring_ascii_case(left@, right@),
{
    let l = chars_of(left);
    let r = chars_of(right);
    if l.len() != r.len() {
        return false;
    }
    let mut i: usize = 0;
    while i < l.len()
        invariant
            i <= l@.len(),
            l@.len() == r@.len(),
            l@ == left@,
            r@ == right@,
            forall|j: int|
                0 <= j < i ==> ascii_lower(#[trigger] left@[j]) == ascii_lower(right@[j]),
        decreases l@.len() - i,
    {
        if !same_char_ignoring_ascii_case(l[i], r[i]) {
            assert(ascii_lower(left@[i as int]) != ascii_lower(right@[i as int]));
            return false;
        }
        i += 1;
    }
    true
}

/// The character of a decimal digit.
pub open spec fn digit(value: nat) -> char {
    (0x30 + value) as char
}

/// A number in decimal notation.
pub open spec fn decimal(value: nat) -> Seq<char>
    decreases value,
{
    if value < 10 {
        seq![digit(value)]
    } else {
        decimal(value / 10).push(digit(value % 10))
    }
}

fn digit_text(value: u64) -> (text: &'static str)
    requires
        value < 10,
    ensures
        text@ == seq![digit(value as nat)],
{
    proof {
        reveal_strlit("0");
        reveal_strlit("1");
        reveal_strlit("2");
        reveal_strlit("3");
        reveal_strlit("4");
        reveal_strlit("5");
        reveal_strlit("6");
        reveal_strlit("7");
        reveal_strlit("8");
        reveal_strlit("9");
    }
    let text = match value {
        0 => "0",
        1 => "1",
        2 => "2",
        3 => "3",
        4 => "4",
        5 => "5",
        6 => "6",
        7 => "7",
        8 => "8",
        _ => "9",
    };
    assert(text@ =~= seq![digit(value as nat)]);
    text
}

/// Appends a number in decimal notation.
pub fn append_decimal(text: &mut String, value: u64)
    ensures
        final(text)@ == old(text)@ + decimal(value as nat),
    decreases value,
{
    if value >= 10 {
        append_decimal(text, value / 10);
    }
    text.append(digit_text(value % 10));
    assert(text@ =~= old(text)@ + decimal(value as nat));
}

/// The decimal digits of a number, behind a sign where it is negative.
pub open spec fn signed_decimal(value: int) -> Seq<char> {
    if value < 0 {
        "-"@ + decimal((-value) as nat)
    } else {
        decimal(value as nat)
    }
}

/// Appends the decimal digits of a number, behind a sign where it is negative.
pub fn append_signed(text: &mut String, value: i64)
    ensures
        final(text)@ == old(text)@ + signed_decimal(value as int),
{
    if value < 0 {
        text.append("-");
        append_decimal(text, (-(value as i128)) as u64);
        assert(text@ =~= old(text)@ + signed_decimal(value as int));
    } else {
        append_decimal(text, value as u64);
    }
}

/// A text without separators is one piece, and the pieces of two texts with a separator
/// between them are those of the first and then those of the second.
pub proof fn law_separators_part_a_text(left: Seq<char>, right: Seq<char>, separator: char)
    ensures
        !left.contains(separator) ==> split_on(left, separator) == seq![left],
        split_on(left.push(separator) + right, separator) == split_on(left, separator)
            + split_on(right, separator),
    decreases left.len() + right.len(),
{
    if left.len() > 0 && !left.contains(separator) {
        let head = left.drop_last();
        assert(!head.contains(separator)) by {
            if head.contains(separator) {
                let i = choose|i: int| 0 <= i < head.len() && head[i] == separator;
                assert(left[i] == separator);
            }
        }
        law_separators_part_a_text(head, Seq::empty(), separator);
        assert(left.last() == left[left.len() - 1]);
        assert(split_on(left, separator) =~= seq![left]) by {
            let before = split_on(head, separator);
            assert(before.drop_last() =~= Seq::<Seq<char>>::empty());
            assert(head.push(left.last()) =~= left);
        }
    }
    if left.len() == 0 {
        assert(left =~= Seq::<char>::empty());
    }
    let whole = left.push(separator) + right;
    if right.len() == 0 {
        assert(whole =~= left.push(separator));
        assert(whole.drop_last() =~= left);
        assert(split_on(whole, separator) =~= split_on(left, separator) + split_on(
            right,
            separator,
        ));
    } else {
        let tail = right.drop_last();
        law_separators_part_a_text(left, tail, separator);
        lemma_some_piece(tail, separator);
        assert(whole.drop_last() =~= left.push(separator) + tail);
        assert(whole.last() == right.last());
        assert(split_on(whole, separator) =~= split_on(left, separator) + split_on(
            right,
            separator,
        ));
    }
}

proof fn lemma_some_piece(text: Seq<char>, separator: char)
    ensures
        split_on(text, separator).len() > 0,
    decreases text.len(),
{
    if text.len() > 0 {
        lemma_some_piece(text.drop_last(), separator);
    }
}

/// Trimming takes white space off both ends and nothing else: what is left begins and ends
/// with other characters, and what was taken off is white.
pub proof fn law_only_white_space_is_trimmed(text: Seq<char>)
    ensures
        exists|from: int, to: int|
            {
                &&& 0 <= from <= to <= text.len()
                &&& trim(text) == #[trigger] text.subrange(from, to)
                &&& forall|i: int|
                    0 <= i < from || to <= i < text.len() ==> white_space(#[trigger] text[i])
            },
        trim(text).len() > 0 ==> !white_space(trim(text)[0]) && !white_space(trim(text).last()),
{
    let from = lemma_trim_start(text);
    let rest = text.skip(from);
    let kept = lemma_trim_end(rest);
    let to = from + kept;
    assert(text.subrange(from, to) =~= rest.take(kept));
    assert(trim(text) == text.subrange(from, to));
    assert forall|i: int| 0 <= i < from || to <= i < text.len() implies white_space(
        #[trigger] text[i],
    ) by {
        if i >= to {
            assert(rest[i - from] == text[i]);
        }
    }
    if trim(text).len() > 0 {
        assert(trim(text)[0] == rest[0]);
    }
}

proof fn lemma_trim_start(text: Seq<char>) -> (from: int)
    ensures
        0 <= from <= text.len(),
        trim_start(text) == text.skip(from),
        forall|i: int| 0 <= i < from ==> white_space(#[trigger] text[i]),
        from < text.len() ==> !white_space(text[from]),
    decreases text.len(),
{
    if text.len() > 0 && white_space(text[0]) {
        let rest = text.drop_first();
        let from = lemma_trim_start(rest);
        assert(rest.skip(from) =~= text.skip(from + 1));
        assert forall|i: int| 0 <= i < from + 1 implies white_space(#[trigger] text[i]) by {
            if i > 0 {
                assert(rest[i - 1] == text[i]);
            }
        }
        if from < rest.len() {
            assert(rest[from] == text[from + 1]);
        }
        from + 1
    } else {
        assert(text.skip(0) =~= text);
        0
    }
}

proof fn lemma_trim_end(text: Seq<char>) -> (kept: int)
    ensures
        0 <= kept <= text.len(),
        trim_end(text) == text.take(kept),
        forall|i: int| kept <= i < text.len() ==> white_space(#[trigger] text[i]),
        kept > 0 ==> !white_space(text[kept - 1]),
    decreases text.len(),
{
    if text.len() > 0 && white_space(text.last()) {
        let rest = text.drop_last();
        let kept = lemma_trim_end(rest);
        assert(rest.take(kept) =~= text.take(kept));
        assert forall|i: int| kept <= i < text.len() implies white_space(#[trigger] text[i]) by {
            if i < rest.len() {
                assert(rest[i] == text[i]);
            }
        }
        if kept > 0 {
            assert(rest[kept - 1] == text[kept - 1]);
        }
        kept
    } else {
        assert(text.take(text.len() as int) =~= text);
        text.len() as int
    }
}

/// A path without dots names one key, an empty one none, and a dot puts the keys behind it
/// beneath those before it.
pub proof fn law_dots_lead_further_in(outer: Seq<char>, inner: Seq<char>)
    ensures
        path_keys(outer.push('.') + inner) == path_keys(outer) + path_keys(inner),
        path_keys(Seq::empty()) == Seq::<Seq<char>>::empty(),
        outer.len() > 0 && !outer.contains('.') ==> path_keys(outer) == seq![outer],
{
    law_separators_part_a_text(outer, inner, '.');
    lemma_non_empty_parts(split_on(outer, '.'), split_on(inner, '.'));
    law_separators_part_a_text(Seq::empty(), Seq::empty(), '.');
    reveal_with_fuel(non_empty, 2);
    let nothing = seq![Seq::<char>::empty()];
    assert(nothing.drop_last() =~= Seq::<Seq<char>>::empty());
    if !outer.contains('.') {
        assert(seq![outer].drop_last() =~= Seq::<Seq<char>>::empty());
        if outer.len() > 0 {
            assert(path_keys(outer) =~= seq![outer]);
        }
    }
}

proof fn lemma_non_empty_parts(left: Seq<Seq<char>>, right: Seq<Seq<char>>)
    ensures
        non_empty(left + right) == non_empty(left) + non_empty(right),
    decreases right.len(),
{
    if right.len() == 0 {
        assert(left + right =~= left);
        assert(non_empty(left) + non_empty(right) =~= non_empty(left));
    } else {
        assert((left + right).drop_last() =~= left + right.drop_last());
        lemma_non_empty_parts(left, right.drop_last());
        assert(non_empty(left + right) =~= non_empty(left) + non_empty(right));
    }
}

/// The number that decimal digits spell.
pub open spec fn digits_value(text: Seq<char>) -> int
    decreases text.len(),
{
    if text.len() == 0 {
        0
    } else {
        10 * digits_value(text.drop_last()) + (text.last() as int - '0' as int)
    }
}

/// Decimal notation spells its number with digits only, and without a leading zero.
pub proof fn law_decimal_notation_spells_its_number(value: nat)
    ensures
        digits_value(decimal(value)) == value,
        decimal(value).len() > 0,
        forall|i: int| 0 <= i < decimal(value).len() ==> '0' <= #[trigger] decimal(value)[i] <= '9',
        value > 0 ==> decimal(value)[0] != '0',
    decreases value,
{
    reveal_with_fuel(digits_value, 2);
    if value >= 10 {
        let head = decimal(value / 10);
        law_decimal_notation_spells_its_number(value / 10);
        assert(decimal(value).drop_last() =~= head);
        assert(decimal(value)[0] == head[0]);
        assert forall|i: int| 0 <= i < decimal(value).len() implies '0' <= #[trigger] decimal(
            value,
        )[i] <= '9' by {
            if i < head.len() {
                assert(decimal(value)[i] == head[i]);
            }
        }
    } else {
        assert(decimal(value).drop_last() =~= Seq::<char>::empty());
    }
}

/// A negative number is written as a minus sign and its size.
pub proof fn law_a_sign_stands_before_the_digits(text: &mut String, value: i64)
    requires
        call_ensures(append_signed, (text, value), ()),
    ensures
        ({
            let added = final(text)@.skip(old(text)@.len() as int);
            &&& final(text)@ == old(text)@ + added
            &&& value >= 0 ==> digits_value(added) == value
            &&& value < 0 ==> added.len() > 1 && added[0] == '-' && digits_value(added.skip(1))
                == -value
        }),
{
    let added = final(text)@.skip(old(text)@.len() as int);
    assert(added =~= signed_decimal(value as int));
    reveal_strlit("-");
    if value < 0 {
        law_decimal_notation_spells_its_number((-value) as nat);
        assert(added.skip(1) =~= decimal((-value) as nat));
    } else {
        law_decimal_notation_spells_its_number(value as nat);
    }
}

/// Texts are the same up to case exactly if each character of one is that of the other, or
/// the two are the same letter of the English alphabet in different case.
pub proof fn law_only_the_case_of_letters_is_ignored(left: &str, right: &str, same: bool)
    requires
        call_ensures(eq_ignore_ascii_case, (left, right), same),
    ensures
        same <==> left@.len() == right@.len() && forall|i: int|
            0 <= i < left@.len() ==> {
                let l = #[trigger] left@[i] as int;
                let r = right@[i] as int;
                ||| l == r
                ||| 65 <= l <= 90 && r == l + 32
                ||| 65 <= r <= 90 && l == r + 32
            },
{
    if left@.len() == right@.len() {
        assert forall|i: int| 0 <= i < left@.len() implies (ascii_lower(#[trigger] left@[i])
            == ascii_lower(right@[i])) == ({
            let l = left@[i] as int;
            let r = right@[i] as int;
            ||| l == r
            ||| 65 <= l <= 90 && r == l + 32
            ||| 65 <= r <= 90 && l == r + 32
        }) by {}
    }
}

/// White space is what lies at these places of Unicode: the tabulator and line ends, the
/// spaces of all widths, and the separators of lines and paragraphs.
pub proof fn law_white_space_lies_at_its_places(c: char, white: bool)
    requires
        call_ensures(is_white_space, (c,), white),
    ensures
        white <==> ({
            let place = c as int;
            ||| 9 <= place <= 13
            ||| place == 32 || place == 133 || place == 160 || place == 5760
            ||| 8192 <= place <= 8202
            ||| place == 8232 || place == 8233 || place == 8239 || place == 8287 || place == 12288
        }),
{
}

} // verus!
