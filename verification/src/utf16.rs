//! The wide-string form of a text: its UTF-16 code units in little-endian
//! byte order, closed by a zero code unit, and written out as the decimal
//! values of the bytes with a space between them. `"A"` becomes
//! `"65 0 0 0"`, and the empty text becomes `"0 0"`.
use vstd::prelude::*;
use crate::text::{last_index_of, lemma_last_index_of};

verus! {

/// The UTF-16 code units of one character: the code point itself below
/// `0x10000`, and a high and a low surrogate from there on.
pub open spec fn char_units(c: char) -> Seq<u16> {
    let code = c as u32;
    if code < 0x10000 {
        seq![code as u16]
    } else {
        seq![
            (0xD800 + (code - 0x10000) / 0x400) as u16,
            (0xDC00 + (code - 0x10000) % 0x400) as u16,
        ]
    }
}

/// The UTF-16 code units of a text.
pub open spec fn utf16_units(s: Seq<char>) -> Seq<u16>
    decreases s.len(),
{
    if s.len() == 0 {
        Seq::empty()
    } else {
        utf16_units(s.drop_last()) + char_units(s.last())
    }
}

/// The bytes of code units, the low byte of each first.
pub open spec fn le_bytes(units: Seq<u16>) -> Seq<u8>
    decreases units.len(),
{
    if units.len() == 0 {
        Seq::empty()
    } else {
        le_bytes(units.drop_last()) + unit_bytes(units.last())
    }
}

/// The bytes of a text as a wide string: its code units, then a zero unit.
pub open spec fn wide_bytes(s: Seq<char>) -> Seq<u8> {
    le_bytes(utf16_units(s)) + seq![0u8, 0u8]
}

/// The character that writes the digit `d`.
pub open spec fn digit(d: u8) -> char {
    (('0' as u8) + d) as char
}

/// The decimal form of a byte, without leading zeros.
pub open spec fn decimal(b: u8) -> Seq<char> {
    if b < 10 {
        seq![digit(b)]
    } else if b < 100 {
        seq![digit(b / 10), digit(b % 10)]
    } else {
        seq![digit(b / 100), digit(b / 10 % 10), digit(b % 10)]
    }
}

/// The decimal forms of bytes, in order, with one space between neighbours.
pub open spec fn byte_list(bytes: Seq<u8>) -> Seq<char>
    decreases bytes.len(),
{
    if bytes.len() == 0 {
        Seq::empty()
    } else if bytes.len() == 1 {
        decimal(bytes[0])
    } else {
        byte_list(bytes.drop_last()) + seq![' '] + decimal(bytes.last())
    }
}

/// The wide-string form of a text.
pub open spec fn utf16le_text(s: Seq<char>) -> Seq<char> {
    byte_list(wide_bytes(s))
}

/// The two bytes of a code unit, the low byte first.
pub open spec fn unit_bytes(unit: u16) -> Seq<u8> {
    seq![(unit % 256) as u8, (unit / 256) as u8]
}

/// Appends the two bytes of a code unit, the low byte first.
fn push_unit(bytes: &mut Vec<u8>, unit: u16)
    ensures
        final(bytes)@ == old(bytes)@ + unit_bytes(unit),
{
    let low = (unit & 0xFF) as u8;
    let high = (unit >> 8) as u8;
    assert(unit & 0xFF == unit % 256) by (bit_vector);
    assert(unit >> 8 == unit / 256) by (bit_vector);
    bytes.push(low);
    bytes.push(high);
}

/// The bytes of code units, with one more unit, are the bytes of the
/// units followed by those of the one.
proof fn lemma_le_bytes_push(units: Seq<u16>, unit: u16)
    ensures
        le_bytes(units.push(unit)) == le_bytes(units) + unit_bytes(unit),
{
    assert(units.push(unit).drop_last() == units);
}

/// The bytes of a text as a wide string: its UTF-16 code units in
/// little-endian order, then the two zero bytes that close it.
pub fn utf16le_bytes(value: &str) -> (bytes: Vec<u8>)
    ensures
        bytes@ == wide_bytes(value@),
{
    let mut bytes: Vec<u8> = Vec::new();
    for c in it: value.chars()
        invariant
            it.seq() == value@,
            bytes@ == le_bytes(utf16_units(it.seq().take(it.index() as int))),
    {
        proof {
            assert(it.seq().take(it.index() + 1).drop_last() == it.seq().take(it.index() as int));
        }
        let code = c as u32;
        if code < 0x10000 {
            push_unit(&mut bytes, code as u16);
            proof {
                let units = utf16_units(it.seq().take(it.index() as int));
                lemma_le_bytes_push(units, code as u16);
                assert(units.push(code as u16) == units + char_units(c));
            }
        } else {
            let high = (0xD800 + (code - 0x10000) / 0x400) as u16;
            let low = (0xDC00 + (code - 0x10000) % 0x400) as u16;
            push_unit(&mut bytes, high);
            push_unit(&mut bytes, low);
            proof {
                let units = utf16_units(it.seq().take(it.index() as int));
                lemma_le_bytes_push(units, high);
                lemma_le_bytes_push(units.push(high), low);
                assert(units.push(high).push(low) == units + char_units(c));
            }
        }
    }
    assert(value@.take(value@.len() as int) == value@);
    bytes.push(0);
    bytes.push(0);
    bytes
}

/// Appends the decimal form of a byte.
fn push_decimal(text: &mut String, b: u8)
    ensures
        final(text)@ == old(text)@ + decimal(b),
{
    let zero = '0' as u8;
    if b >= 100 {
        text.push((zero + b / 100) as char);
    }
    if b >= 10 {
        text.push((zero + b / 10 % 10) as char);
    }
    text.push((zero + b % 10) as char);
}

/// The decimal values of bytes, in order, with one space between
/// neighbours.
pub fn render_byte_list(bytes: &Vec<u8>) -> (text: String)
    ensures
        text@ == byte_list(bytes@),
{
    let mut text = String::new();
    let mut i: usize = 0;
    while i < bytes.len()
        invariant
            i <= bytes.len(),
            text@ == byte_list(bytes@.take(i as int)),
        decreases bytes.len() - i,
    {
        assert(bytes@.take(i + 1).drop_last() == bytes@.take(i as int));
        if i > 0 {
            text.push(' ');
        }
        push_decimal(&mut text, bytes[i]);
        i += 1;
    }
    assert(bytes@.take(bytes@.len() as int) == bytes@);
    text
}

/// The wide-string form of a text: its UTF-16 little-endian bytes and the
/// closing zero unit, each byte in decimal, with a space between them.
pub fn to_utf16le_string(value: &str) -> (text: String)
    ensures
        text@ == utf16le_text(value@),
{
    let bytes = utf16le_bytes(value);
    render_byte_list(&bytes)
}

/// Whether a character is a decimal digit.
pub open spec fn is_digit(c: char) -> bool {
    '0' <= c <= '9'
}

/// The value of a decimal digit.
pub open spec fn digit_value(c: char) -> int {
    c as int - '0' as int
}

/// The byte that a decimal form writes: one to three digits, without
/// leading zeros, of a value up to 255.
pub open spec fn parse_decimal(t: Seq<char>) -> Option<u8> {
    if t.len() == 1 && is_digit(t[0]) {
        Some(digit_value(t[0]) as u8)
    } else if t.len() == 2 && is_digit(t[0]) && is_digit(t[1]) && t[0] != '0' {
        Some((10 * digit_value(t[0]) + digit_value(t[1])) as u8)
    } else if t.len() == 3 && is_digit(t[0]) && is_digit(t[1]) && is_digit(t[2]) && t[0] != '0'
        && 100 * digit_value(t[0]) + 10 * digit_value(t[1]) + digit_value(t[2]) <= 255 {
        Some((100 * digit_value(t[0]) + 10 * digit_value(t[1]) + digit_value(t[2])) as u8)
    } else {
        None
    }
}

/// The bytes that a list of decimal forms writes, where it is one: forms
/// of bytes with exactly one space between neighbours, or nothing at all.
pub open spec fn parse_byte_list(t: Seq<char>) -> Option<Seq<u8>>
    decreases t.len(),
{
    let space = last_index_of(t, ' ');
    if t.len() == 0 {
        Some(Seq::empty())
    } else if space < 0 || space >= t.len() {
        match parse_decimal(t) {
            Some(b) => Some(seq![b]),
            None => None,
        }
    } else {
        match (parse_byte_list(t.take(space)), parse_decimal(t.skip(space + 1))) {
            (Some(front), Some(b)) => if front.len() > 0 {
                Some(front.push(b))
            } else {
                None
            },
            _ => None,
        }
    }
}

/// The code units that little-endian bytes write, where their number is
/// even.
pub open spec fn units_of_le_bytes(bytes: Seq<u8>) -> Option<Seq<u16>>
    decreases bytes.len(),
{
    if bytes.len() == 0 {
        Some(Seq::empty())
    } else if bytes.len() == 1 {
        None
    } else {
        let n = bytes.len() as int;
        match units_of_le_bytes(bytes.take(n - 2)) {
            Some(front) => Some(front.push((bytes[n - 2] + 256 * bytes[n - 1]) as u16)),
            None => None,
        }
    }
}

/// Whether a code unit is a high surrogate, the first of a pair.
pub open spec fn is_high_surrogate(unit: u16) -> bool {
    0xD800 <= unit < 0xDC00
}

/// Whether a code unit is a low surrogate, the second of a pair.
pub open spec fn is_low_surrogate(unit: u16) -> bool {
    0xDC00 <= unit < 0xE000
}

/// The text that UTF-16 code units write, where every surrogate stands in a
/// pair of a high and a low one.
pub open spec fn chars_of_units(units: Seq<u16>) -> Option<Seq<char>>
    decreases units.len(),
{
    let n = units.len() as int;
    if n == 0 {
        Some(Seq::empty())
    } else if !is_high_surrogate(units.last()) && !is_low_surrogate(units.last()) {
        match chars_of_units(units.drop_last()) {
            Some(front) => Some(front.push(units.last() as char)),
            None => None,
        }
    } else if n >= 2 && is_low_surrogate(units.last()) && is_high_surrogate(units[n - 2]) {
        match chars_of_units(units.take(n - 2)) {
            Some(front) => Some(
                front.push(
                    (0x10000 + (units[n - 2] - 0xD800) * 0x400 + (units.last() - 0xDC00)) as char,
                ),
            ),
            None => None,
        }
    } else {
        None
    }
}

/// The text that a wide-string form writes: the form is read back into
/// bytes, the bytes into code units, the closing zero unit is taken off, and
/// the other units are read as UTF-16. `None` where one of these steps has
/// no result.
pub open spec fn text_of_utf16le(t: Seq<char>) -> Option<Seq<char>> {
    match parse_byte_list(t) {
        Some(bytes) => match units_of_le_bytes(bytes) {
            Some(units) => if units.len() > 0 && units.last() == 0 {
                chars_of_units(units.drop_last())
            } else {
                None
            },
            None => None,
        },
        None => None,
    }
}

/// The decimal form of a byte is read back as that byte; it is not empty
/// and holds no space.
pub proof fn lemma_decimal_round_trip(b: u8)
    ensures
        parse_decimal(decimal(b)) == Some(b),
        decimal(b).len() > 0,
        !decimal(b).contains(' '),
{
    let t = decimal(b);
    assert forall|i: int| 0 <= i < t.len() implies is_digit(t[i]) by {}
}

/// The last `c` of a text that ends in `c` and a part without `c` is the
/// one in front of that part.
proof fn lemma_last_index_before_tail(front: Seq<char>, c: char, tail: Seq<char>)
    requires
        !tail.contains(c),
    ensures
        last_index_of(front + seq![c] + tail, c) == front.len(),
    decreases tail.len(),
{
    let s = front + seq![c] + tail;
    if tail.len() > 0 {
        assert(s.drop_last() == front + seq![c] + tail.drop_last());
        assert(s.last() == tail.last());
        assert(!tail.drop_last().contains(c)) by {
            assert forall|i: int| 0 <= i < tail.len() - 1 implies tail.drop_last()[i] != c by {
                assert(tail.contains(tail[i]));
            }
        }
        lemma_last_index_before_tail(front, c, tail.drop_last());
    }
}

/// A list of decimal forms is read back as the bytes that it was made of.
pub proof fn lemma_byte_list_round_trip(bytes: Seq<u8>)
    ensures
        parse_byte_list(byte_list(bytes)) == Some(bytes),
        bytes.len() > 0 ==> byte_list(bytes).len() > 0,
    decreases bytes.len(),
{
    let t = byte_list(bytes);
    if bytes.len() == 1 {
        lemma_decimal_round_trip(bytes[0]);
        lemma_last_index_of(t, ' ');
        assert(last_index_of(t, ' ') < 0);
    } else if bytes.len() > 1 {
        let front = byte_list(bytes.drop_last());
        let tail = decimal(bytes.last());
        lemma_byte_list_round_trip(bytes.drop_last());
        lemma_decimal_round_trip(bytes.last());
        lemma_last_index_before_tail(front, ' ', tail);
        assert(t.take(front.len() as int) == front);
        assert(t.skip(front.len() as int + 1) == tail);
    }
}

/// Little-endian bytes are read back as the code units that they were made
/// of.
pub proof fn lemma_le_bytes_round_trip(units: Seq<u16>)
    ensures
        units_of_le_bytes(le_bytes(units)) == Some(units),
        le_bytes(units).len() == 2 * units.len(),
    decreases units.len(),
{
    if units.len() > 0 {
        let bytes = le_bytes(units);
        lemma_le_bytes_round_trip(units.drop_last());
        assert(bytes.take(bytes.len() - 2) == le_bytes(units.drop_last()));
    }
}

/// The code units of one character are one unit that is no surrogate and
/// has the character's value, or a high and a low surrogate that hold the
/// character's value between them.
proof fn lemma_char_units(c: char)
    ensures
        (c as u32) < 0x10000 ==> {
            &&& char_units(c).len() == 1
            &&& !is_high_surrogate(char_units(c)[0])
            &&& !is_low_surrogate(char_units(c)[0])
            &&& char_units(c)[0] as char == c
        },
        (c as u32) >= 0x10000 ==> {
            &&& char_units(c).len() == 2
            &&& is_high_surrogate(char_units(c)[0])
            &&& is_low_surrogate(char_units(c)[1])
            &&& (0x10000 + (char_units(c)[0] - 0xD800) * 0x400 + (char_units(c)[1] - 0xDC00)) as char
                == c
        },
{
}

/// UTF-16 code units are read back as the text that they were made of.
pub proof fn lemma_utf16_round_trip(s: Seq<char>)
    ensures
        chars_of_units(utf16_units(s)) == Some(s),
    decreases s.len(),
{
    if s.len() > 0 {
        let units = utf16_units(s);
        let front = utf16_units(s.drop_last());
        lemma_utf16_round_trip(s.drop_last());
        lemma_char_units(s.last());
        if (s.last() as u32) < 0x10000 {
            assert(units.drop_last() == front);
        } else {
            assert(units.take(units.len() - 2) == front);
        }
    }
}

/// Reading the wide-string form of a text back gives the text: the form
/// loses nothing, whatever the characters are.
pub proof fn lemma_utf16le_round_trip(s: Seq<char>)
    ensures
        text_of_utf16le(utf16le_text(s)) == Some(s),
{
    let units = utf16_units(s);
    let closed = units.push(0u16);
    lemma_le_bytes_push(units, 0u16);
    lemma_byte_list_round_trip(wide_bytes(s));
    lemma_le_bytes_round_trip(closed);
    assert(closed.drop_last() == units);
    lemma_utf16_round_trip(s);
}

} // verus!
