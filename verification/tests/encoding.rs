use meme_exif::utf16::{render_byte_list, to_utf16le_string, utf16le_bytes};

/// Reads a wide-string form back: decimal bytes, little-endian code units,
/// the closing zero unit taken off, and the rest read as UTF-16.
fn read_back(text: &str) -> String {
    let bytes: Vec<u8> = text.split(' ').map(|b| b.parse::<u8>().unwrap()).collect();
    assert_eq!(bytes.len() % 2, 0);
    let mut units: Vec<u16> = bytes
        .chunks(2)
        .map(|pair| u16::from_le_bytes([pair[0], pair[1]]))
        .collect();
    assert_eq!(units.pop(), Some(0));
    String::from_utf16(&units).unwrap()
}

#[test]
fn encodes_a_single_letter() {
    assert_eq!(to_utf16le_string("A"), "65 0 0 0");
}

#[test]
fn encodes_the_empty_string_as_the_terminator() {
    assert_eq!(to_utf16le_string(""), "0 0");
}

#[test]
fn encodes_ascii_text() {
    assert_eq!(to_utf16le_string("Cat"), "67 0 97 0 116 0 0 0");
    assert_eq!(to_utf16le_string("funny"), "102 0 117 0 110 0 110 0 121 0 0 0");
}

#[test]
fn encodes_cyrillic_with_the_low_byte_first() {
    // U+0416 and U+0444
    assert_eq!(to_utf16le_string("Жф"), "22 4 68 4 0 0");
}

#[test]
fn encodes_a_character_above_the_basic_plane_as_a_surrogate_pair() {
    // U+1F600 is 0xD83D 0xDE00 in UTF-16
    assert_eq!(to_utf16le_string("\u{1F600}"), "61 216 0 222 0 0");
    // the last code point
    assert_eq!(to_utf16le_string("\u{10FFFF}"), "255 219 255 223 0 0");
    // the first code point above the basic plane
    assert_eq!(to_utf16le_string("\u{10000}"), "0 216 0 220 0 0");
}

#[test]
fn encodes_the_edges_of_the_basic_plane() {
    assert_eq!(to_utf16le_string("\u{D7FF}"), "255 215 0 0");
    assert_eq!(to_utf16le_string("\u{E000}"), "0 224 0 0");
    assert_eq!(to_utf16le_string("\u{FFFF}"), "255 255 0 0");
}

#[test]
fn keeps_a_zero_character_inside_the_text() {
    assert_eq!(to_utf16le_string("a\0b"), "97 0 0 0 98 0 0 0");
    assert_eq!(read_back(&to_utf16le_string("a\0b")), "a\0b");
}

#[test]
fn writes_every_byte_without_leading_zeros() {
    assert_eq!(render_byte_list(&vec![0, 7, 9, 10, 42, 99, 100, 101, 199, 200, 255]),
        "0 7 9 10 42 99 100 101 199 200 255");
    assert_eq!(render_byte_list(&vec![]), "");
    assert_eq!(render_byte_list(&vec![5]), "5");
}

#[test]
fn wide_bytes_match_the_standard_encoder() {
    for text in ["", "A", "Cat A cat.", "Привет, мир", "tag;with;semicolons", "\u{1F600}\u{10FFFF}x"] {
        let mut expected: Vec<u8> = Vec::new();
        for unit in text.encode_utf16() {
            expected.push((unit & 0xFF) as u8);
            expected.push((unit >> 8) as u8);
        }
        expected.push(0);
        expected.push(0);
        assert_eq!(utf16le_bytes(text), expected);
    }
}

#[test]
fn round_trip_gives_the_text_back() {
    for text in [
        "",
        "A",
        "plain ascii text",
        "Привет, мир",
        "Файл не найден",
        "日本語",
        "mixed Ж \u{1F600} end",
        "\u{10000}\u{10FFFF}\u{D7FF}\u{E000}",
    ] {
        assert_eq!(read_back(&to_utf16le_string(text)), text);
    }
}

#[test]
fn encoding_twice_gives_the_same_form() {
    assert_eq!(to_utf16le_string("Cat A cat."), to_utf16le_string("Cat A cat."));
}
