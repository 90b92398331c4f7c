use leveldbcat::format::{
    ParseMode, format_bytes, format_bytes_with_mode, format_bytes_with_mode_and_json_indent,
    format_text_bytes, is_valid_json, single_line_preview,
};

#[test]
fn formats_printable_ascii_as_plain_text() {
    assert_eq!(format_bytes(b"hello"), "b'hello'");
}

#[test]
fn formats_binary_bytes_with_hex_escapes() {
    assert_eq!(format_bytes(&[0x00, b'A', 0xff]), "b'\\x00A\\xff'");
}

#[test]
fn byte_view_of_empty_input() {
    assert_eq!(format_bytes(&[]), "b''");
}

#[test]
fn byte_view_escapes_edges_of_printable_range() {
    assert_eq!(format_bytes(&[0x1f, 0x20, 0x7e, 0x7f]), "b'\\x1f ~\\x7f'");
}

#[test]
fn byte_view_keeps_backslash_and_quote() {
    assert_eq!(format_bytes(b"a\\'"), "b'a\\''");
}

#[test]
fn text_view_drops_control_characters() {
    assert_eq!(format_text_bytes(b"a\x00b\tc\nd\re\x07"), "ab\tc\nd\re");
}

#[test]
fn text_view_replaces_invalid_utf8() {
    assert_eq!(format_text_bytes(&[b'a', 0xff, b'b']), "a\u{fffd}b");
}

#[test]
fn text_view_drops_c1_controls() {
    assert_eq!(format_text_bytes("x\u{85}y\u{a0}".as_bytes()), "xy\u{a0}");
}

#[test]
fn preview_puts_text_on_one_line() {
    assert_eq!(single_line_preview("a\nb\r\tc"), "a b  c");
    assert_eq!(single_line_preview("日本\n語"), "日本 語");
}

#[test]
fn json_mode_pretty_prints_with_two_spaces() {
    assert_eq!(
        format_bytes_with_mode(br#"{"b":1,"a":[true,null]}"#, ParseMode::Json),
        "{\n  \"a\": [\n    true,\n    null\n  ],\n  \"b\": 1\n}"
    );
}

#[test]
fn json_mode_uses_chosen_indent() {
    assert_eq!(
        format_bytes_with_mode_and_json_indent(br#"{"k":[1]}"#, ParseMode::Json, 4),
        "{\n    \"k\": [\n        1\n    ]\n}"
    );
}

#[test]
fn json_mode_falls_back_to_bytes() {
    assert_eq!(
        format_bytes_with_mode_and_json_indent(b"{oops", ParseMode::Json, 3),
        "b'{oops'"
    );
}

#[test]
fn other_modes_ignore_indent() {
    assert_eq!(
        format_bytes_with_mode_and_json_indent(b"hi\x01", ParseMode::Text, 8),
        "hi"
    );
    assert_eq!(
        format_bytes_with_mode_and_json_indent(b"hi\x01", ParseMode::Bytes, 8),
        "b'hi\\x01'"
    );
}

#[test]
fn json_validity() {
    assert!(is_valid_json(b" [1, 2] "));
    assert!(is_valid_json(b"\"s\""));
    assert!(!is_valid_json(b"[1,"));
    assert!(!is_valid_json(b""));
}

#[test]
fn byte_view_is_always_printable_ascii() {
    let all: Vec<u8> = (0..=255u8).collect();
    let view = format_bytes(&all);
    assert!(view.chars().all(|c| (' '..='~').contains(&c)));
    assert_eq!(view.len(), 3 + 95 + 161 * 4);
}
