use leveldbcat::selection::{SelectableTextView, line_ranges, offset_from_utf16, offset_to_utf16};

#[test]
fn converts_offsets_between_utf8_and_utf16() {
    let text = "a日😀b";
    // byte offsets: a=0, 日=1..4, 😀=4..8, b=8..9; UTF-16: a=0, 日=1, 😀=2..4, b=4
    assert_eq!(offset_to_utf16(text, 0), 0);
    assert_eq!(offset_to_utf16(text, 1), 1);
    assert_eq!(offset_to_utf16(text, 4), 2);
    assert_eq!(offset_to_utf16(text, 8), 4);
    assert_eq!(offset_to_utf16(text, 9), 5);
    assert_eq!(offset_from_utf16(text, 0), 0);
    assert_eq!(offset_from_utf16(text, 2), 4);
    assert_eq!(offset_from_utf16(text, 3), 8);
    assert_eq!(offset_from_utf16(text, 4), 8);
    assert_eq!(offset_from_utf16(text, 5), 9);
    assert_eq!(offset_from_utf16(text, 99), 9);
    for (i, _) in text.char_indices().chain([(text.len(), ' ')]) {
        assert_eq!(offset_from_utf16(text, offset_to_utf16(text, i)), i);
    }
}

#[test]
fn reads_text_for_utf16_range() {
    let mut view = SelectableTextView::new();
    view.set_text("x😀yz".to_string());
    let mut actual = None;
    assert_eq!(view.text_for_range(1..3, &mut actual), Some("😀".to_string()));
    assert_eq!(actual, Some(1..3));
    // A UTF-16 offset inside a surrogate pair moves past the character.
    assert_eq!(view.text_for_range(2..4, &mut actual), Some("y".to_string()));
    assert_eq!(actual, Some(3..4));
}

#[test]
fn selection_keeps_its_anchor() {
    let mut view = SelectableTextView::new();
    view.set_text("hello world".to_string());
    view.move_to(5);
    view.select_to(8);
    assert_eq!(view.selected_range(), 5..8);
    assert_eq!(view.cursor_offset(), 8);
    view.select_to(2);
    assert_eq!(view.selected_range(), 2..5);
    assert_eq!(view.cursor_offset(), 2);
    view.select_to(7);
    assert_eq!(view.selected_range(), 5..7);
    assert_eq!(view.selected_text(), Some(" w".to_string()));
}

#[test]
fn mouse_selection() {
    let mut view = SelectableTextView::new();
    view.set_text("abcdef".to_string());
    view.on_mouse_move(3);
    assert_eq!(view.selected_range(), 0..0);
    view.on_mouse_down(1, false);
    assert!(view.is_selecting());
    view.on_mouse_move(4);
    assert_eq!(view.selected_range(), 1..4);
    view.on_mouse_up();
    view.on_mouse_move(6);
    assert_eq!(view.selected_range(), 1..4);
    view.on_mouse_down(6, true);
    assert_eq!(view.selected_range(), 1..6);
    assert_eq!(view.selected_text(), Some("bcdef".to_string()));
    assert_eq!(view.selected_text_range(), (1..6, false));
}

#[test]
fn setting_text_clears_selection() {
    let mut view = SelectableTextView::new();
    view.set_text("abc".to_string());
    view.move_to(1);
    view.select_to(3);
    view.set_text("xyz".to_string());
    assert_eq!(view.selected_range(), 0..0);
    assert_eq!(view.selected_text(), None);
    assert_eq!(view.text(), "xyz");
}

#[test]
fn counts_lines() {
    let mut view = SelectableTextView::new();
    assert_eq!(view.line_count(), 1);
    view.set_text("a\nb\n".to_string());
    assert_eq!(view.line_count(), 3);
}

#[test]
fn splits_lines_by_bytes() {
    assert_eq!(line_ranges(""), vec![0..0]);
    assert_eq!(line_ranges("ab\n日\n"), vec![0..2, 3..6, 7..7]);
    let text = "x\ny\n\nz";
    let ranges = line_ranges(text);
    let lines: Vec<&str> = ranges.iter().map(|r| &text[r.clone()]).collect();
    assert_eq!(lines, text.split('\n').collect::<Vec<_>>());
}

#[test]
fn reads_backwards_range_that_clamps_to_one_offset() {
    let mut view = SelectableTextView::new();
    view.set_text("ab".to_string());
    let mut actual = None;
    assert_eq!(view.text_for_range(5..3, &mut actual), Some(String::new()));
    assert_eq!(actual, Some(2..2));
}
