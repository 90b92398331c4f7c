use leveldbcat::browser::{
    BrowserEntry, BrowserEntryKind, EntryTable, ParseContextTarget, ParsedColumn, SelectedDetail,
    SplitterKind, breadcrumb_paths, sort_browser_entries, wrap_index,
};
use leveldbcat::format::ParseMode;
use leveldbcat::reader::Entry;
use std::path::PathBuf;

fn entry(key: &[u8], value: &[u8]) -> Entry {
    Entry { key_bytes: key.to_vec(), value_bytes: value.to_vec() }
}

fn table() -> EntryTable {
    let mut t = EntryTable::new(4);
    t.set_entries(vec![
        entry(b"user:1", br#"{"name":"Ann"}"#),
        entry(b"user:2", b"plain \x01text"),
        entry(b"Config", br#"[1,2]"#),
    ]);
    t
}

fn cell(row: usize, column: ParsedColumn) -> SelectedDetail {
    SelectedDetail { row, column }
}

#[test]
fn cells_start_as_bytes() {
    let t = table();
    assert_eq!(t.effective_mode(0, ParsedColumn::Value), ParseMode::Bytes);
    assert_eq!(
        t.formatted_cell_text(1, ParsedColumn::Value),
        Some("b'plain \\x01text'".to_string())
    );
    assert_eq!(t.formatted_cell_text(3, ParsedColumn::Key), None);
    assert_eq!(t.entry_bytes(2, ParsedColumn::Key), Some(&b"Config"[..]));
}

#[test]
fn cell_override_beats_column_mode() {
    let mut t = table();
    t.show_detail(0, ParsedColumn::Value);
    assert!(t.apply_mode_to_cell(0, ParsedColumn::Value, ParseMode::Json));
    assert!(!t.apply_mode_to_cell(1, ParsedColumn::Value, ParseMode::Text));
    assert_eq!(
        t.formatted_cell_text(0, ParsedColumn::Value),
        Some("{\n  \"name\": \"Ann\"\n}".to_string())
    );
    assert_eq!(
        t.formatted_detail_text(0, ParsedColumn::Value),
        Some("{\n    \"name\": \"Ann\"\n}".to_string())
    );
    assert_eq!(t.preview_cell_text(0, ParsedColumn::Value), Some("{   \"name\": \"Ann\" }".to_string()));
    assert_eq!(t.formatted_cell_text(1, ParsedColumn::Value), Some("plain text".to_string()));
    assert_eq!(t.effective_mode(2, ParsedColumn::Value), ParseMode::Bytes);
    assert_eq!(t.selected_detail_mode(), Some(ParseMode::Json));
    assert_eq!(t.detail_view(), ("{\n    \"name\": \"Ann\"\n}".to_string(), true));
}

#[test]
fn column_mode_clears_cell_overrides() {
    let mut t = table();
    t.apply_mode_to_cell(1, ParsedColumn::Value, ParseMode::Json);
    t.apply_mode_to_cell(1, ParsedColumn::Key, ParseMode::Json);
    t.show_detail(2, ParsedColumn::Key);
    assert!(!t.apply_mode_to_column(ParsedColumn::Value, ParseMode::Text));
    assert_eq!(t.effective_mode(1, ParsedColumn::Value), ParseMode::Text);
    assert_eq!(t.effective_mode(1, ParsedColumn::Key), ParseMode::Json);
    assert_eq!(t.column_mode(ParsedColumn::Value), ParseMode::Text);
    assert!(t.apply_mode_to_column(ParsedColumn::Key, ParseMode::Bytes));
}

#[test]
fn json_detail_of_invalid_json_is_not_highlighted() {
    let mut t = table();
    t.apply_mode_to_cell(1, ParsedColumn::Value, ParseMode::Json);
    t.show_detail(1, ParsedColumn::Value);
    assert_eq!(t.detail_view(), ("b'plain \\x01text'".to_string(), false));
    let empty = EntryTable::new(2);
    assert_eq!(empty.detail_view(), (String::new(), false));
}

#[test]
fn loading_resets_modes_and_selection() {
    let mut t = table();
    t.apply_mode_to_column(ParsedColumn::Key, ParseMode::Text);
    t.apply_mode_to_cell(0, ParsedColumn::Value, ParseMode::Json);
    t.show_detail(0, ParsedColumn::Key);
    t.set_entries(vec![entry(b"a", b"b")]);
    assert_eq!(t.selected_detail(), None);
    assert_eq!(t.effective_mode(0, ParsedColumn::Key), ParseMode::Bytes);
    assert_eq!(t.effective_mode(0, ParsedColumn::Value), ParseMode::Bytes);
    t.clear_entries();
    assert!(t.entries().is_empty());
}

#[test]
fn search_finds_cells_case_insensitively() {
    let mut t = table();
    let shown = t.refresh_search_matches("USER");
    assert_eq!(t.search_matches(), &vec![cell(0, ParsedColumn::Key), cell(1, ParsedColumn::Key)]);
    assert_eq!(shown, Some(cell(0, ParsedColumn::Key)));
    assert_eq!(t.search_current(), Some(0));
    assert_eq!(t.selected_detail(), Some(cell(0, ParsedColumn::Key)));
}

#[test]
fn search_keeps_selected_match_current() {
    let mut t = table();
    t.show_detail(1, ParsedColumn::Key);
    assert_eq!(t.refresh_search_matches("user"), None);
    assert_eq!(t.search_current(), Some(1));
    assert_eq!(t.selected_detail(), Some(cell(1, ParsedColumn::Key)));
}

#[test]
fn search_follows_shown_text() {
    let mut t = table();
    assert!(t.refresh_search_matches("ann").is_some());
    assert_eq!(t.search_matches(), &vec![cell(0, ParsedColumn::Value)]);
    t.apply_mode_to_cell(0, ParsedColumn::Value, ParseMode::Json);
    t.refresh_search_matches("\n");
    assert_eq!(t.search_matches(), &vec![cell(0, ParsedColumn::Value)]);
    assert_eq!(t.refresh_search_matches(""), None);
    assert!(t.search_matches().is_empty());
    assert_eq!(t.search_current(), None);
    assert_eq!(t.refresh_search_matches("zzz"), None);
    assert_eq!(t.search_current(), None);
}

#[test]
fn navigation_wraps_around() {
    let mut t = table();
    t.refresh_search_matches("'");
    assert_eq!(t.search_matches().len(), 6);
    assert_eq!(t.navigate_search(-1), Some(cell(2, ParsedColumn::Value)));
    assert_eq!(t.search_current(), Some(5));
    assert_eq!(t.navigate_search(1), Some(cell(0, ParsedColumn::Key)));
    assert_eq!(t.navigate_search(13), Some(cell(0, ParsedColumn::Value)));
    assert_eq!(t.selected_detail(), Some(cell(0, ParsedColumn::Value)));
    let mut empty = EntryTable::new(2);
    assert_eq!(empty.navigate_search(1), None);
}

#[test]
fn wraps_indices() {
    assert_eq!(wrap_index(0, -1, 3), 2);
    assert_eq!(wrap_index(2, 1, 3), 0);
    assert_eq!(wrap_index(1, -7, 3), 0);
    assert_eq!(wrap_index(usize::MAX - 1, isize::MAX, 10), ((usize::MAX as u128 - 1 + isize::MAX as u128) % 10) as usize);
    for c in 0..5usize {
        for s in -12isize..12 {
            assert_eq!(wrap_index(wrap_index(c, s, 5), -s, 5), c);
        }
    }
}

#[test]
fn search_open_and_close() {
    let mut t = table();
    t.open_search();
    assert!(t.is_search_open());
    t.refresh_search_matches("user");
    t.close_search();
    assert!(!t.is_search_open());
    assert!(t.search_matches().is_empty());
    assert_eq!(t.search_current(), None);
}

#[test]
fn copies_cells_and_columns() {
    let mut t = table();
    t.apply_mode_to_cell(1, ParsedColumn::Key, ParseMode::Text);
    assert_eq!(
        t.copy_target_text(ParseContextTarget::Header(ParsedColumn::Key)),
        Some("b'user:1'\nuser:2\nb'Config'".to_string())
    );
    assert_eq!(
        t.copy_target_text(ParseContextTarget::Cell { row: 1, column: ParsedColumn::Key }),
        Some("user:2".to_string())
    );
    t.apply_mode_to_cell(2, ParsedColumn::Value, ParseMode::Json);
    assert_eq!(
        t.detail_target_text(ParseContextTarget::Cell { row: 2, column: ParsedColumn::Value }),
        Some("[\n    1,\n    2\n]".to_string())
    );
    assert_eq!(
        t.copy_target_text(ParseContextTarget::Cell { row: 2, column: ParsedColumn::Value }),
        Some("[\n  1,\n  2\n]".to_string())
    );
    let empty = EntryTable::new(2);
    assert_eq!(
        empty.copy_target_text(ParseContextTarget::Header(ParsedColumn::Value)),
        Some(String::new())
    );
}

#[test]
fn context_copy_prefers_selected_text() {
    let mut t = table();
    let target = ParseContextTarget::Cell { row: 0, column: ParsedColumn::Key };
    assert_eq!(t.context_copy_text(target, true, Some("sel".to_string())), Some("sel".to_string()));
    assert_eq!(t.context_copy_text(target, false, Some("sel".to_string())), Some("b'user:1'".to_string()));
    assert_eq!(t.context_copy_text(target, true, None), Some("b'user:1'".to_string()));
    assert_eq!(t.copy_selected_item_text(Some("x".to_string())), None);
    t.show_detail(2, ParsedColumn::Key);
    assert_eq!(t.copy_selected_item_text(None), Some("b'Config'".to_string()));
    assert_eq!(t.copy_selected_item_text(Some("x".to_string())), Some("x".to_string()));
}

#[test]
fn sorts_listing_by_kind_then_name() {
    let make = |label: &str, kind: BrowserEntryKind| BrowserEntry {
        path: PathBuf::from(label),
        label: label.to_string(),
        kind,
    };
    let sorted = sort_browser_entries(vec![
        make("b.txt", BrowserEntryKind::File { size_bytes: Some(3) }),
        make("Zeta", BrowserEntryKind::Directory),
        make("A.txt", BrowserEntryKind::File { size_bytes: None }),
        make("link", BrowserEntryKind::Link),
        make("alpha", BrowserEntryKind::Directory),
        make("a.txt", BrowserEntryKind::File { size_bytes: None }),
    ]);
    let labels: Vec<&str> = sorted.iter().map(|e| e.label.as_str()).collect();
    assert_eq!(labels, vec!["alpha", "Zeta", "link", "A.txt", "a.txt", "b.txt"]);
}

#[test]
fn entry_kinds_and_splitters() {
    assert!(BrowserEntryKind::Directory.is_directory());
    assert!(!BrowserEntryKind::Link.is_directory());
    assert_eq!(BrowserEntryKind::Directory.sort_priority(), 0);
    assert_eq!(BrowserEntryKind::Link.sort_priority(), 1);
    assert_eq!(BrowserEntryKind::File { size_bytes: Some(1) }.sort_priority(), 2);
    let kinds = [
        SplitterKind::Sidebar,
        SplitterKind::Browser,
        SplitterKind::Detail,
        SplitterKind::ResultIndex,
        SplitterKind::ResultKey,
    ];
    let ids: Vec<usize> = kinds.iter().map(|k| k.id()).collect();
    assert_eq!(ids, vec![0, 1, 2, 3, 4]);
    let vertical: Vec<bool> = kinds.iter().map(|k| k.is_vertical()).collect();
    assert_eq!(vertical, vec![true, false, false, true, true]);
}

#[test]
fn breadcrumbs_keep_root_and_last_five() {
    let chain = |n: usize| (0..n).map(|i| PathBuf::from(format!("p{i}"))).collect::<Vec<_>>();
    assert_eq!(breadcrumb_paths(chain(6)), (chain(6), false));
    let (trail, truncated) = breadcrumb_paths(chain(9));
    assert!(truncated);
    let names: Vec<String> = trail.iter().map(|p| p.display().to_string()).collect();
    assert_eq!(names, vec!["p0", "p4", "p5", "p6", "p7", "p8"]);
}
