//! The table of parsed entries: how each cell is shown (per column, with
//! per-cell overrides), the selected cell, search over the shown text, and
//! what copying a cell or a column gives.

use vstd::prelude::*;
use std::collections::HashMap;
use crate::format::{
    ParseMode, default_json_indent, format_bytes_with_mode, format_bytes_with_mode_and_json_indent,
    is_valid_json, json_valid, mode_view, single_line_preview, preview_of,
};
use crate::reader::Entry;
use crate::sort::{SortKey, is_stable_sort, key_of, sort_by_keys};
use std::path::PathBuf;
use crate::text::{chars_of, contains_chars, contains_seq, push_char, push_str, to_lowercase, unicode_lowercase};

verus! {

broadcast use vstd::std_specs::hash::group_hash_axioms;

/// The two columns of the table.
#[derive(Clone, Copy, PartialEq, Eq, Structural, Debug)]
pub enum ParsedColumn {
    Key,
    Value,
}

/// The mode of each column.
#[derive(Clone, Copy, PartialEq, Eq, Structural, Debug)]
pub struct ColumnModes {
    pub key: ParseMode,
    pub value: ParseMode,
}

impl ColumnModes {
    /// Both columns show bytes.
    pub fn new() -> (modes: Self)
        ensures
            modes.key == ParseMode::Bytes,
            modes.value == ParseMode::Bytes,
    {
        ColumnModes { key: ParseMode::Bytes, value: ParseMode::Bytes }
    }
}

/// A cell of the table.
#[derive(Clone, Copy, PartialEq, Eq, Structural, Debug)]
pub struct SelectedDetail {
    pub row: usize,
    pub column: ParsedColumn,
}

/// What a context menu acts on: one cell, or a whole column.
#[derive(Clone, Copy, PartialEq, Eq, Structural, Debug)]
pub enum ParseContextTarget {
    Cell { row: usize, column: ParsedColumn },
    Header(ParsedColumn),
}

/// The abstract state of an [`EntryTable`].
pub struct EntryTableModel {
    pub entries: Seq<Entry>,
    pub column_modes: ColumnModes,
    pub key_overrides: Map<usize, ParseMode>,
    pub value_overrides: Map<usize, ParseMode>,
    pub json_indent_spaces: u8,
    pub selected: Option<SelectedDetail>,
    pub search_open: bool,
    pub matches: Seq<SelectedDetail>,
    pub current: Option<usize>,
}

pub open spec fn column_mode_of(modes: ColumnModes, column: ParsedColumn) -> ParseMode {
    match column {
        ParsedColumn::Key => modes.key,
        ParsedColumn::Value => modes.value,
    }
}

pub open spec fn overrides_of(t: EntryTableModel, column: ParsedColumn) -> Map<usize, ParseMode> {
    match column {
        ParsedColumn::Key => t.key_overrides,
        ParsedColumn::Value => t.value_overrides,
    }
}

/// The mode of a cell: its own override, else the mode of its column.
pub open spec fn effective_mode_of(t: EntryTableModel, row: usize, column: ParsedColumn) -> ParseMode {
    if overrides_of(t, column).contains_key(row) {
        overrides_of(t, column)[row]
    } else {
        column_mode_of(t.column_modes, column)
    }
}

/// The bytes of a cell, if the row exists.
pub open spec fn cell_bytes(t: EntryTableModel, row: int, column: ParsedColumn) -> Option<Seq<u8>> {
    if 0 <= row < t.entries.len() {
        Some(
            match column {
                ParsedColumn::Key => t.entries[row].key_bytes@,
                ParsedColumn::Value => t.entries[row].value_bytes@,
            },
        )
    } else {
        None
    }
}

/// The text of a cell in the table (JSON with the default indent).
pub open spec fn cell_text(t: EntryTableModel, row: int, column: ParsedColumn) -> Option<Seq<char>> {
    match cell_bytes(t, row, column) {
        Some(bytes) => Some(
            mode_view(bytes, effective_mode_of(t, row as usize, column), default_json_indent()),
        ),
        None => None,
    }
}

/// The text of a cell in the detail panel (JSON with the chosen indent).
pub open spec fn detail_text(t: EntryTableModel, row: int, column: ParsedColumn) -> Option<Seq<char>> {
    match cell_bytes(t, row, column) {
        Some(bytes) => Some(
            mode_view(bytes, effective_mode_of(t, row as usize, column), t.json_indent_spaces),
        ),
        None => None,
    }
}

/// The texts of the first `rows` cells of a column, one per line.
pub open spec fn column_text(t: EntryTableModel, column: ParsedColumn, rows: int) -> Seq<char>
    decreases rows,
{
    if rows <= 0 {
        Seq::empty()
    } else if rows == 1 {
        cell_text(t, 0, column).unwrap()
    } else {
        column_text(t, column, rows - 1) + seq!['\n'] + cell_text(t, rows - 1, column).unwrap()
    }
}

/// What copying a target gives.
pub open spec fn copy_text(t: EntryTableModel, target: ParseContextTarget) -> Option<Seq<char>> {
    match target {
        ParseContextTarget::Cell { row, column } => cell_text(t, row as int, column),
        ParseContextTarget::Header(column) => Some(
            column_text(t, column, t.entries.len() as int),
        ),
    }
}

/// Whether a cell's lowercased text holds the lowercased query.
pub open spec fn cell_matches(t: EntryTableModel, row: int, column: ParsedColumn, query_lower: Seq<char>) -> bool {
    match cell_text(t, row, column) {
        Some(text) => contains_seq(unicode_lowercase(text), query_lower),
        None => false,
    }
}

pub open spec fn row_matches(t: EntryTableModel, row: int, query_lower: Seq<char>) -> Seq<SelectedDetail> {
    (if cell_matches(t, row, ParsedColumn::Key, query_lower) {
        seq![SelectedDetail { row: row as usize, column: ParsedColumn::Key }]
    } else {
        Seq::empty()
    }) + (if cell_matches(t, row, ParsedColumn::Value, query_lower) {
        seq![SelectedDetail { row: row as usize, column: ParsedColumn::Value }]
    } else {
        Seq::empty()
    })
}

/// The matching cells of the first `rows` rows, row by row, key before value.
pub open spec fn matches_upto(t: EntryTableModel, rows: int, query_lower: Seq<char>) -> Seq<SelectedDetail>
    decreases rows,
{
    if rows <= 0 {
        Seq::empty()
    } else {
        matches_upto(t, rows - 1, query_lower) + row_matches(t, rows - 1, query_lower)
    }
}

/// The cells that a search for `query` finds: none for an empty query.
pub open spec fn search_matches(t: EntryTableModel, query: Seq<char>) -> Seq<SelectedDetail> {
    if query.len() == 0 {
        Seq::empty()
    } else {
        matches_upto(t, t.entries.len() as int, unicode_lowercase(query))
    }
}

/// The position that a step of `step` from `current` reaches among `len`
/// matches, wrapping around at both ends.
pub open spec fn step_index(current: int, step: int, len: int) -> int {
    (current + step) % len
}

/// The parsed entries of the open database and how they are shown.
pub struct EntryTable {
    entries: Vec<Entry>,
    column_modes: ColumnModes,
    key_overrides: HashMap<usize, ParseMode>,
    value_overrides: HashMap<usize, ParseMode>,
    json_indent_spaces: u8,
    selected_detail: Option<SelectedDetail>,
    search_open: bool,
    search_matches: Vec<SelectedDetail>,
    search_current: Option<usize>,
}

impl View for EntryTable {
    type V = EntryTableModel;

    closed spec fn view(&self) -> EntryTableModel {
        EntryTableModel {
            entries: self.entries@,
            column_modes: self.column_modes,
            key_overrides: self.key_overrides@,
            value_overrides: self.value_overrides@,
            json_indent_spaces: self.json_indent_spaces,
            selected: self.selected_detail,
            search_open: self.search_open,
            matches: self.search_matches@,
            current: self.search_current,
        }
    }
}


impl EntryTable {
    /// An empty table; JSON in the detail panel is indented by
    /// `json_indent_spaces`.
    pub fn new(json_indent_spaces: u8) -> (table: Self)
        ensures
            table@.entries == Seq::<Entry>::empty(),
            table@.column_modes == (ColumnModes { key: ParseMode::Bytes, value: ParseMode::Bytes }),
            table@.key_overrides == Map::<usize, ParseMode>::empty(),
            table@.value_overrides == Map::<usize, ParseMode>::empty(),
            table@.json_indent_spaces == json_indent_spaces,
            (table@.selected is None),
            !table@.search_open,
            table@.matches == Seq::<SelectedDetail>::empty(),
            (table@.current is None),
    {
        EntryTable {
            entries: Vec::new(),
            column_modes: ColumnModes::new(),
            key_overrides: HashMap::new(),
            value_overrides: HashMap::new(),
            json_indent_spaces,
            selected_detail: None,
            search_open: false,
            search_matches: Vec::new(),
            search_current: None,
        }
    }

    /// Shows freshly read entries: nothing selected, both columns back to
    /// bytes, no cell overrides. The search is left for
    /// [`EntryTable::refresh_search_matches`].
    pub fn set_entries(&mut self, entries: Vec<Entry>)
        ensures
            final(self)@ == (EntryTableModel {
                entries: entries@,
                column_modes: ColumnModes { key: ParseMode::Bytes, value: ParseMode::Bytes },
                key_overrides: Map::empty(),
                value_overrides: Map::empty(),
                selected: None,
                ..old(self)@
            }),
    {
        self.entries = entries;
        self.selected_detail = None;
        self.key_overrides.clear();
        self.value_overrides.clear();
        self.column_modes = ColumnModes::new();
    }

    /// Drops the entries after a failed read, with the same resets as
    /// [`EntryTable::set_entries`].
    pub fn clear_entries(&mut self)
        ensures
            final(self)@ == (EntryTableModel {
                entries: Seq::empty(),
                column_modes: ColumnModes { key: ParseMode::Bytes, value: ParseMode::Bytes },
                key_overrides: Map::empty(),
                value_overrides: Map::empty(),
                selected: None,
                ..old(self)@
            }),
    {
        self.set_entries(Vec::new());
    }

    pub fn entries(&self) -> (entries: &Vec<Entry>)
        ensures
            entries@ == self@.entries,
    {
        &self.entries
    }

    pub fn json_indent_spaces(&self) -> (n: u8)
        ensures
            n == self@.json_indent_spaces,
    {
        self.json_indent_spaces
    }

    /// Sets the indent of JSON in the detail panel.
    pub fn set_json_indent_spaces(&mut self, json_indent_spaces: u8)
        ensures
            final(self)@ == (EntryTableModel { json_indent_spaces, ..old(self)@ }),
    {
        self.json_indent_spaces = json_indent_spaces;
    }

    pub fn selected_detail(&self) -> (selected: Option<SelectedDetail>)
        ensures
            selected == self@.selected,
    {
        self.selected_detail
    }

    /// Selects a cell for the detail panel.
    pub fn show_detail(&mut self, row: usize, column: ParsedColumn)
        ensures
            final(self)@ == (EntryTableModel {
                selected: Some(SelectedDetail { row, column }),
                ..old(self)@
            }),
    {
        self.selected_detail = Some(SelectedDetail { row, column });
    }

    pub fn column_mode(&self, column: ParsedColumn) -> (mode: ParseMode)
        ensures
            mode == column_mode_of(self@.column_modes, column),
    {
        match column {
            ParsedColumn::Key => self.column_modes.key,
            ParsedColumn::Value => self.column_modes.value,
        }
    }

    /// The mode of a cell: its override, else its column's mode.
    pub fn effective_mode(&self, row: usize, column: ParsedColumn) -> (mode: ParseMode)
        ensures
            mode == effective_mode_of(self@, row, column),
    {
        let found = match column {
            ParsedColumn::Key => self.key_overrides.get(&row),
            ParsedColumn::Value => self.value_overrides.get(&row),
        };
        match found {
            Some(mode) => *mode,
            None => self.column_mode(column),
        }
    }

    /// The bytes of a cell, if the row exists.
    pub fn entry_bytes(&self, row: usize, column: ParsedColumn) -> (bytes: Option<&[u8]>)
        ensures
            match bytes {
                Some(b) => cell_bytes(self@, row as int, column) == Some(b@),
                None => cell_bytes(self@, row as int, column) is None,
            },
    {
        if row >= self.entries.len() {
            return None;
        }
        let entry = &self.entries[row];
        Some(
            match column {
                ParsedColumn::Key => entry.key_bytes.as_slice(),
                ParsedColumn::Value => entry.value_bytes.as_slice(),
            },
        )
    }

    /// The text of a cell in the table.
    pub fn formatted_cell_text(&self, row: usize, column: ParsedColumn) -> (text: Option<String>)
        ensures
            match text {
                Some(t) => cell_text(self@, row as int, column) == Some(t@),
                None => cell_text(self@, row as int, column) is None,
            },
    {
        let bytes = self.entry_bytes(row, column)?;
        Some(format_bytes_with_mode(bytes, self.effective_mode(row, column)))
    }

    /// The text of a cell in the detail panel.
    pub fn formatted_detail_text(&self, row: usize, column: ParsedColumn) -> (text: Option<String>)
        ensures
            match text {
                Some(t) => detail_text(self@, row as int, column) == Some(t@),
                None => detail_text(self@, row as int, column) is None,
            },
    {
        let bytes = self.entry_bytes(row, column)?;
        Some(
            format_bytes_with_mode_and_json_indent(
                bytes,
                self.effective_mode(row, column),
                self.json_indent_spaces,
            ),
        )
    }

    /// The text of a cell on one line, as the table shows it.
    pub fn preview_cell_text(&self, row: usize, column: ParsedColumn) -> (text: Option<String>)
        ensures
            match text {
                Some(t) => cell_text(self@, row as int, column) is Some && t@ == preview_of(
                    cell_text(self@, row as int, column).unwrap(),
                ),
                None => cell_text(self@, row as int, column) is None,
            },
    {
        let text = self.formatted_cell_text(row, column)?;
        Some(single_line_preview(text.as_str()))
    }

    /// The mode of the selected cell.
    pub fn selected_detail_mode(&self) -> (mode: Option<ParseMode>)
        ensures
            match self@.selected {
                Some(d) => mode == Some(effective_mode_of(self@, d.row, d.column)),
                None => mode is None,
            },
    {
        let detail = self.selected_detail?;
        Some(self.effective_mode(detail.row, detail.column))
    }

    /// What the detail panel shows: the selected cell's text, and whether
    /// it is highlighted as JSON (its mode is JSON and its bytes parse);
    /// empty plain text when nothing is selected or the row is gone.
    pub fn detail_view(&self) -> (view: (String, bool))
        ensures
            match self@.selected {
                Some(d) if detail_text(self@, d.row as int, d.column) is Some => {
                    &&& view.0@ == detail_text(self@, d.row as int, d.column).unwrap()
                    &&& view.1 == (effective_mode_of(self@, d.row, d.column) == ParseMode::Json
                        && json_valid(cell_bytes(self@, d.row as int, d.column).unwrap()))
                },
                _ => view.0@ == Seq::<char>::empty() && !view.1,
            },
    {
        if let Some(detail) = self.selected_detail {
            if let Some(text) = self.formatted_detail_text(detail.row, detail.column) {
                let mode = self.effective_mode(detail.row, detail.column);
                let bytes = self.entry_bytes(detail.row, detail.column).unwrap();
                let highlight = match mode {
                    ParseMode::Json => is_valid_json(bytes),
                    _ => false,
                };
                return (text, highlight);
            }
        }
        (String::new(), false)
    }

    /// Gives one cell its own mode. Returns whether the selected cell is the
    /// one changed (its detail text must be redrawn).
    pub fn apply_mode_to_cell(&mut self, row: usize, column: ParsedColumn, mode: ParseMode) -> (selected_changed: bool)
        ensures
            final(self)@.entries == old(self)@.entries,
            final(self)@.column_modes == old(self)@.column_modes,
            final(self)@.selected == old(self)@.selected,
            final(self)@.matches == old(self)@.matches,
            effective_mode_of(final(self)@, row, column) == mode,
            forall|r: usize, c: ParsedColumn|
                !(r == row && c == column) ==> effective_mode_of(final(self)@, r, c)
                    == effective_mode_of(old(self)@, r, c),
            selected_changed == (old(self)@.selected == Some(SelectedDetail { row, column })),
            column == ParsedColumn::Key ==> final(self)@ == (EntryTableModel {
                key_overrides: old(self)@.key_overrides.insert(row, mode),
                ..old(self)@
            }),
            column == ParsedColumn::Value ==> final(self)@ == (EntryTableModel {
                value_overrides: old(self)@.value_overrides.insert(row, mode),
                ..old(self)@
            }),
    {
        match column {
            ParsedColumn::Key => {
                self.key_overrides.insert(row, mode);
            },
            ParsedColumn::Value => {
                self.value_overrides.insert(row, mode);
            },
        }
        match self.selected_detail {
            Some(d) => d.row == row && d.column == column,
            None => false,
        }
    }

    /// Sets the mode of a whole column and drops the cell overrides in it.
    /// Returns whether the selected cell is in that column.
    pub fn apply_mode_to_column(&mut self, column: ParsedColumn, mode: ParseMode) -> (selected_changed: bool)
        ensures
            final(self)@.entries == old(self)@.entries,
            final(self)@.selected == old(self)@.selected,
            final(self)@.matches == old(self)@.matches,
            forall|r: usize| effective_mode_of(final(self)@, r, column) == mode,
            forall|r: usize, c: ParsedColumn|
                c != column ==> effective_mode_of(final(self)@, r, c) == effective_mode_of(
                    old(self)@,
                    r,
                    c,
                ),
            selected_changed == (old(self)@.selected is Some && old(self)@.selected.unwrap().column
                == column),
            column == ParsedColumn::Key ==> final(self)@ == (EntryTableModel {
                column_modes: ColumnModes { key: mode, ..old(self)@.column_modes },
                key_overrides: Map::empty(),
                ..old(self)@
            }),
            column == ParsedColumn::Value ==> final(self)@ == (EntryTableModel {
                column_modes: ColumnModes { value: mode, ..old(self)@.column_modes },
                value_overrides: Map::empty(),
                ..old(self)@
            }),
    {
        match column {
            ParsedColumn::Key => {
                self.column_modes.key = mode;
                self.key_overrides.clear();
            },
            ParsedColumn::Value => {
                self.column_modes.value = mode;
                self.value_overrides.clear();
            },
        }
        match self.selected_detail {
            Some(d) => d.column == column,
            None => false,
        }
    }
}


/// Where the search stands after the matches were recomputed: which match
/// is current, and which cell is selected.
pub open spec fn search_outcome(
    old_table: EntryTableModel,
    new_table: EntryTableModel,
    shown: Option<SelectedDetail>,
) -> bool {
    let matches = new_table.matches;
    let sel = old_table.selected;
    if matches.len() == 0 {
        new_table.current is None && new_table.selected == sel && shown is None
    } else if sel is Some && matches.contains(sel.unwrap()) {
        &&& new_table.current is Some
        &&& new_table.current.unwrap() < matches.len()
        &&& matches[new_table.current.unwrap() as int] == sel.unwrap()
        &&& forall|j: int| 0 <= j < new_table.current.unwrap() ==> matches[j] != sel.unwrap()
        &&& new_table.selected == sel
        &&& shown is None
    } else {
        &&& new_table.current == Some(0usize)
        &&& new_table.selected == Some(matches[0])
        &&& shown == Some(matches[0])
    }
}

impl EntryTable {
    fn cell_matches_exec(&self, row: usize, column: ParsedColumn, query_lower: &Vec<char>) -> (found: bool)
        requires
            row < self@.entries.len(),
        ensures
            found == cell_matches(self@, row as int, column, query_lower@),
    {
        let text = self.formatted_cell_text(row, column).unwrap();
        let lower = to_lowercase(text.as_str());
        let lower_chars = chars_of(lower.as_str());
        contains_chars(&lower_chars, query_lower)
    }

    fn compute_matches(&self, query: &str) -> (matches: Vec<SelectedDetail>)
        ensures
            matches@ == search_matches(self@, query@),
    {
        let mut matches: Vec<SelectedDetail> = Vec::new();
        if query.is_empty() {
            return matches;
        }
        let lower = to_lowercase(query);
        let query_lower = chars_of(lower.as_str());
        let n = self.entries.len();
        let mut row: usize = 0;
        while row < n
            invariant
                n == self@.entries.len(),
                row <= n,
                query_lower@ == unicode_lowercase(query@),
                matches@ == matches_upto(self@, row as int, query_lower@),
            decreases n - row,
        {
            let ghost before = matches@;
            if self.cell_matches_exec(row, ParsedColumn::Key, &query_lower) {
                matches.push(SelectedDetail { row, column: ParsedColumn::Key });
            }
            if self.cell_matches_exec(row, ParsedColumn::Value, &query_lower) {
                matches.push(SelectedDetail { row, column: ParsedColumn::Value });
            }
            proof {
                assert(matches@ =~= before + row_matches(self@, row as int, query_lower@));
            }
            row = row + 1;
        }
        matches
    }

    /// Recomputes the matches of `query`. The current match becomes the
    /// selected cell when it matches, else the first match, which is then
    /// selected and returned for the detail panel to show.
    pub fn refresh_search_matches(&mut self, query: &str) -> (shown: Option<SelectedDetail>)
        ensures
            final(self)@.matches == search_matches(old(self)@, query@),
            final(self)@.entries == old(self)@.entries,
            final(self)@.column_modes == old(self)@.column_modes,
            final(self)@.key_overrides == old(self)@.key_overrides,
            final(self)@.value_overrides == old(self)@.value_overrides,
            final(self)@.json_indent_spaces == old(self)@.json_indent_spaces,
            final(self)@.search_open == old(self)@.search_open,
            search_outcome(old(self)@, final(self)@, shown),
    {
        let matches = self.compute_matches(query);
        self.search_matches = matches;
        if self.search_matches.len() == 0 {
            self.search_current = None;
            return None;
        }
        if let Some(selected) = self.selected_detail {
            let n = self.search_matches.len();
            let mut i: usize = 0;
            let ghost mid = self@;
            #[verifier::loop_isolation(false)]
            while i < n
                invariant
                    self@ == mid,
                    n == self.search_matches@.len(),
                    i <= n,
                    forall|j: int| 0 <= j < i ==> self.search_matches@[j] != selected,
                decreases n - i,
            {
                let d = self.search_matches[i];
                if d.row == selected.row && d.column == selected.column {
                    self.search_current = Some(i);
                    return None;
                }
                i = i + 1;
            }
            proof {
                assert(!self.search_matches@.contains(selected));
            }
        }
        self.search_current = Some(0);
        let first = self.search_matches[0];
        self.selected_detail = Some(first);
        Some(first)
    }

    /// Moves to the match `step` places away, wrapping around, and selects
    /// it; nothing happens when there are no matches.
    pub fn navigate_search(&mut self, step: isize) -> (shown: Option<SelectedDetail>)
        ensures
            old(self)@.matches.len() == 0 ==> final(self)@ == old(self)@ && shown is None,
            old(self)@.matches.len() > 0 ==> {
                let len = old(self)@.matches.len() as int;
                let current = match old(self)@.current {
                    Some(c) => c as int,
                    None => 0,
                };
                let next = step_index(current, step as int, len);
                &&& 0 <= next < len
                &&& final(self)@ == (EntryTableModel {
                    current: Some(next as usize),
                    selected: Some(old(self)@.matches[next]),
                    ..old(self)@
                })
                &&& shown == Some(old(self)@.matches[next])
            },
    {
        let len = self.search_matches.len();
        if len == 0 {
            return None;
        }
        let current: usize = match self.search_current {
            Some(c) => c,
            None => 0,
        };
        let next = wrap_index(current, step, len);
        self.search_current = Some(next);
        let detail = self.search_matches[next];
        self.selected_detail = Some(detail);
        Some(detail)
    }

    pub fn search_matches(&self) -> (matches: &Vec<SelectedDetail>)
        ensures
            matches@ == self@.matches,
    {
        &self.search_matches
    }

    pub fn search_current(&self) -> (current: Option<usize>)
        ensures
            current == self@.current,
    {
        self.search_current
    }

    pub fn is_search_open(&self) -> (open: bool)
        ensures
            open == self@.search_open,
    {
        self.search_open
    }

    /// Shows the search bar.
    pub fn open_search(&mut self)
        ensures
            final(self)@ == (EntryTableModel { search_open: true, ..old(self)@ }),
    {
        self.search_open = true;
    }

    /// Hides the search bar and forgets the matches.
    pub fn close_search(&mut self)
        ensures
            final(self)@ == (EntryTableModel {
                search_open: false,
                matches: Seq::empty(),
                current: None,
                ..old(self)@
            }),
    {
        self.search_open = false;
        self.search_matches = Vec::new();
        self.search_current = None;
    }

    /// What copying a cell or a column gives: the cell's table text, or the
    /// table texts of all cells of the column, one per line.
    pub fn copy_target_text(&self, target: ParseContextTarget) -> (text: Option<String>)
        ensures
            match text {
                Some(t) => copy_text(self@, target) == Some(t@),
                None => copy_text(self@, target) is None,
            },
    {
        match target {
            ParseContextTarget::Cell { row, column } => self.formatted_cell_text(row, column),
            ParseContextTarget::Header(column) => {
                let mut text = String::new();
                let n = self.entries.len();
                let mut row: usize = 0;
                while row < n
                    invariant
                        n == self@.entries.len(),
                        row <= n,
                        text@ == column_text(self@, column, row as int),
                    decreases n - row,
                {
                    let cell = self.formatted_cell_text(row, column).unwrap();
                    if row > 0 {
                        push_char(&mut text, '\n');
                    }
                    push_str(&mut text, cell.as_str());
                    proof {
                        if row == 0 {
                            assert(text@ =~= column_text(self@, column, 1));
                        }
                    }
                    row = row + 1;
                }
                Some(text)
            },
        }
    }

    /// What copying gives from the detail panel: a cell's detail text, or
    /// for a column the same as [`EntryTable::copy_target_text`].
    pub fn detail_target_text(&self, target: ParseContextTarget) -> (text: Option<String>)
        ensures
            match target {
                ParseContextTarget::Cell { row, column } => match text {
                    Some(t) => detail_text(self@, row as int, column) == Some(t@),
                    None => detail_text(self@, row as int, column) is None,
                },
                ParseContextTarget::Header(_) => match text {
                    Some(t) => copy_text(self@, target) == Some(t@),
                    None => copy_text(self@, target) is None,
                },
            },
    {
        match target {
            ParseContextTarget::Cell { row, column } => self.formatted_detail_text(row, column),
            ParseContextTarget::Header(_) => self.copy_target_text(target),
        }
    }
}

/// `(current + step).rem_euclid(len)`, computed without overflow.
pub fn wrap_index(current: usize, step: isize, len: usize) -> (next: usize)
    requires
        len > 0,
    ensures
        next == step_index(current as int, step as int, len as int),
        next < len,
{
    let x: i128 = current as i128 + step as i128;
    let n: u128 = len as u128;
    if x >= 0 {
        let r = (x as u128) % n;
        proof {
            assert(r == (x as int) % (len as int));
        }
        r as usize
    } else {
        let y: u128 = (0 - x) as u128;
        let m = y % n;
        if m == 0 {
            proof {
                lemma_neg_mod(x as int, len as int, m as int);
            }
            0
        } else {
            proof {
                lemma_neg_mod(x as int, len as int, m as int);
            }
            (n - m) as usize
        }
    }
}

proof fn lemma_neg_mod(x: int, n: int, m: int)
    requires
        x < 0,
        n > 0,
        m == (-x) % n,
    ensures
        m == 0 ==> x % n == 0,
        m != 0 ==> x % n == n - m,
{
    let q = (-x) / n;
    assert((-x) == q * n + m) by (nonlinear_arith)
        requires
            m == (-x) % n,
            q == (-x) / n,
            n > 0,
    ;
    if m == 0 {
        assert(x == (-q) * n) by (nonlinear_arith)
            requires
                (-x) == q * n + m,
                m == 0,
        ;
        vstd::arithmetic::div_mod::lemma_mod_multiples_basic(-q, n);
    } else {
        assert(x == (-q - 1) * n + (n - m)) by (nonlinear_arith)
            requires
                (-x) == q * n + m,
        ;
        assert(0 <= m < n) by {
            vstd::arithmetic::div_mod::lemma_mod_bound(-x, n);
        }
        vstd::arithmetic::div_mod::lemma_fundamental_div_mod_converse(x, n, -q - 1, n - m);
    }
}


/// The position of a cell in the table's reading order: row by row, the
/// key before the value.
pub open spec fn reading_position(d: SelectedDetail) -> int {
    2 * d.row + match d.column {
        ParsedColumn::Key => 0int,
        ParsedColumn::Value => 1int,
    }
}

proof fn lemma_row_matches_facts(t: EntryTableModel, r: int, q: Seq<char>)
    requires
        0 <= r < t.entries.len(),
        t.entries.len() <= usize::MAX,
    ensures
        forall|d: SelectedDetail|
            row_matches(t, r, q).contains(d) <==> (d.row == r && cell_matches(
                t,
                r,
                d.column,
                q,
            )),
        forall|i: int|
            0 <= i < row_matches(t, r, q).len() ==> (#[trigger] row_matches(t, r, q)[i]).row
                == r,
        forall|i: int, j: int|
            0 <= i < j < row_matches(t, r, q).len() ==> reading_position(
                #[trigger] row_matches(t, r, q)[i],
            ) < reading_position(#[trigger] row_matches(t, r, q)[j]),
{
    let rm = row_matches(t, r, q);
    let k = SelectedDetail { row: r as usize, column: ParsedColumn::Key };
    let v = SelectedDetail { row: r as usize, column: ParsedColumn::Value };
    assert forall|d: SelectedDetail| rm.contains(d) <==> (d.row == r && cell_matches(t, r, d.column, q)) by {
        if rm.contains(d) {
            let i = choose|i: int| 0 <= i < rm.len() && rm[i] == d;
            assert(d == k || d == v);
        }
        if d.row == r && cell_matches(t, r, d.column, q) {
            if d.column == ParsedColumn::Key {
                assert(d == k);
                assert(rm[0] == k);
            } else {
                assert(d == v);
                assert(rm[rm.len() - 1] == v);
            }
        }
    }
}

proof fn lemma_matches_upto_facts(t: EntryTableModel, rows: int, q: Seq<char>)
    requires
        0 <= rows <= t.entries.len(),
        t.entries.len() <= usize::MAX,
    ensures
        forall|d: SelectedDetail|
            matches_upto(t, rows, q).contains(d) <==> (d.row < rows && cell_matches(
                t,
                d.row as int,
                d.column,
                q,
            )),
        forall|i: int, j: int|
            0 <= i < j < matches_upto(t, rows, q).len() ==> reading_position(
                #[trigger] matches_upto(t, rows, q)[i],
            ) < reading_position(#[trigger] matches_upto(t, rows, q)[j]),
        forall|i: int|
            0 <= i < matches_upto(t, rows, q).len() ==> (#[trigger] matches_upto(t, rows, q)[i]).row
                < rows,
    decreases rows,
{
    if rows > 0 {
        lemma_matches_upto_facts(t, rows - 1, q);
        lemma_row_matches_facts(t, rows - 1, q);
        let a = matches_upto(t, rows - 1, q);
        let b = row_matches(t, rows - 1, q);
        let m = matches_upto(t, rows, q);
        assert(m == a + b);
        assert forall|d: SelectedDetail| m.contains(d) <==> (d.row < rows && cell_matches(t, d.row as int, d.column, q)) by {
            if m.contains(d) {
                let i = choose|i: int| 0 <= i < m.len() && m[i] == d;
                if i < a.len() {
                    assert(a[i] == d);
                    assert(a.contains(d));
                } else {
                    assert(b[i - a.len()] == d);
                    assert(b.contains(d));
                }
            }
            if d.row < rows && cell_matches(t, d.row as int, d.column, q) {
                if d.row < rows - 1 {
                    assert(a.contains(d));
                    let i = choose|i: int| 0 <= i < a.len() && a[i] == d;
                    assert(m[i] == d);
                } else {
                    assert(b.contains(d));
                    let i = choose|i: int| 0 <= i < b.len() && b[i] == d;
                    assert(m[a.len() + i] == d);
                }
            }
        }
        assert forall|i: int, j: int| 0 <= i < j < m.len() implies reading_position(
            #[trigger] m[i],
        ) < reading_position(#[trigger] m[j]) by {
            if j < a.len() {
                assert(m[i] == a[i] && m[j] == a[j]);
            } else if i >= a.len() {
                assert(m[i] == b[i - a.len()] && m[j] == b[j - a.len()]);
            } else {
                assert(m[i] == a[i] && m[j] == b[j - a.len()]);
                assert(a[i].row < rows - 1);
            }
        }
        assert forall|i: int| 0 <= i < m.len() implies (#[trigger] m[i]).row < rows by {
            if i < a.len() {
                assert(m[i] == a[i]);
            } else {
                assert(m[i] == b[i - a.len()]);
            }
        }
    }
}

/// A search finds exactly the cells whose lowercased table text contains
/// the lowercased query, each once, in reading order (row by row, key
/// before value); an empty query finds nothing.
pub proof fn law_search_finds_matching_cells(t: EntryTableModel, query: Seq<char>)
    requires
        t.entries.len() <= usize::MAX,
    ensures
        query.len() == 0 ==> search_matches(t, query).len() == 0,
        query.len() > 0 ==> forall|d: SelectedDetail|
            #[trigger] search_matches(t, query).contains(d) <==> (d.row < t.entries.len()
                && cell_matches(t, d.row as int, d.column, unicode_lowercase(query))),
        forall|i: int, j: int|
            0 <= i < j < search_matches(t, query).len() ==> reading_position(
                #[trigger] search_matches(t, query)[i],
            ) < reading_position(#[trigger] search_matches(t, query)[j]),
{
    if query.len() > 0 {
        lemma_matches_upto_facts(t, t.entries.len() as int, unicode_lowercase(query));
    }
}

/// Stepping through the matches and stepping back again returns to the
/// same match.
pub proof fn law_navigate_search_undoes(current: int, step: int, len: int)
    requires
        0 <= current < len,
    ensures
        0 <= step_index(current, step, len) < len,
        step_index(step_index(current, step, len), -step, len) == current,
{
    vstd::arithmetic::div_mod::lemma_mod_bound(current + step, len);
    let r = (current + step) % len;
    let q = (current + step) / len;
    vstd::arithmetic::div_mod::lemma_fundamental_div_mod(current + step, len);
    assert(r - step == current + (-q) * len) by (nonlinear_arith)
        requires
            current + step == len * q + r,
    ;
    vstd::arithmetic::div_mod::lemma_mod_multiples_vanish(-q, current, len);
    vstd::arithmetic::div_mod::lemma_small_mod(current as nat, len as nat);
}

/// Freshly loaded entries show every cell as bytes.
pub proof fn law_loaded_entries_show_bytes(t: EntryTableModel, row: usize, column: ParsedColumn)
    requires
        t.column_modes == (ColumnModes { key: ParseMode::Bytes, value: ParseMode::Bytes }),
        t.key_overrides == Map::<usize, ParseMode>::empty(),
        t.value_overrides == Map::<usize, ParseMode>::empty(),
    ensures
        effective_mode_of(t, row, column) == ParseMode::Bytes,
{
}


/// What a folder entry is.
#[derive(Clone, Copy, PartialEq, Eq, Structural, Debug)]
pub enum BrowserEntryKind {
    Directory,
    File { size_bytes: Option<u64> },
    Link,
}

impl BrowserEntryKind {
    pub fn is_directory(self) -> (b: bool)
        ensures
            b == (self is Directory),
    {
        match self {
            BrowserEntryKind::Directory => true,
            _ => false,
        }
    }

    /// Folders are listed first, then links, then files.
    pub fn sort_priority(self) -> (p: u8)
        ensures
            p == match self {
                BrowserEntryKind::Directory => 0u8,
                BrowserEntryKind::Link => 1u8,
                BrowserEntryKind::File { .. } => 2u8,
            },
    {
        match self {
            BrowserEntryKind::Directory => 0,
            BrowserEntryKind::Link => 1,
            BrowserEntryKind::File { .. } => 2,
        }
    }
}

/// The splitters between the panels and between the table's columns.
#[derive(Clone, Copy, PartialEq, Eq, Structural, Debug)]
pub enum SplitterKind {
    Sidebar,
    Browser,
    Detail,
    ResultIndex,
    ResultKey,
}

impl SplitterKind {
    /// A distinct number for each splitter.
    pub fn id(self) -> (id: usize)
        ensures
            id == match self {
                SplitterKind::Sidebar => 0usize,
                SplitterKind::Browser => 1usize,
                SplitterKind::Detail => 2usize,
                SplitterKind::ResultIndex => 3usize,
                SplitterKind::ResultKey => 4usize,
            },
    {
        match self {
            SplitterKind::Sidebar => 0,
            SplitterKind::Browser => 1,
            SplitterKind::Detail => 2,
            SplitterKind::ResultIndex => 3,
            SplitterKind::ResultKey => 4,
        }
    }

    /// Whether the splitter is dragged sideways.
    pub fn is_vertical(self) -> (b: bool)
        ensures
            b == (self is Sidebar || self is ResultIndex || self is ResultKey),
    {
        match self {
            SplitterKind::Sidebar | SplitterKind::ResultIndex | SplitterKind::ResultKey => true,
            _ => false,
        }
    }
}

impl EntryTable {
    /// The text that "Copy" in a context menu copies: the text selected in
    /// the detail panel when the menu was opened there and text is selected,
    /// else the target's detail text; from the table, the target's table
    /// text.
    pub fn context_copy_text(
        &self,
        target: ParseContextTarget,
        prefer_selected_detail_text: bool,
        selected_text: Option<String>,
    ) -> (text: Option<String>)
        ensures
            prefer_selected_detail_text && selected_text is Some ==> text == selected_text,
            prefer_selected_detail_text && selected_text is None ==> match target {
                ParseContextTarget::Cell { row, column } => match text {
                    Some(t) => detail_text(self@, row as int, column) == Some(t@),
                    None => detail_text(self@, row as int, column) is None,
                },
                ParseContextTarget::Header(_) => match text {
                    Some(t) => copy_text(self@, target) == Some(t@),
                    None => copy_text(self@, target) is None,
                },
            },
            !prefer_selected_detail_text ==> match text {
                Some(t) => copy_text(self@, target) == Some(t@),
                None => copy_text(self@, target) is None,
            },
    {
        if prefer_selected_detail_text {
            match selected_text {
                Some(t) => Some(t),
                None => self.detail_target_text(target),
            }
        } else {
            self.copy_target_text(target)
        }
    }

    /// The text that the copy shortcut copies: the text selected in the
    /// detail panel, else the selected cell's detail text; nothing when no
    /// cell is selected.
    pub fn copy_selected_item_text(&self, selected_text: Option<String>) -> (text: Option<String>)
        ensures
            self@.selected is None ==> text is None,
            self@.selected is Some && selected_text is Some ==> text == selected_text,
            self@.selected is Some && selected_text is None ==> {
                let d = self@.selected.unwrap();
                match text {
                    Some(t) => detail_text(self@, d.row as int, d.column) == Some(t@),
                    None => detail_text(self@, d.row as int, d.column) is None,
                }
            },
    {
        let detail = self.selected_detail?;
        match selected_text {
            Some(t) => Some(t),
            None => self.detail_target_text(
                ParseContextTarget::Cell { row: detail.row, column: detail.column },
            ),
        }
    }
}


#[verifier::external_type_specification]
#[verifier::external_body]
pub struct ExPathBuf(PathBuf);

/// An item of a folder listing.
pub struct BrowserEntry {
    pub path: PathBuf,
    /// The name shown.
    pub label: String,
    pub kind: BrowserEntryKind,
}

pub open spec fn kind_priority(kind: BrowserEntryKind) -> u8 {
    match kind {
        BrowserEntryKind::Directory => 0u8,
        BrowserEntryKind::Link => 1u8,
        BrowserEntryKind::File { .. } => 2u8,
    }
}

/// Listings are ordered by kind (folders, links, files), then by the
/// lowercased name.
pub open spec fn browser_sort_key(entry: BrowserEntry) -> (u8, Seq<char>) {
    (kind_priority(entry.kind), unicode_lowercase(entry.label@))
}

/// Orders a folder listing: folders first, then links, then files, each
/// group by lowercased name, keeping the order of equal names.
pub fn sort_browser_entries(entries: Vec<BrowserEntry>) -> (sorted: Vec<BrowserEntry>)
    ensures
        is_stable_sort(sorted@, entries@, |e: BrowserEntry| browser_sort_key(e)),
{
    let ghost input = entries@;
    let mut keys: Vec<SortKey> = Vec::new();
    let n = entries.len();
    let mut i: usize = 0;
    while i < n
        invariant
            n == input.len(),
            input == entries@,
            i <= n,
            keys@.len() == i,
            forall|k: int| 0 <= k < i ==> key_of(#[trigger] keys@[k]) == browser_sort_key(input[k]),
        decreases n - i,
    {
        let entry = &entries[i];
        let lower = to_lowercase(entry.label.as_str());
        keys.push(SortKey { rank: entry.kind.sort_priority(), text: chars_of(lower.as_str()) });
        i = i + 1;
    }
    sort_by_keys(entries, keys, Ghost(|e: BrowserEntry| browser_sort_key(e)))
}


/// How many folders the breadcrumb bar shows at most.
pub const MAX_BREADCRUMBS: usize = 6;

/// The breadcrumb trail for a folder whose ancestors, root first and the
/// folder itself last, are `ancestors`: all of them when there are at most
/// six, else the root and the last five, with `true` to say that some were
/// left out.
pub fn breadcrumb_paths(ancestors: Vec<PathBuf>) -> (trail: (Vec<PathBuf>, bool))
    ensures
        ancestors@.len() <= MAX_BREADCRUMBS ==> trail.0@ == ancestors@ && !trail.1,
        ancestors@.len() > MAX_BREADCRUMBS ==> trail.0@ == seq![ancestors@[0]]
            + ancestors@.subrange(ancestors@.len() - 5, ancestors@.len() as int) && trail.1,
{
    let n = ancestors.len();
    if n <= MAX_BREADCRUMBS {
        return (ancestors, false);
    }
    let mut visible = ancestors;
    let mut tail = visible.split_off(n - 5);
    visible.truncate(1);
    visible.append(&mut tail);
    proof {
        assert(visible@ =~= seq![ancestors@[0]] + ancestors@.subrange(n - 5, n as int));
    }
    (visible, true)
}

/// A breadcrumb trail is never longer than six, starts at the root and ends
/// at the folder itself.
pub proof fn law_breadcrumbs_keep_root_and_folder(ancestors: Seq<PathBuf>)
    requires
        ancestors.len() > 0,
    ensures
        ({
            let trail = if ancestors.len() <= MAX_BREADCRUMBS {
                ancestors
            } else {
                seq![ancestors[0]] + ancestors.subrange(ancestors.len() - 5, ancestors.len() as int)
            };
            &&& trail.len() <= MAX_BREADCRUMBS
            &&& trail[0] == ancestors[0]
            &&& trail.last() == ancestors.last()
        }),
{
}

} // verus!
