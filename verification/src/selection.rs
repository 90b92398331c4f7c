//! The state of the read-only text view that shows the selected key or
//! value: its text, its highlighting and the selected byte range, with the
//! UTF-8 / UTF-16 offset conversions that the platform's input handling
//! needs.

use vstd::prelude::*;
use vstd::utf8::*;
use std::ops::Range;
use crate::highlight::HighlightMode;
use crate::text::{
    byte_width, chars_of, lemma_byte_width_one, lemma_byte_width_split, len_utf16,
    len_utf8, push_char, str_byte_len, utf16_width, utf8_width,
};

verus! {

// ---------------------------------------------------------------------------
// Offsets
// ---------------------------------------------------------------------------

/// The number of UTF-16 code units of `s`.
pub open spec fn utf16_len(s: Seq<char>) -> nat
    decreases s.len(),
{
    if s.len() == 0 {
        0
    } else {
        utf16_width(s[0]) + utf16_len(s.drop_first())
    }
}

/// The UTF-8 offset of the UTF-16 offset `u`: whole characters are taken
/// from the front while fewer than `u` code units have been passed.
pub open spec fn utf16_to_utf8(s: Seq<char>, u: int) -> nat
    decreases s.len(),
{
    if s.len() == 0 || u <= 0 {
        0
    } else {
        utf8_width(s[0]) + utf16_to_utf8(s.drop_first(), u - utf16_width(s[0]))
    }
}

/// The UTF-16 offset of the UTF-8 offset `o`, counted the same way.
pub open spec fn utf8_to_utf16(s: Seq<char>, o: int) -> nat
    decreases s.len(),
{
    if s.len() == 0 || o <= 0 {
        0
    } else {
        utf16_width(s[0]) + utf8_to_utf16(s.drop_first(), o - utf8_width(s[0]))
    }
}

/// The characters of `s` whose first byte lies in `[a, b)`.
pub open spec fn chars_in_byte_range(s: Seq<char>, a: int, b: int) -> Seq<char>
    decreases s.len(),
{
    if s.len() == 0 {
        Seq::empty()
    } else {
        let rest = chars_in_byte_range(s.drop_first(), a - utf8_width(s[0]), b - utf8_width(s[0]));
        if a <= 0 && 0 < b {
            seq![s[0]] + rest
        } else {
            rest
        }
    }
}

proof fn lemma_utf8_width_pos(c: char)
    ensures
        1 <= utf8_width(c) <= 4,
        utf16_width(c) <= utf8_width(c),
{
    char_is_scalar(c);
}

proof fn lemma_skip_first(s: Seq<char>, k: int)
    requires
        0 <= k < s.len(),
    ensures
        s.subrange(k, s.len() as int).drop_first() =~= s.subrange(k + 1, s.len() as int),
        s.subrange(k, s.len() as int)[0] == s[k],
{
}

/// Conversions never leave the text.
proof fn lemma_utf16_to_utf8_bound(s: Seq<char>, u: int)
    ensures
        utf16_to_utf8(s, u) <= encode_utf8(s).len(),
    decreases s.len(),
{
    if s.len() > 0 && u > 0 {
        lemma_utf16_to_utf8_bound(s.drop_first(), u - utf16_width(s[0]));
        lemma_encode_first(s);
    }
}

proof fn lemma_encode_first(s: Seq<char>)
    requires
        s.len() > 0,
    ensures
        encode_utf8(s).len() == utf8_width(s[0]) + encode_utf8(s.drop_first()).len(),
{
}

/// The widths of the whole text.
proof fn lemma_utf16_len_le(s: Seq<char>)
    ensures
        utf16_len(s) <= encode_utf8(s).len(),
    decreases s.len(),
{
    if s.len() > 0 {
        lemma_utf8_width_pos(s[0]);
        lemma_utf16_len_le(s.drop_first());
        lemma_encode_first(s);
    }
}

// ---------------------------------------------------------------------------
// Executable conversions
// ---------------------------------------------------------------------------

/// Converts a UTF-16 offset into a UTF-8 offset of `content`.
pub fn offset_from_utf16(content: &str, offset: usize) -> (r: usize)
    ensures
        r == utf16_to_utf8(content@, offset as int),
{
    let total = str_byte_len(content);
    let s = chars_of(content);
    let n = s.len();
    let mut utf8_offset: usize = 0;
    let mut utf16_count: usize = 0;
    let mut k: usize = 0;
    proof {
        assert(s@.subrange(0, n as int) =~= s@);
        assert(s@.subrange(0, 0) =~= Seq::<char>::empty());
    }
    while k < n
        invariant
            n == s@.len(),
            s@ == content@,
            k <= n,
            total == encode_utf8(s@).len(),
            utf8_offset == byte_width(s@, 0, k as int),
            utf16_count <= utf8_offset,
            utf16_to_utf8(s@, offset as int) == utf8_offset + utf16_to_utf8(
                s@.subrange(k as int, n as int),
                offset - utf16_count,
            ),
        ensures
            k == n || utf16_count >= offset,
            utf16_to_utf8(s@, offset as int) == utf8_offset + utf16_to_utf8(
                s@.subrange(k as int, n as int),
                offset - utf16_count,
            ),
            k <= n,
        decreases n - k,
    {
        if utf16_count >= offset {
            break;
        }
        let ch = s[k];
        proof {
            lemma_skip_first(s@, k as int);
            lemma_utf8_width_pos(ch);
            lemma_byte_width_split(s@, 0, k as int, k + 1);
            lemma_byte_width_one(s@, k as int);
            lemma_byte_width_split(s@, 0, k + 1, n as int);
            assert(s@.subrange(0, n as int) =~= s@);
        }
        utf16_count = utf16_count + len_utf16(ch);
        utf8_offset = utf8_offset + len_utf8(ch);
        k = k + 1;
    }
    proof {
        assert(s@.subrange(n as int, n as int) =~= Seq::<char>::empty());
    }
    utf8_offset
}

/// Converts a UTF-8 offset of `content` into a UTF-16 offset.
pub fn offset_to_utf16(content: &str, offset: usize) -> (r: usize)
    ensures
        r == utf8_to_utf16(content@, offset as int),
{
    let total = str_byte_len(content);
    let s = chars_of(content);
    let n = s.len();
    let mut utf16_offset: usize = 0;
    let mut utf8_count: usize = 0;
    let mut k: usize = 0;
    proof {
        assert(s@.subrange(0, n as int) =~= s@);
        assert(s@.subrange(0, 0) =~= Seq::<char>::empty());
    }
    while k < n
        invariant
            n == s@.len(),
            s@ == content@,
            k <= n,
            total == encode_utf8(s@).len(),
            utf8_count == byte_width(s@, 0, k as int),
            utf16_offset <= utf8_count,
            utf8_to_utf16(s@, offset as int) == utf16_offset + utf8_to_utf16(
                s@.subrange(k as int, n as int),
                offset - utf8_count,
            ),
        ensures
            k == n || utf8_count >= offset,
            utf8_to_utf16(s@, offset as int) == utf16_offset + utf8_to_utf16(
                s@.subrange(k as int, n as int),
                offset - utf8_count,
            ),
            k <= n,
        decreases n - k,
    {
        if utf8_count >= offset {
            break;
        }
        let ch = s[k];
        proof {
            lemma_skip_first(s@, k as int);
            lemma_utf8_width_pos(ch);
            lemma_byte_width_split(s@, 0, k as int, k + 1);
            lemma_byte_width_one(s@, k as int);
            lemma_byte_width_split(s@, 0, k + 1, n as int);
            assert(s@.subrange(0, n as int) =~= s@);
        }
        utf8_count = utf8_count + len_utf8(ch);
        utf16_offset = utf16_offset + len_utf16(ch);
        k = k + 1;
    }
    proof {
        assert(s@.subrange(n as int, n as int) =~= Seq::<char>::empty());
    }
    utf16_offset
}

} // verus!

verus! {

/// A later UTF-16 offset never maps to an earlier byte offset; so every
/// range whose start is not after its end can be read by `text_for_range`.
pub proof fn lemma_utf16_to_utf8_monotonic(s: Seq<char>, u1: int, u2: int)
    requires
        u1 <= u2,
    ensures
        utf16_to_utf8(s, u1) <= utf16_to_utf8(s, u2),
    decreases s.len(),
{
    if s.len() > 0 && u1 > 0 {
        lemma_utf16_to_utf8_monotonic(s.drop_first(), u1 - utf16_width(s[0]), u2 - utf16_width(s[0]));
    }
}

/// Collects the characters of `s` whose first byte lies in `[a, b)`.
fn chars_between(s: &Vec<char>, a: usize, b: usize) -> (r: String)
    requires
        byte_width(s@, 0, s@.len() as int) <= usize::MAX,
    ensures
        r@ == chars_in_byte_range(s@, a as int, b as int),
{
    let n = s.len();
    let mut r = String::new();
    let mut pos: usize = 0;
    let mut k: usize = 0;
    proof {
        assert(s@.subrange(0, n as int) =~= s@);
        assert(s@.subrange(0, 0) =~= Seq::<char>::empty());
    }
    while k < n
        invariant
            n == s@.len(),
            k <= n,
            byte_width(s@, 0, n as int) <= usize::MAX,
            pos == byte_width(s@, 0, k as int),
            chars_in_byte_range(s@, a as int, b as int) == r@ + chars_in_byte_range(
                s@.subrange(k as int, n as int),
                a - pos,
                b - pos,
            ),
        decreases n - k,
    {
        let ch = s[k];
        proof {
            lemma_skip_first(s@, k as int);
            lemma_byte_width_split(s@, 0, k as int, k + 1);
            lemma_byte_width_one(s@, k as int);
            lemma_byte_width_split(s@, 0, k + 1, n as int);
        }
        let ghost before = r@;
        if a <= pos && pos < b {
            push_char(&mut r, ch);
            proof {
                assert(before + (seq![ch] + chars_in_byte_range(
                    s@.subrange(k + 1, n as int),
                    a - pos - utf8_width(ch),
                    b - pos - utf8_width(ch),
                )) =~= r@ + chars_in_byte_range(
                    s@.subrange(k + 1, n as int),
                    a - pos - utf8_width(ch),
                    b - pos - utf8_width(ch),
                ));
            }
        }
        pos = pos + len_utf8(ch);
        k = k + 1;
    }
    proof {
        assert(s@.subrange(n as int, n as int) =~= Seq::<char>::empty());
        assert(r@ + Seq::<char>::empty() =~= r@);
    }
    r
}

/// The abstract state of a [`SelectableTextView`].
pub struct TextViewModel {
    pub content: Seq<char>,
    pub highlight_mode: HighlightMode,
    pub start: nat,
    pub end: nat,
    pub reversed: bool,
    pub selecting: bool,
}

impl TextViewModel {
    /// The end of the selection that stays put while the selection is
    /// extended.
    pub open spec fn anchor(self) -> nat {
        if self.reversed {
            self.end
        } else {
            self.start
        }
    }

    /// The end of the selection that follows the pointer.
    pub open spec fn cursor(self) -> nat {
        if self.reversed {
            self.start
        } else {
            self.end
        }
    }

    /// The view after the selection is extended from its anchor to `offset`:
    /// the selection spans the two, reversed when `offset` comes before the
    /// anchor, and keeps its direction when they are equal.
    pub open spec fn selected_to(self, offset: nat) -> TextViewModel {
        let anchor = self.anchor();
        if offset < anchor {
            TextViewModel { start: offset, end: anchor, reversed: true, ..self }
        } else if offset > anchor {
            TextViewModel { start: anchor, end: offset, reversed: false, ..self }
        } else {
            TextViewModel { start: anchor, end: anchor, ..self }
        }
    }
}

/// The number of `'\n'` characters in `s`.
pub open spec fn newline_count(s: Seq<char>) -> nat
    decreases s.len(),
{
    if s.len() == 0 {
        0
    } else {
        newline_count(s.drop_last()) + if s.last() == '\n' {
            1nat
        } else {
            0nat
        }
    }
}

/// Read-only text with a selection, as shown in the detail panel.
pub struct SelectableTextView {
    content: String,
    highlight_mode: HighlightMode,
    selected_start: usize,
    selected_end: usize,
    selection_reversed: bool,
    is_selecting: bool,
}

impl View for SelectableTextView {
    type V = TextViewModel;

    closed spec fn view(&self) -> TextViewModel {
        TextViewModel {
            content: self.content@,
            highlight_mode: self.highlight_mode,
            start: self.selected_start as nat,
            end: self.selected_end as nat,
            reversed: self.selection_reversed,
            selecting: self.is_selecting,
        }
    }
}

impl SelectableTextView {
    #[verifier::type_invariant]
    closed spec fn selection_ordered(&self) -> bool {
        self.selected_start <= self.selected_end
    }

    /// An empty view with nothing selected.
    pub fn new() -> (view: Self)
        ensures
            view@.content == Seq::<char>::empty(),
            view@.highlight_mode == HighlightMode::Plain,
            view@.start == 0,
            view@.end == 0,
            !view@.reversed,
            !view@.selecting,
    {
        SelectableTextView {
            content: String::new(),
            highlight_mode: HighlightMode::Plain,
            selected_start: 0,
            selected_end: 0,
            selection_reversed: false,
            is_selecting: false,
        }
    }

    /// Replaces the text, shown without highlighting.
    pub fn set_text(&mut self, text: String)
        ensures
            final(self)@ == (TextViewModel {
                content: text@,
                highlight_mode: HighlightMode::Plain,
                start: 0,
                end: 0,
                reversed: false,
                selecting: false,
            }),
    {
        self.set_text_with_highlight(text, HighlightMode::Plain);
    }

    /// Replaces the text and its highlighting; the selection is cleared.
    pub fn set_text_with_highlight(&mut self, text: String, highlight_mode: HighlightMode)
        ensures
            final(self)@ == (TextViewModel {
                content: text@,
                highlight_mode,
                start: 0,
                end: 0,
                reversed: false,
                selecting: false,
            }),
    {
        proof {
            use_type_invariant(&*self);
        }
        self.selected_start = 0;
        self.selected_end = 0;
        self.content = text;
        self.highlight_mode = highlight_mode;
        self.selection_reversed = false;
        self.is_selecting = false;
    }

    /// The text shown.
    pub fn text(&self) -> (t: &str)
        ensures
            t@ == self@.content,
    {
        self.content.as_str()
    }

    /// How the text is highlighted.
    pub fn highlight_mode(&self) -> (m: HighlightMode)
        ensures
            m == self@.highlight_mode,
    {
        self.highlight_mode
    }

    /// The selected byte range.
    pub fn selected_range(&self) -> (r: Range<usize>)
        ensures
            r.start == self@.start,
            r.end == self@.end,
            r.start <= r.end,
    {
        proof {
            use_type_invariant(self);
        }
        self.selected_start..self.selected_end
    }

    /// Whether a pointer drag is selecting text.
    pub fn is_selecting(&self) -> (b: bool)
        ensures
            b == self@.selecting,
    {
        self.is_selecting
    }

    /// The number of lines of the text: one more than its line breaks.
    pub fn line_count(&self) -> (n: usize)
        ensures
            n == newline_count(self@.content) + 1,
    {
        let len = str_byte_len(self.content.as_str());
        let s = chars_of(self.content.as_str());
        let mut count: usize = 0;
        let mut k: usize = 0;
        proof {
            assert(s@.take(0) =~= Seq::<char>::empty());
            lemma_newline_count_le(s@);
            lemma_char_count_le_bytes(s@);
        }
        while k < s.len()
            invariant
                k <= s@.len(),
                s@ == self@.content,
                count == newline_count(s@.take(k as int)),
                count <= k,
                s@.len() <= len,
                len <= isize::MAX,
            decreases s@.len() - k,
        {
            proof {
                assert(s@.take(k + 1).drop_last() =~= s@.take(k as int));
            }
            if s[k] == '\n' {
                count = count + 1;
            }
            k = k + 1;
        }
        proof {
            assert(s@.take(s@.len() as int) =~= s@);
        }
        count + 1
    }

    /// The offset that follows the pointer.
    pub fn cursor_offset(&self) -> (offset: usize)
        ensures
            offset == self@.cursor(),
    {
        if self.selection_reversed {
            self.selected_start
        } else {
            self.selected_end
        }
    }

    /// Collapses the selection to `offset`.
    pub fn move_to(&mut self, offset: usize)
        ensures
            final(self)@ == (TextViewModel {
                start: offset as nat,
                end: offset as nat,
                reversed: false,
                ..old(self)@
            }),
    {
        proof {
            use_type_invariant(&*self);
        }
        if offset <= self.selected_start {
            self.selected_start = offset;
            self.selected_end = offset;
        } else {
            self.selected_end = offset;
            self.selected_start = offset;
        }
        self.selection_reversed = false;
    }

    /// Extends the selection from its anchor to `offset`.
    pub fn select_to(&mut self, offset: usize)
        ensures
            final(self)@ == old(self)@.selected_to(offset as nat),
            final(self)@.content == old(self)@.content,
            final(self)@.highlight_mode == old(self)@.highlight_mode,
            final(self)@.selecting == old(self)@.selecting,
            final(self)@.anchor() == old(self)@.anchor(),
            final(self)@.cursor() == offset,
            final(self)@.start <= final(self)@.end,
    {
        proof {
            use_type_invariant(&*self);
        }
        let mut start = self.selected_start;
        let mut end = self.selected_end;
        let mut reversed = self.selection_reversed;
        if reversed {
            start = offset;
        } else {
            end = offset;
        }
        if end < start {
            reversed = !reversed;
            let tmp = start;
            start = end;
            end = tmp;
        }
        if start <= self.selected_end {
            self.selected_start = start;
            self.selected_end = end;
        } else {
            self.selected_end = end;
            self.selected_start = start;
        }
        self.selection_reversed = reversed;
    }

    /// A press of the pointer at text offset `index`: starts a selection,
    /// extending the current one when `extend` (shift) is held.
    pub fn on_mouse_down(&mut self, index: usize, extend: bool)
        ensures
            final(self)@.selecting,
            final(self)@.content == old(self)@.content,
            final(self)@.cursor() == index,
            extend ==> final(self)@ == (TextViewModel { selecting: true, ..old(self)@ }).selected_to(
                index as nat,
            ),
            !extend ==> final(self)@ == (TextViewModel {
                start: index as nat,
                end: index as nat,
                reversed: false,
                selecting: true,
                ..old(self)@
            }),
            extend ==> final(self)@.anchor() == old(self)@.anchor(),
            !extend ==> final(self)@.start == index && final(self)@.end == index,
    {
        proof {
            use_type_invariant(&*self);
        }
        self.is_selecting = true;
        if extend {
            self.select_to(index);
        } else {
            self.move_to(index);
        }
    }

    /// The pointer is released: the selection stops following it.
    pub fn on_mouse_up(&mut self)
        ensures
            final(self)@ == (TextViewModel { selecting: false, ..old(self)@ }),
    {
        proof {
            use_type_invariant(&*self);
        }
        self.is_selecting = false;
    }

    /// The pointer moved to text offset `index`.
    pub fn on_mouse_move(&mut self, index: usize)
        ensures
            final(self)@.content == old(self)@.content,
            final(self)@.selecting == old(self)@.selecting,
            old(self)@.selecting ==> final(self)@.cursor() == index && final(self)@.anchor()
                == old(self)@.anchor(),
            old(self)@.selecting ==> final(self)@ == old(self)@.selected_to(index as nat),
            !old(self)@.selecting ==> final(self)@ == old(self)@,
    {
        if self.is_selecting {
            self.select_to(index);
        }
    }

    /// The UTF-8 offset of a UTF-16 offset into the text.
    pub fn offset_from_utf16(&self, offset: usize) -> (r: usize)
        ensures
            r == utf16_to_utf8(self@.content, offset as int),
    {
        offset_from_utf16(self.content.as_str(), offset)
    }

    /// The UTF-16 offset of a UTF-8 offset into the text.
    pub fn offset_to_utf16(&self, offset: usize) -> (r: usize)
        ensures
            r == utf8_to_utf16(self@.content, offset as int),
    {
        offset_to_utf16(self.content.as_str(), offset)
    }

    pub fn range_to_utf16(&self, range: &Range<usize>) -> (r: Range<usize>)
        ensures
            r.start == utf8_to_utf16(self@.content, range.start as int),
            r.end == utf8_to_utf16(self@.content, range.end as int),
    {
        self.offset_to_utf16(range.start)..self.offset_to_utf16(range.end)
    }

    pub fn range_from_utf16(&self, range_utf16: &Range<usize>) -> (r: Range<usize>)
        ensures
            r.start == utf16_to_utf8(self@.content, range_utf16.start as int),
            r.end == utf16_to_utf8(self@.content, range_utf16.end as int),
    {
        self.offset_from_utf16(range_utf16.start)..self.offset_from_utf16(range_utf16.end)
    }

    /// The text of a UTF-16 range; `actual_range` receives the UTF-16 range
    /// that was read. Both ends are first converted to byte offsets (an end
    /// past the text reaches its end), and these must not run backwards.
    pub fn text_for_range(
        &self,
        range_utf16: Range<usize>,
        actual_range: &mut Option<Range<usize>>,
    ) -> (text: Option<String>)
        requires
            utf16_to_utf8(self@.content, range_utf16.start as int) <= utf16_to_utf8(
                self@.content,
                range_utf16.end as int,
            ),
        ensures
            ({
                let a = utf16_to_utf8(self@.content, range_utf16.start as int);
                let b = utf16_to_utf8(self@.content, range_utf16.end as int);
                &&& a <= b
                &&& text is Some
                &&& text.unwrap()@ == chars_in_byte_range(self@.content, a as int, b as int)
                &&& (*final(actual_range)) is Some
                &&& (*final(actual_range)).unwrap().start == utf8_to_utf16(self@.content, a as int)
                &&& (*final(actual_range)).unwrap().end == utf8_to_utf16(self@.content, b as int)
            }),
    {
        let range = self.range_from_utf16(&range_utf16);
        *actual_range = Some(self.range_to_utf16(&range));
        let total = str_byte_len(self.content.as_str());
        let s = chars_of(self.content.as_str());
        proof {
            assert(s@.subrange(0, s@.len() as int) =~= s@);
        }
        Some(chars_between(&s, range.start, range.end))
    }

    /// The selected UTF-16 range and whether it runs backwards.
    pub fn selected_text_range(&self) -> (r: (Range<usize>, bool))
        ensures
            r.0.start == utf8_to_utf16(self@.content, self@.start as int),
            r.0.end == utf8_to_utf16(self@.content, self@.end as int),
            r.1 == self@.reversed,
    {
        let range = self.selected_range();
        (self.range_to_utf16(&range), self.selection_reversed)
    }

    /// The selected text, or `None` when the selection is empty.
    pub fn selected_text(&self) -> (text: Option<String>)
        ensures
            self@.start == self@.end ==> text is None,
            self@.start < self@.end ==> text is Some && text.unwrap()@ == chars_in_byte_range(
                self@.content,
                self@.start as int,
                self@.end as int,
            ),
    {
        let range = self.selected_range();
        if range.start == range.end {
            return None;
        }
        let total = str_byte_len(self.content.as_str());
        let s = chars_of(self.content.as_str());
        proof {
            assert(s@.subrange(0, s@.len() as int) =~= s@);
        }
        Some(chars_between(&s, range.start, range.end))
    }
}

proof fn lemma_newline_count_le(s: Seq<char>)
    ensures
        newline_count(s) <= s.len(),
    decreases s.len(),
{
    if s.len() > 0 {
        lemma_newline_count_le(s.drop_last());
    }
}

proof fn lemma_char_count_le_bytes(s: Seq<char>)
    ensures
        s.len() <= encode_utf8(s).len(),
    decreases s.len(),
{
    if s.len() > 0 {
        lemma_utf8_width_pos(s[0]);
        lemma_char_count_le_bytes(s.drop_first());
        lemma_encode_first(s);
    }
}

} // verus!

verus! {

proof fn lemma_prefix_shift(s: Seq<char>, k: int)
    requires
        0 < k <= s.len(),
    ensures
        byte_width(s, 0, k) == utf8_width(s[0]) + byte_width(s.drop_first(), 0, k - 1),
        utf16_len(s.take(k)) == utf16_width(s[0]) + utf16_len(s.drop_first().take(k - 1)),
        byte_width(s, 0, k) > 0,
        utf16_len(s.take(k)) > 0,
{
    lemma_byte_width_split(s, 0, 1, k);
    lemma_byte_width_one(s, 0);
    assert(s.subrange(1, k) =~= s.drop_first().subrange(0, k - 1));
    assert(s.take(k).drop_first() =~= s.drop_first().take(k - 1));
    assert(s.take(k)[0] == s[0]);
    lemma_utf8_width_pos(s[0]);
    char_is_scalar(s[0]);
}

/// Converting the UTF-8 offset of a character boundary to UTF-16 and back
/// gives the boundary again, and the other way round: offsets at character
/// boundaries correspond one to one.
pub proof fn law_offsets_round_trip(s: Seq<char>, k: int)
    requires
        0 <= k <= s.len(),
    ensures
        utf8_to_utf16(s, byte_width(s, 0, k) as int) == utf16_len(s.take(k)),
        utf16_to_utf8(s, utf16_len(s.take(k)) as int) == byte_width(s, 0, k),
        utf16_to_utf8(s, utf8_to_utf16(s, byte_width(s, 0, k) as int) as int) == byte_width(
            s,
            0,
            k,
        ),
    decreases k,
{
    if k == 0 {
        assert(s.subrange(0, 0) =~= Seq::<char>::empty());
        assert(s.take(0) =~= Seq::<char>::empty());
    } else {
        lemma_prefix_shift(s, k);
        law_offsets_round_trip(s.drop_first(), k - 1);
    }
}

proof fn lemma_chars_in_range_empty(s: Seq<char>, a: int, b: int)
    requires
        b <= 0,
    ensures
        chars_in_byte_range(s, a, b) == Seq::<char>::empty(),
    decreases s.len(),
{
    if s.len() > 0 {
        lemma_utf8_width_pos(s[0]);
        lemma_chars_in_range_empty(s.drop_first(), a - utf8_width(s[0]), b - utf8_width(s[0]));
    }
}

proof fn lemma_chars_in_range_start(s: Seq<char>, a: int, b: int)
    requires
        a <= 0,
    ensures
        chars_in_byte_range(s, a, b) == chars_in_byte_range(s, 0, b),
    decreases s.len(),
{
    if s.len() > 0 {
        lemma_utf8_width_pos(s[0]);
        lemma_chars_in_range_start(s.drop_first(), a - utf8_width(s[0]), b - utf8_width(s[0]));
        lemma_chars_in_range_start(s.drop_first(), 0 - utf8_width(s[0]), b - utf8_width(s[0]));
    }
}

/// Reading the bytes between two character boundaries gives exactly the
/// characters between them.
pub proof fn lemma_chars_between_boundaries(s: Seq<char>, i: int, j: int)
    requires
        0 <= i <= j <= s.len(),
    ensures
        chars_in_byte_range(s, byte_width(s, 0, i) as int, byte_width(s, 0, j) as int)
            == s.subrange(i, j),
    decreases s.len(),
{
    if s.len() == 0 {
        assert(s.subrange(i, j) =~= Seq::<char>::empty());
    } else {
        let w = utf8_width(s[0]);
        let rest = s.drop_first();
        lemma_utf8_width_pos(s[0]);
        if i == 0 {
            assert(s.subrange(0, 0) =~= Seq::<char>::empty());
            if j == 0 {
                lemma_chars_in_range_empty(s, 0, 0);
                assert(s.subrange(0, 0) =~= Seq::<char>::empty());
            } else {
                lemma_prefix_shift(s, j);
                lemma_chars_in_range_start(rest, 0 - w, byte_width(rest, 0, j - 1) as int);
                lemma_chars_between_boundaries(rest, 0, j - 1);
                assert(rest.subrange(0, 0) =~= Seq::<char>::empty());
                assert(s.subrange(0, j) =~= seq![s[0]] + rest.subrange(0, j - 1));
            }
        } else {
            lemma_prefix_shift(s, i);
            lemma_prefix_shift(s, j);
            lemma_chars_between_boundaries(rest, i - 1, j - 1);
            assert(s.subrange(i, j) =~= rest.subrange(i - 1, j - 1));
        }
    }
}

/// Asking for the text between the UTF-16 offsets of two character
/// boundaries `i <= j` reads exactly the characters `i..j`.
pub proof fn law_text_for_utf16_range(s: Seq<char>, i: int, j: int)
    requires
        0 <= i <= j <= s.len(),
    ensures
        chars_in_byte_range(
            s,
            utf16_to_utf8(s, utf16_len(s.take(i)) as int) as int,
            utf16_to_utf8(s, utf16_len(s.take(j)) as int) as int,
        ) == s.subrange(i, j),
{
    law_offsets_round_trip(s, i);
    law_offsets_round_trip(s, j);
    lemma_chars_between_boundaries(s, i, j);
}

} // verus!

verus! {

/// The byte ranges of the lines of `s[k..]`, with the current line starting
/// at byte `start` and `s[k]` at byte `pos`; a line ends before its `'\n'`.
pub open spec fn line_ranges_from(s: Seq<char>, k: int, start: nat, pos: nat) -> Seq<(nat, nat)>
    decreases s.len() - k,
{
    if k < 0 || k >= s.len() {
        seq![(start, pos)]
    } else if s[k] == '\n' {
        seq![(start, pos)] + line_ranges_from(s, k + 1, pos + 1, pos + 1)
    } else {
        line_ranges_from(s, k + 1, start, pos + utf8_width(s[k]))
    }
}

/// The byte ranges of the lines of a text (`split('\n')`).
pub open spec fn line_ranges_of(s: Seq<char>) -> Seq<(nat, nat)> {
    line_ranges_from(s, 0, 0, 0)
}

/// The byte range of each line of `content`, without its line break.
pub fn line_ranges(content: &str) -> (ranges: Vec<Range<usize>>)
    ensures
        ranges@.len() == line_ranges_of(content@).len(),
        forall|i: int|
            0 <= i < ranges@.len() ==> (#[trigger] ranges@[i]).start == line_ranges_of(
                content@,
            )[i].0 && ranges@[i].end == line_ranges_of(content@)[i].1,
{
    let total = str_byte_len(content);
    let s = chars_of(content);
    let n = s.len();
    let mut ranges: Vec<Range<usize>> = Vec::new();
    let mut start: usize = 0;
    let mut pos: usize = 0;
    let mut k: usize = 0;
    let ghost mut done: Seq<(nat, nat)> = Seq::empty();
    proof {
        assert(s@.subrange(0, 0) =~= Seq::<char>::empty());
        assert(s@.subrange(0, n as int) =~= s@);
    }
    while k < n
        invariant
            n == s@.len(),
            s@ == content@,
            k <= n,
            total == byte_width(s@, 0, n as int),
            pos == byte_width(s@, 0, k as int),
            start <= pos,
            ranges@.len() == done.len(),
            forall|i: int|
                0 <= i < ranges@.len() ==> (#[trigger] ranges@[i]).start == done[i].0
                    && ranges@[i].end == done[i].1,
            done + line_ranges_from(s@, k as int, start as nat, pos as nat) == line_ranges_of(s@),
        decreases n - k,
    {
        let c = s[k];
        proof {
            lemma_byte_width_split(s@, 0, k as int, k + 1);
            lemma_byte_width_one(s@, k as int);
            lemma_byte_width_split(s@, 0, k + 1, n as int);
            lemma_utf8_width_pos(c);
        }
        let w = len_utf8(c);
        if c == '\n' {
            ranges.push(start..pos);
            proof {
                let old_done = done;
                done = done.push((start as nat, pos as nat));
                assert(old_done + line_ranges_from(s@, k as int, start as nat, pos as nat) =~= done
                    + line_ranges_from(s@, k + 1, (pos + 1) as nat, (pos + 1) as nat));
            }
            pos = pos + w;
            start = pos;
        } else {
            pos = pos + w;
        }
        k = k + 1;
    }
    ranges.push(start..pos);
    proof {
        let old_done = done;
        done = done.push((start as nat, pos as nat));
        assert(old_done + line_ranges_from(s@, k as int, start as nat, pos as nat) =~= done);
    }
    ranges
}

} // verus!

verus! {

proof fn lemma_newline_count_concat(a: Seq<char>, b: Seq<char>)
    ensures
        newline_count(a + b) == newline_count(a) + newline_count(b),
    decreases b.len(),
{
    if b.len() == 0 {
        assert(a + b =~= a);
    } else {
        lemma_newline_count_concat(a, b.drop_last());
        assert((a + b).drop_last() =~= a + b.drop_last());
        assert((a + b).last() == b.last());
    }
}

proof fn lemma_line_ranges_from(s: Seq<char>, k: int, start: nat, pos: nat)
    requires
        0 <= k <= s.len(),
    ensures
        line_ranges_from(s, k, start, pos).len() == newline_count(s.subrange(k, s.len() as int))
            + 1,
        line_ranges_from(s, k, start, pos).last().1 == pos + byte_width(s, k, s.len() as int),
    decreases s.len() - k,
{
    let n = s.len() as int;
    if k == n {
        assert(s.subrange(k, n) =~= Seq::<char>::empty());
    } else {
        let one = seq![s[k]];
        assert(s.subrange(k, n) =~= one + s.subrange(k + 1, n));
        lemma_newline_count_concat(one, s.subrange(k + 1, n));
        assert(one.drop_last() =~= Seq::<char>::empty());
        assert(newline_count(one.drop_last()) == 0);
        assert(one.last() == s[k]);
        assert(newline_count(one) == if s[k] == '\n' { 1nat } else { 0nat });
        lemma_byte_width_split(s, k, k + 1, n);
        lemma_byte_width_one(s, k);
        if s[k] == '\n' {
            lemma_line_ranges_from(s, k + 1, pos + 1, pos + 1);
            assert(utf8_width('\n') == 1) by {
                assert(('\n' as u32) == 10);
            }
        } else {
            lemma_line_ranges_from(s, k + 1, start, pos + utf8_width(s[k]));
        }
    }
}

/// A text has one line more than it has line breaks (as many as
/// `SelectableTextView::line_count` counts), and its last line ends at the
/// end of the text.
pub proof fn law_line_ranges_cover_text(s: Seq<char>)
    ensures
        line_ranges_of(s).len() == newline_count(s) + 1,
        line_ranges_of(s).last().1 == encode_utf8(s).len(),
        line_ranges_of(s)[0].0 == 0,
{
    lemma_line_ranges_from(s, 0, 0, 0);
    assert(s.subrange(0, s.len() as int) =~= s);
    lemma_line_ranges_first(s, 0, 0, 0);
}

proof fn lemma_line_ranges_first(s: Seq<char>, k: int, start: nat, pos: nat)
    requires
        0 <= k <= s.len(),
    ensures
        line_ranges_from(s, k, start, pos)[0].0 == start,
    decreases s.len() - k,
{
    if k < s.len() && s[k] != '\n' {
        lemma_line_ranges_first(s, k + 1, start, pos + utf8_width(s[k]));
    }
}

} // verus!
