//! How key and value bytes are shown: as an escaped byte literal, as text,
//! or as pretty-printed JSON.

use vstd::prelude::*;
use vstd::utf8::*;
use crate::text::{chars_of, push_char};

verus! {

/// The lowercase hexadecimal digit for `n`, for `n < 16`.
pub open spec fn hex_digit(n: u8) -> char
    recommends
        n < 16,
{
    if n < 10 {
        (('0' as u8) + n) as char
    } else {
        (('a' as u8) + (n - 10)) as char
    }
}

/// True for the bytes that the byte view shows as themselves (printable ASCII).
pub open spec fn is_printable_ascii(b: u8) -> bool {
    32 <= b <= 126
}

/// How the byte view shows one byte: printable ASCII as itself, any other
/// byte as `\xHH` with two lowercase hex digits.
pub open spec fn escape_byte(b: u8) -> Seq<char> {
    if is_printable_ascii(b) {
        seq![b as char]
    } else {
        seq!['\\', 'x', hex_digit(b / 16), hex_digit(b % 16)]
    }
}

/// The escaped form of every byte of `data`, in order.
pub open spec fn escape_bytes(data: Seq<u8>) -> Seq<char>
    decreases data.len(),
{
    if data.len() == 0 {
        Seq::empty()
    } else {
        escape_bytes(data.drop_last()) + escape_byte(data.last())
    }
}

/// The byte view of `data`: `b'`, the escaped bytes, and a closing `'`.
pub open spec fn byte_literal(data: Seq<u8>) -> Seq<char> {
    seq!['b', '\''] + escape_bytes(data) + seq!['\'']
}

fn hex_digit_char(n: u8) -> (c: char)
    requires
        n < 16,
    ensures
        c == hex_digit(n),
{
    if n < 10 {
        (48u8 + n) as char
    } else {
        (97u8 + (n - 10)) as char
    }
}

/// Formats bytes as a Python-style byte literal, such as `b'A\x00'`.
pub fn format_bytes(data: &[u8]) -> (formatted: String)
    ensures
        formatted@ == byte_literal(data@),
{
    let mut formatted = String::new();
    push_char(&mut formatted, 'b');
    push_char(&mut formatted, '\'');
    let n = data.len();
    let mut i: usize = 0;
    while i < n
        invariant
            n == data@.len(),
            i <= n,
            formatted@ == seq!['b', '\''] + escape_bytes(data@.take(i as int)),
        decreases n - i,
    {
        let byte = data[i];
        proof {
            assert(data@.take(i + 1).drop_last() =~= data@.take(i as int));
        }
        if 32 <= byte && byte <= 126 {
            push_char(&mut formatted, byte as char);
        } else {
            push_char(&mut formatted, '\\');
            push_char(&mut formatted, 'x');
            push_char(&mut formatted, hex_digit_char(byte / 16));
            push_char(&mut formatted, hex_digit_char(byte % 16));
        }
        i = i + 1;
    }
    proof {
        assert(data@.take(n as int) =~= data@);
    }
    push_char(&mut formatted, '\'');
    formatted
}


/// True for printable ASCII characters (space through `~`).
pub open spec fn is_printable_ascii_char(c: char) -> bool {
    ' ' <= c <= '~'
}

proof fn lemma_escape_bytes_printable(data: Seq<u8>)
    ensures
        forall|k: int|
            0 <= k < escape_bytes(data).len() ==> is_printable_ascii_char(
                #[trigger] escape_bytes(data)[k],
            ),
    decreases data.len(),
{
    if data.len() > 0 {
        lemma_escape_bytes_printable(data.drop_last());
        let prev = escape_bytes(data.drop_last());
        let b = data.last();
        let e = escape_byte(b);
        assert forall|k: int| 0 <= k < e.len() implies is_printable_ascii_char(#[trigger] e[k]) by {
            if !is_printable_ascii(b) {
                assert(b / 16 < 16 && b % 16 < 16);
            }
        }
        assert forall|k: int| 0 <= k < (prev + e).len() implies is_printable_ascii_char(
            #[trigger] (prev + e)[k],
        ) by {
            if k < prev.len() {
                assert((prev + e)[k] == prev[k]);
            } else {
                assert((prev + e)[k] == e[k - prev.len()]);
            }
        }
    }
}

/// The byte view is printable ASCII whatever the bytes: every other byte is
/// escaped, so the view is safe to show on one line and in a CSV cell.
pub proof fn law_byte_view_is_printable_ascii(data: Seq<u8>)
    ensures
        forall|k: int|
            0 <= k < byte_literal(data).len() ==> is_printable_ascii_char(
                #[trigger] byte_literal(data)[k],
            ),
{
    lemma_escape_bytes_printable(data);
    let e = escape_bytes(data);
    let lit = byte_literal(data);
    assert forall|k: int| 0 <= k < lit.len() implies is_printable_ascii_char(#[trigger] lit[k]) by {
        if k < 2 {
        } else if k < 2 + e.len() {
            assert(lit[k] == e[k - 2]);
        } else {
        }
    }
}

// ---------------------------------------------------------------------------
// Text view
// ---------------------------------------------------------------------------

/// The characters that `String::from_utf8_lossy` decodes from `bytes`.
pub uninterp spec fn utf8_lossy(bytes: Seq<u8>) -> Seq<char>;

/// Decodes bytes as UTF-8, replacing invalid sequences.
///
/// Calls `String::from_utf8_lossy`. The contract names its result
/// (`utf8_lossy`) and states what its documentation gives: valid UTF-8 is
/// decoded unchanged. How invalid sequences are replaced by U+FFFD is not
/// stated.
#[verifier::external_body]
fn decode_utf8_lossy(bytes: &[u8]) -> (s: String)
    ensures
        s@ == utf8_lossy(bytes@),
        valid_utf8(bytes@) ==> s@ == decode_utf8(bytes@),
{
    String::from_utf8_lossy(bytes).into_owned()
}

/// The Unicode control characters (general category `Cc`), which
/// `char::is_control` tests.
pub open spec fn is_control_char(c: char) -> bool {
    (c as u32) <= 0x1f || (0x7f <= (c as u32) && (c as u32) <= 0x9f)
}

/// Characters that the text view keeps: everything but control characters,
/// except line feed, carriage return and tab.
pub open spec fn kept_in_text(c: char) -> bool {
    !is_control_char(c) || c == '\n' || c == '\r' || c == '\t'
}

/// `s` without the characters that the text view drops.
pub open spec fn keep_text_chars(s: Seq<char>) -> Seq<char>
    decreases s.len(),
{
    if s.len() == 0 {
        Seq::empty()
    } else if kept_in_text(s.last()) {
        keep_text_chars(s.drop_last()).push(s.last())
    } else {
        keep_text_chars(s.drop_last())
    }
}

/// The text view of `bytes`.
pub open spec fn text_view(bytes: Seq<u8>) -> Seq<char> {
    keep_text_chars(utf8_lossy(bytes))
}

fn is_control(c: char) -> (r: bool)
    ensures
        r == is_control_char(c),
{
    (c as u32) <= 0x1f || (0x7f <= (c as u32) && (c as u32) <= 0x9f)
}

/// Shows bytes as text: decoded as UTF-8 with invalid sequences replaced,
/// and control characters other than line breaks and tabs removed.
pub fn format_text_bytes(bytes: &[u8]) -> (text: String)
    ensures
        text@ == text_view(bytes@),
        valid_utf8(bytes@) ==> text@ == keep_text_chars(decode_utf8(bytes@)),
{
    let decoded = decode_utf8_lossy(bytes);
    let chars = chars_of(decoded.as_str());
    let mut text = String::new();
    let mut k: usize = 0;
    proof {
        assert(chars@.take(0) =~= Seq::<char>::empty());
    }
    while k < chars.len()
        invariant
            k <= chars@.len(),
            chars@ == utf8_lossy(bytes@),
            text@ == keep_text_chars(chars@.take(k as int)),
        decreases chars@.len() - k,
    {
        let c = chars[k];
        proof {
            assert(chars@.take(k + 1).drop_last() =~= chars@.take(k as int));
        }
        if !is_control(c) || c == '\n' || c == '\r' || c == '\t' {
            push_char(&mut text, c);
        }
        k = k + 1;
    }
    proof {
        assert(chars@.take(chars@.len() as int) =~= chars@);
    }
    text
}

/// The text view never holds a control character other than a line feed,
/// a carriage return or a tab.
pub proof fn law_text_view_has_no_control_chars(bytes: Seq<u8>)
    ensures
        forall|k: int|
            0 <= k < text_view(bytes).len() ==> kept_in_text(#[trigger] text_view(bytes)[k]),
{
    lemma_keep_text_chars_kept(utf8_lossy(bytes));
}

proof fn lemma_keep_text_chars_kept(s: Seq<char>)
    ensures
        forall|k: int|
            0 <= k < keep_text_chars(s).len() ==> kept_in_text(#[trigger] keep_text_chars(s)[k]),
    decreases s.len(),
{
    if s.len() > 0 {
        lemma_keep_text_chars_kept(s.drop_last());
        let prev = keep_text_chars(s.drop_last());
        if kept_in_text(s.last()) {
            assert forall|k: int| 0 <= k < prev.push(s.last()).len() implies kept_in_text(
                #[trigger] prev.push(s.last())[k],
            ) by {
                if k < prev.len() {
                    assert(prev.push(s.last())[k] == prev[k]);
                }
            }
        }
    }
}

proof fn lemma_keep_text_chars_is_filter(s: Seq<char>)
    ensures
        keep_text_chars(s) == s.filter(|c: char| kept_in_text(c)),
    decreases s.len(),
{
    reveal(Seq::filter);
    if s.len() > 0 {
        lemma_keep_text_chars_is_filter(s.drop_last());
    }
}

proof fn lemma_keep_text_chars_members(s: Seq<char>, c: char)
    ensures
        keep_text_chars(s).contains(c) <==> (s.contains(c) && kept_in_text(c)),
    decreases s.len(),
{
    if s.len() > 0 {
        let p = s.drop_last();
        lemma_keep_text_chars_members(p, c);
        let prev = keep_text_chars(p);
        assert(s =~= p.push(s.last()));
        if kept_in_text(s.last()) {
            assert(keep_text_chars(s) == prev.push(s.last()));
            if prev.push(s.last()).contains(c) {
                let i = choose|i: int| 0 <= i < prev.push(s.last()).len() && prev.push(s.last())[i] == c;
                if i < prev.len() {
                    assert(prev[i] == c);
                }
            }
            if prev.contains(c) {
                let i = choose|i: int| 0 <= i < prev.len() && prev[i] == c;
                assert(prev.push(s.last())[i] == c);
            }
            if c == s.last() {
                assert(prev.push(s.last())[prev.len() as int] == c);
            }
        }
        if s.contains(c) {
            let i = choose|i: int| 0 <= i < s.len() && s[i] == c;
            if i < p.len() {
                assert(p[i] == c);
            }
        }
        if p.contains(c) {
            let i = choose|i: int| 0 <= i < p.len() && p[i] == c;
            assert(s[i] == c);
        }
    }
}

proof fn lemma_keep_text_chars_all_kept(s: Seq<char>)
    requires
        forall|i: int| 0 <= i < s.len() ==> kept_in_text(#[trigger] s[i]),
    ensures
        keep_text_chars(s) == s,
    decreases s.len(),
{
    if s.len() > 0 {
        assert(kept_in_text(s[s.len() - 1]));
        lemma_keep_text_chars_all_kept(s.drop_last());
        assert(s.drop_last().push(s.last()) =~= s);
    }
}

/// The text view keeps exactly the characters that are not control
/// characters, together with line feeds, carriage returns and tabs, in
/// their order: it is the filter of the decoded text by `kept_in_text`, a
/// character is in the view exactly when it is in the text and kept, and a
/// text with nothing to drop is shown unchanged. So for valid UTF-8 with no
/// such control character, the text view is the decoded text.
pub proof fn law_text_view_keeps_exactly_kept_chars(s: Seq<char>, c: char, bytes: Seq<u8>)
    ensures
        keep_text_chars(s) == s.filter(|c: char| kept_in_text(c)),
        keep_text_chars(s).contains(c) <==> (s.contains(c) && kept_in_text(c)),
        (forall|i: int| 0 <= i < s.len() ==> kept_in_text(#[trigger] s[i])) ==> keep_text_chars(s)
            == s,
        valid_utf8(bytes) && (forall|i: int|
            0 <= i < decode_utf8(bytes).len() ==> kept_in_text(#[trigger] decode_utf8(bytes)[i]))
            ==> keep_text_chars(decode_utf8(bytes)) == decode_utf8(bytes),
{
    lemma_keep_text_chars_is_filter(s);
    lemma_keep_text_chars_members(s, c);
    if forall|i: int| 0 <= i < s.len() ==> kept_in_text(#[trigger] s[i]) {
        lemma_keep_text_chars_all_kept(s);
    }
    if valid_utf8(bytes) && (forall|i: int|
        0 <= i < decode_utf8(bytes).len() ==> kept_in_text(#[trigger] decode_utf8(bytes)[i])) {
        lemma_keep_text_chars_all_kept(decode_utf8(bytes));
    }
}

// ---------------------------------------------------------------------------
// One-line preview
// ---------------------------------------------------------------------------

/// The preview shows line feeds, carriage returns and tabs as spaces.
pub open spec fn preview_char(c: char) -> char {
    if c == '\r' || c == '\n' || c == '\t' {
        ' '
    } else {
        c
    }
}

pub open spec fn preview_of(s: Seq<char>) -> Seq<char> {
    Seq::new(s.len(), |k: int| preview_char(s[k]))
}

/// Puts text on one line for a table cell.
pub fn single_line_preview(text: &str) -> (preview: String)
    ensures
        preview@ == preview_of(text@),
{
    let chars = chars_of(text);
    let mut preview = String::new();
    let mut k: usize = 0;
    while k < chars.len()
        invariant
            k <= chars@.len(),
            chars@ == text@,
            preview@ =~= preview_of(chars@.take(k as int)),
        decreases chars@.len() - k,
    {
        let c = chars[k];
        if c == '\r' || c == '\n' || c == '\t' {
            push_char(&mut preview, ' ');
        } else {
            push_char(&mut preview, c);
        }
        k = k + 1;
    }
    proof {
        assert(chars@.take(chars@.len() as int) =~= chars@);
    }
    preview
}

/// A preview has as many characters as its text, holds no line break or
/// tab, and previewing it again changes nothing.
pub proof fn law_preview_is_single_line(s: Seq<char>)
    ensures
        preview_of(s).len() == s.len(),
        forall|k: int|
            0 <= k < s.len() ==> #[trigger] preview_of(s)[k] != '\n' && preview_of(s)[k] != '\r'
                && preview_of(s)[k] != '\t',
        preview_of(preview_of(s)) == preview_of(s),
{
    assert(preview_of(preview_of(s)) =~= preview_of(s));
}

// ---------------------------------------------------------------------------
// Modes
// ---------------------------------------------------------------------------

/// How a key or value is shown.
#[derive(Clone, Copy, PartialEq, Eq, Structural, Debug)]
pub enum ParseMode {
    Bytes,
    Text,
    Json,
}

/// Whether `serde_json` parses `bytes` as a JSON value.
pub uninterp spec fn json_valid(bytes: Seq<u8>) -> bool;

/// The text that `serde_json` prints for the value parsed from `bytes`,
/// indented by `indent_spaces` spaces per level.
pub uninterp spec fn json_pretty(bytes: Seq<u8>, indent_spaces: u8) -> Seq<char>;

/// Tells whether the bytes hold one JSON value.
///
/// Calls `serde_json::from_slice::<serde_json::Value>`; the contract names
/// whether it succeeds.
#[verifier::external_body]
fn json_parses(bytes: &[u8]) -> (valid: bool)
    ensures
        valid == json_valid(bytes@),
{
    serde_json::from_slice::<serde_json::Value>(bytes).is_ok()
}

/// Pretty-prints the JSON value held by the bytes.
///
/// Parses with `serde_json::from_slice::<serde_json::Value>` and prints with
/// `serde_json::Serializer` and a `PrettyFormatter` whose indent is
/// `indent_spaces` spaces. The contract claims that a result comes exactly
/// when the bytes parse (printing a parsed `Value` into memory does not
/// fail: its map keys are strings and writing to a `Vec` has no I/O error,
/// and the printer emits UTF-8) and names the printed text. How values are
/// laid out is not stated.
#[verifier::external_body]
fn format_json_bytes(bytes: &[u8], indent_spaces: u8) -> (formatted: Option<String>)
    ensures
        formatted is Some <==> json_valid(bytes@),
        formatted matches Some(text) ==> text@ == json_pretty(bytes@, indent_spaces),
{
    let value = serde_json::from_slice::<serde_json::Value>(bytes).ok()?;
    let indent = vec![b' '; indent_spaces as usize];
    let formatter = serde_json::ser::PrettyFormatter::with_indent(&indent);
    let mut formatted = Vec::new();
    let mut serializer = serde_json::Serializer::with_formatter(&mut formatted, formatter);
    serde::Serialize::serialize(&value, &mut serializer).ok()?;
    String::from_utf8(formatted).ok()
}

/// The JSON view: the pretty-printed value, or the byte view when the bytes
/// are not JSON.
pub open spec fn json_view(bytes: Seq<u8>, indent_spaces: u8) -> Seq<char> {
    if json_valid(bytes) {
        json_pretty(bytes, indent_spaces)
    } else {
        byte_literal(bytes)
    }
}

/// What a key or value shows in `mode`; JSON is indented by
/// `indent_spaces` spaces.
pub open spec fn mode_view(bytes: Seq<u8>, mode: ParseMode, indent_spaces: u8) -> Seq<char> {
    match mode {
        ParseMode::Bytes => byte_literal(bytes),
        ParseMode::Text => text_view(bytes),
        ParseMode::Json => json_view(bytes, indent_spaces),
    }
}

/// The indent of JSON in table cells and copies, that of
/// `serde_json::to_string_pretty`.
pub open spec fn default_json_indent() -> u8 {
    2
}

/// Whether the bytes hold JSON.
pub fn is_valid_json(bytes: &[u8]) -> (valid: bool)
    ensures
        valid == json_valid(bytes@),
{
    json_parses(bytes)
}

/// Formats bytes in `mode`, with JSON printed by
/// `serde_json::to_string_pretty` (two spaces per level).
pub fn format_bytes_with_mode(bytes: &[u8], mode: ParseMode) -> (formatted: String)
    ensures
        formatted@ == mode_view(bytes@, mode, default_json_indent()),
{
    format_bytes_with_mode_and_json_indent(bytes, mode, 2)
}

/// Formats bytes in `mode`, with JSON indented by `json_indent_spaces`.
pub fn format_bytes_with_mode_and_json_indent(
    bytes: &[u8],
    mode: ParseMode,
    json_indent_spaces: u8,
) -> (formatted: String)
    ensures
        formatted@ == mode_view(bytes@, mode, json_indent_spaces),
{
    match mode {
        ParseMode::Bytes => format_bytes(bytes),
        ParseMode::Text => format_text_bytes(bytes),
        ParseMode::Json => match format_json_bytes(bytes, json_indent_spaces) {
            Some(text) => text,
            None => format_bytes(bytes),
        },
    }
}

} // verus!
