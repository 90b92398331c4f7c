//! Syntax colouring of pretty-printed JSON, one line at a time.
//!
//! A line is cut into tokens (whitespace, strings, object keys, punctuation,
//! numbers, the keywords `true`, `false` and `null`, and anything else), each
//! token gets the colour of its kind, and neighbouring tokens of the same
//! colour are merged into one run. Run lengths count UTF-8 bytes.

use vstd::prelude::*;
use vstd::utf8::*;
use crate::text::{
    byte_width, byte_width_of, chars_of, is_unicode_whitespace, is_whitespace, lemma_byte_width_split,
    str_byte_len,
};

verus! {

/// The colours of the JSON highlighting, as `0xRRGGBB` values.
#[derive(Clone, Copy, PartialEq, Eq, Structural, Debug)]
pub struct JsonHighlightColors {
    pub default: u32,
    pub key: u32,
    pub string: u32,
    pub number: u32,
    pub keyword: u32,
    pub punctuation: u32,
}

/// How a text view colours its lines.
#[derive(Clone, Copy, PartialEq, Eq, Structural, Debug)]
pub enum HighlightMode {
    Plain,
    Json(JsonHighlightColors),
}

/// The kinds of JSON tokens that get a colour of their own.
#[derive(Clone, Copy, PartialEq, Eq, Structural, Debug)]
pub enum TokenKind {
    Other,
    Key,
    Str,
    Number,
    Keyword,
    Punctuation,
}

/// A run of `len` bytes drawn in `color`.
#[derive(Clone, Copy, PartialEq, Eq, Structural, Debug)]
pub struct HighlightRun {
    pub len: usize,
    pub color: u32,
}

pub open spec fn kind_color(colors: JsonHighlightColors, kind: TokenKind) -> u32 {
    match kind {
        TokenKind::Other => colors.default,
        TokenKind::Key => colors.key,
        TokenKind::Str => colors.string,
        TokenKind::Number => colors.number,
        TokenKind::Keyword => colors.keyword,
        TokenKind::Punctuation => colors.punctuation,
    }
}

pub open spec fn is_json_punctuation(c: char) -> bool {
    c == '{' || c == '}' || c == '[' || c == ']' || c == ':' || c == ','
}

pub open spec fn is_ascii_digit(c: char) -> bool {
    '0' <= c <= '9'
}

/// Characters that continue a number: digits, signs, the point and exponents.
pub open spec fn is_number_part(c: char) -> bool {
    is_ascii_digit(c) || c == '-' || c == '+' || c == '.' || c == 'e' || c == 'E'
}

/// Which characters `advance_while` steps over.
#[derive(Clone, Copy, PartialEq, Eq, Structural, Debug)]
pub enum CharClass {
    Whitespace,
    NumberPart,
}

pub open spec fn in_class(class: CharClass, c: char) -> bool {
    match class {
        CharClass::Whitespace => is_unicode_whitespace(c),
        CharClass::NumberPart => is_number_part(c),
    }
}

/// The first index at or after `i` whose character is not in `class`.
pub open spec fn skip_class(s: Seq<char>, i: int, class: CharClass) -> int
    decreases s.len() - i,
{
    if 0 <= i < s.len() && in_class(class, s[i]) {
        skip_class(s, i + 1, class)
    } else {
        i
    }
}

/// Where a string token ends when its body starts at `j`: just after the
/// closing quote, or at the end of the line; a backslash escapes the
/// character after it.
pub open spec fn string_end(s: Seq<char>, j: int) -> int
    decreases s.len() - j,
{
    if j < 0 || j >= s.len() {
        j
    } else if s[j] == '\\' {
        if j + 1 < s.len() {
            string_end(s, j + 2)
        } else {
            j + 1
        }
    } else if s[j] == '"' {
        j + 1
    } else {
        string_end(s, j + 1)
    }
}

pub open spec fn word_at(s: Seq<char>, i: int, w: Seq<char>) -> bool {
    0 <= i && i + w.len() <= s.len() && s.subrange(i, i + w.len()) == w
}

pub open spec fn word_true() -> Seq<char> {
    seq!['t', 'r', 'u', 'e']
}

pub open spec fn word_false() -> Seq<char> {
    seq!['f', 'a', 'l', 's', 'e']
}

pub open spec fn word_null() -> Seq<char> {
    seq!['n', 'u', 'l', 'l']
}

/// The token that starts at `i`: its end and its kind.
pub open spec fn token_at(s: Seq<char>, i: int) -> (int, TokenKind) {
    let c = s[i];
    if is_unicode_whitespace(c) {
        (skip_class(s, i, CharClass::Whitespace), TokenKind::Other)
    } else if c == '"' {
        let end = string_end(s, i + 1);
        let next = skip_class(s, end, CharClass::Whitespace);
        if next < s.len() && s[next] == ':' {
            (end, TokenKind::Key)
        } else {
            (end, TokenKind::Str)
        }
    } else if is_json_punctuation(c) {
        (i + 1, TokenKind::Punctuation)
    } else if c == '-' || is_ascii_digit(c) {
        (skip_class(s, i, CharClass::NumberPart), TokenKind::Number)
    } else if word_at(s, i, word_true()) {
        (i + 4, TokenKind::Keyword)
    } else if word_at(s, i, word_false()) {
        (i + 5, TokenKind::Keyword)
    } else if word_at(s, i, word_null()) {
        (i + 4, TokenKind::Keyword)
    } else {
        (i + 1, TokenKind::Other)
    }
}

/// The tokens of `s` from index `i` on, each as its byte width and kind.
pub open spec fn tokens_from(s: Seq<char>, i: int) -> Seq<(nat, TokenKind)>
    decreases s.len() - i,
{
    if 0 <= i < s.len() {
        let (end, kind) = token_at(s, i);
        if i < end <= s.len() {
            seq![(byte_width(s, i, end), kind)] + tokens_from(s, end)
        } else {
            Seq::empty()
        }
    } else {
        Seq::empty()
    }
}

/// Appends a run of `len` bytes in `color`: nothing when `len` is zero, an
/// extension of the last run when it has the same colour, else a new run.
pub open spec fn push_run_spec(runs: Seq<(nat, u32)>, len: nat, color: u32) -> Seq<(nat, u32)> {
    if len == 0 {
        runs
    } else if runs.len() > 0 && runs.last().1 == color {
        runs.drop_last().push((runs.last().0 + len, color))
    } else {
        runs.push((len, color))
    }
}

/// Pushes the runs of `tokens`, coloured by kind, onto `runs`.
pub open spec fn merge_tokens(
    runs: Seq<(nat, u32)>,
    tokens: Seq<(nat, TokenKind)>,
    colors: JsonHighlightColors,
) -> Seq<(nat, u32)>
    decreases tokens.len(),
{
    if tokens.len() == 0 {
        runs
    } else {
        merge_tokens(
            push_run_spec(runs, tokens[0].0, kind_color(colors, tokens[0].1)),
            tokens.drop_first(),
            colors,
        )
    }
}

/// The runs of a JSON line: one empty run for an empty line.
pub open spec fn json_line_runs(s: Seq<char>, colors: JsonHighlightColors) -> Seq<(nat, u32)> {
    if s.len() == 0 {
        seq![(0nat, colors.default)]
    } else {
        merge_tokens(Seq::empty(), tokens_from(s, 0), colors)
    }
}

/// The runs of a line in either mode.
pub open spec fn line_runs(s: Seq<char>, default_color: u32, mode: HighlightMode) -> Seq<
    (nat, u32),
> {
    match mode {
        HighlightMode::Plain => seq![(encode_utf8(s).len(), default_color)],
        HighlightMode::Json(colors) => json_line_runs(s, colors),
    }
}

pub open spec fn runs_view(runs: Seq<HighlightRun>) -> Seq<(nat, u32)> {
    Seq::new(runs.len(), |k: int| (runs[k].len as nat, runs[k].color))
}

pub open spec fn total_len(runs: Seq<(nat, u32)>) -> nat
    decreases runs.len(),
{
    if runs.len() == 0 {
        0
    } else {
        total_len(runs.drop_last()) + runs.last().0
    }
}

// ---------------------------------------------------------------------------
// Facts about the specification
// ---------------------------------------------------------------------------

pub proof fn lemma_skip_class_bounds(s: Seq<char>, i: int, class: CharClass)
    requires
        0 <= i <= s.len(),
    ensures
        i <= skip_class(s, i, class) <= s.len(),
        forall|k: int| i <= k < skip_class(s, i, class) ==> in_class(class, #[trigger] s[k]),
        skip_class(s, i, class) < s.len() ==> !in_class(class, s[skip_class(s, i, class)]),
    decreases s.len() - i,
{
    if i < s.len() && in_class(class, s[i]) {
        lemma_skip_class_bounds(s, i + 1, class);
    }
}

pub proof fn lemma_string_end_bounds(s: Seq<char>, j: int)
    requires
        0 <= j <= s.len(),
    ensures
        j <= string_end(s, j) <= s.len(),
    decreases s.len() - j,
{
    if j < s.len() {
        if s[j] == '\\' {
            if j + 1 < s.len() {
                lemma_string_end_bounds(s, j + 2);
            }
        } else if s[j] != '"' {
            lemma_string_end_bounds(s, j + 1);
        }
    }
}

proof fn lemma_string_end_plain_run(s: Seq<char>, j: int, n: int)
    requires
        0 <= j,
        0 <= n,
        j + n <= s.len(),
        forall|m: int| j <= m < j + n ==> s[m] != '"' && s[m] != '\\',
    ensures
        string_end(s, j) == string_end(s, j + n),
    decreases n,
{
    if n > 0 {
        assert(s[j] != '"' && s[j] != '\\');
        lemma_string_end_plain_run(s, j + 1, n - 1);
    }
}

proof fn lemma_string_end_backslash_pairs(s: Seq<char>, j: int, k: int)
    requires
        0 <= j,
        0 <= k,
        j + 2 * k <= s.len(),
        forall|m: int| j <= m < j + 2 * k ==> s[m] == '\\',
    ensures
        string_end(s, j) == string_end(s, j + 2 * k),
    decreases k,
{
    if k > 0 {
        assert(s[j] == '\\');
        lemma_string_end_backslash_pairs(s, j + 2, k - 1);
        assert(j + 2 + 2 * (k - 1) == j + 2 * k);
    }
}

/// Inside a string a backslash escapes exactly the one character after it,
/// whatever that character is; other characters than quotes and
/// backslashes leave the string open; the first quote that is not escaped
/// closes it, and a string left open runs to the end of the line. So a run
/// of an even number of backslashes escapes only itself and the quote after
/// it closes the string, while after an odd run the quote is escaped and
/// the string goes on.
pub proof fn law_string_end_escapes(s: Seq<char>, j: int, n: int, k: int)
    requires
        0 <= j,
    ensures
        j + 1 < s.len() && s[j] == '\\' ==> string_end(s, j) == string_end(s, j + 2),
        j < s.len() && s[j] == '"' ==> string_end(s, j) == j + 1,
        string_end(s, s.len() as int) == s.len(),
        (0 <= n && j + n <= s.len() && forall|m: int| j <= m < j + n ==> s[m] != '"' && s[m] != '\\')
            ==> string_end(s, j) == string_end(s, j + n),
        (0 <= k && j + 2 * k < s.len() && (forall|m: int| j <= m < j + 2 * k ==> s[m] == '\\')
            && s[j + 2 * k] == '"') ==> string_end(s, j) == j + 2 * k + 1,
        (0 <= k && j + 2 * k + 1 < s.len() && (forall|m: int| j <= m <= j + 2 * k ==> s[m] == '\\')
            && s[j + 2 * k + 1] == '"') ==> string_end(s, j) == string_end(s, j + 2 * k + 2),
{
    if 0 <= n && j + n <= s.len() && forall|m: int| j <= m < j + n ==> s[m] != '"' && s[m] != '\\' {
        lemma_string_end_plain_run(s, j, n);
    }
    if 0 <= k && j + 2 * k < s.len() && (forall|m: int| j <= m < j + 2 * k ==> s[m] == '\\') {
        lemma_string_end_backslash_pairs(s, j, k);
    }
    if 0 <= k && j + 2 * k + 1 < s.len() && (forall|m: int| j <= m <= j + 2 * k ==> s[m] == '\\') {
        lemma_string_end_backslash_pairs(s, j, k);
        assert(s[j + 2 * k] == '\\');
    }
}

/// Every token is non-empty and stays inside the line.
pub proof fn lemma_token_at_progress(s: Seq<char>, i: int)
    requires
        0 <= i < s.len(),
    ensures
        i < token_at(s, i).0 <= s.len(),
{
    let c = s[i];
    if is_unicode_whitespace(c) {
        lemma_skip_class_bounds(s, i + 1, CharClass::Whitespace);
        assert(skip_class(s, i, CharClass::Whitespace) == skip_class(s, i + 1, CharClass::Whitespace));
    } else if c == '"' {
        lemma_string_end_bounds(s, i + 1);
    } else if is_json_punctuation(c) {
    } else if c == '-' || is_ascii_digit(c) {
        lemma_skip_class_bounds(s, i + 1, CharClass::NumberPart);
        assert(skip_class(s, i, CharClass::NumberPart) == skip_class(s, i + 1, CharClass::NumberPart));
    }
}

pub proof fn lemma_tokens_from_step(s: Seq<char>, i: int)
    requires
        0 <= i < s.len(),
    ensures
        tokens_from(s, i) == seq![(byte_width(s, i, token_at(s, i).0), token_at(s, i).1)]
            + tokens_from(s, token_at(s, i).0),
{
    lemma_token_at_progress(s, i);
}

pub proof fn lemma_merge_tokens_step(
    runs: Seq<(nat, u32)>,
    t: (nat, TokenKind),
    rest: Seq<(nat, TokenKind)>,
    colors: JsonHighlightColors,
)
    ensures
        merge_tokens(runs, seq![t] + rest, colors) == merge_tokens(
            push_run_spec(runs, t.0, kind_color(colors, t.1)),
            rest,
            colors,
        ),
{
    let toks = seq![t] + rest;
    assert(toks[0] == t);
    assert(toks.drop_first() =~= rest);
}

pub proof fn lemma_push_run_total(runs: Seq<(nat, u32)>, len: nat, color: u32)
    ensures
        total_len(push_run_spec(runs, len, color)) == total_len(runs) + len,
{
    if len == 0 {
    } else if runs.len() > 0 && runs.last().1 == color {
        let r = runs.drop_last().push((runs.last().0 + len, color));
        assert(r.drop_last() =~= runs.drop_last());
    } else {
        let r = runs.push((len, color));
        assert(r.drop_last() =~= runs);
    }
}


pub open spec fn tokens_total(tokens: Seq<(nat, TokenKind)>) -> nat
    decreases tokens.len(),
{
    if tokens.len() == 0 {
        0
    } else {
        tokens[0].0 + tokens_total(tokens.drop_first())
    }
}

/// No run is empty and no two neighbouring runs share a colour.
pub open spec fn runs_well_formed(runs: Seq<(nat, u32)>) -> bool {
    forall|k: int|
        0 <= k < runs.len() ==> #[trigger] runs[k].0 > 0 && (k + 1 < runs.len() ==> runs[k].1
            != runs[k + 1].1)
}

proof fn lemma_merge_tokens_total(
    runs: Seq<(nat, u32)>,
    tokens: Seq<(nat, TokenKind)>,
    colors: JsonHighlightColors,
)
    ensures
        total_len(merge_tokens(runs, tokens, colors)) == total_len(runs) + tokens_total(tokens),
    decreases tokens.len(),
{
    if tokens.len() > 0 {
        let next = push_run_spec(runs, tokens[0].0, kind_color(colors, tokens[0].1));
        lemma_push_run_total(runs, tokens[0].0, kind_color(colors, tokens[0].1));
        lemma_merge_tokens_total(next, tokens.drop_first(), colors);
    }
}

proof fn lemma_tokens_total(s: Seq<char>, i: int)
    requires
        0 <= i <= s.len(),
    ensures
        tokens_total(tokens_from(s, i)) == byte_width(s, i, s.len() as int),
    decreases s.len() - i,
{
    if i == s.len() {
        assert(s.subrange(i, i) =~= Seq::<char>::empty());
    } else {
        let end = token_at(s, i).0;
        lemma_tokens_from_step(s, i);
        lemma_token_at_progress(s, i);
        lemma_tokens_total(s, end);
        let toks = tokens_from(s, i);
        assert(toks.drop_first() =~= tokens_from(s, end));
        lemma_byte_width_split(s, i, end, s.len() as int);
    }
}

proof fn lemma_push_run_well_formed(runs: Seq<(nat, u32)>, len: nat, color: u32)
    requires
        runs_well_formed(runs),
    ensures
        runs_well_formed(push_run_spec(runs, len, color)),
{
    let r = push_run_spec(runs, len, color);
    if len == 0 {
    } else if runs.len() > 0 && runs.last().1 == color {
        assert forall|k: int| 0 <= k < r.len() implies #[trigger] r[k].0 > 0 && (k + 1 < r.len()
            ==> r[k].1 != r[k + 1].1) by {
            if k + 1 < r.len() {
                assert(r[k] == runs[k]);
                assert(r[k + 1].1 == runs[k + 1].1);
            }
        }
    } else {
        assert forall|k: int| 0 <= k < r.len() implies #[trigger] r[k].0 > 0 && (k + 1 < r.len()
            ==> r[k].1 != r[k + 1].1) by {
            if k + 1 < r.len() {
                assert(r[k] == runs[k]);
                if k + 1 < runs.len() {
                    assert(r[k + 1] == runs[k + 1]);
                }
            }
        }
    }
}

proof fn lemma_merge_tokens_well_formed(
    runs: Seq<(nat, u32)>,
    tokens: Seq<(nat, TokenKind)>,
    colors: JsonHighlightColors,
)
    requires
        runs_well_formed(runs),
    ensures
        runs_well_formed(merge_tokens(runs, tokens, colors)),
    decreases tokens.len(),
{
    if tokens.len() > 0 {
        let next = push_run_spec(runs, tokens[0].0, kind_color(colors, tokens[0].1));
        lemma_push_run_well_formed(runs, tokens[0].0, kind_color(colors, tokens[0].1));
        lemma_merge_tokens_well_formed(next, tokens.drop_first(), colors);
    }
}

/// The runs of a JSON line cover the line exactly: their lengths add up to
/// the byte length of the line.
pub proof fn law_json_runs_cover_line(s: Seq<char>, colors: JsonHighlightColors)
    ensures
        total_len(json_line_runs(s, colors)) == encode_utf8(s).len(),
{
    if s.len() == 0 {
        let r = seq![(0nat, colors.default)];
        assert(r.drop_last() =~= Seq::<(nat, u32)>::empty());
        assert(total_len(Seq::<(nat, u32)>::empty()) == 0);
        assert(total_len(r) == 0);
        assert(encode_utf8(s).len() == 0);
    } else {
        assert(total_len(Seq::<(nat, u32)>::empty()) == 0);
        lemma_merge_tokens_total(Seq::empty(), tokens_from(s, 0), colors);
        lemma_tokens_total(s, 0);
        assert(s.subrange(0, s.len() as int) =~= s);
    }
}

/// The runs of a non-empty JSON line are never empty, and neighbouring runs
/// always differ in colour.
pub proof fn law_json_runs_well_formed(s: Seq<char>, colors: JsonHighlightColors)
    requires
        s.len() > 0,
    ensures
        runs_well_formed(json_line_runs(s, colors)),
{
    lemma_merge_tokens_well_formed(Seq::empty(), tokens_from(s, 0), colors);
}

// ---------------------------------------------------------------------------
// Executable code
// ---------------------------------------------------------------------------

fn kind_color_of(colors: &JsonHighlightColors, kind: TokenKind) -> (c: u32)
    ensures
        c == kind_color(*colors, kind),
{
    match kind {
        TokenKind::Other => colors.default,
        TokenKind::Key => colors.key,
        TokenKind::Str => colors.string,
        TokenKind::Number => colors.number,
        TokenKind::Keyword => colors.keyword,
        TokenKind::Punctuation => colors.punctuation,
    }
}

fn char_in_class(class: CharClass, c: char) -> (r: bool)
    ensures
        r == in_class(class, c),
{
    match class {
        CharClass::Whitespace => is_whitespace(c),
        CharClass::NumberPart => ('0' <= c && c <= '9') || c == '-' || c == '+' || c == '.' || c
            == 'e' || c == 'E',
    }
}

/// Steps over the characters of `class` from `index` on and returns the index
/// of the first character outside it (or the end of the text).
pub fn advance_while(text: &Vec<char>, index: usize, class: CharClass) -> (end: usize)
    requires
        index <= text@.len(),
    ensures
        end == skip_class(text@, index as int, class),
{
    let mut i = index;
    while i < text.len() && char_in_class(class, text[i])
        invariant
            index <= i <= text@.len(),
            skip_class(text@, i as int, class) == skip_class(text@, index as int, class),
        decreases text@.len() - i,
    {
        i = i + 1;
    }
    i
}

fn string_token_end(text: &Vec<char>, start: usize) -> (end: usize)
    requires
        start <= text@.len(),
    ensures
        end == string_end(text@, start as int),
{
    let n = text.len();
    let mut j = start;
    while j < n
        invariant
            n == text@.len(),
            start <= j <= n,
            string_end(text@, j as int) == string_end(text@, start as int),
        decreases n - j,
    {
        let ch = text[j];
        if ch == '\\' {
            if j + 1 < n {
                j = j + 2;
            } else {
                return j + 1;
            }
        } else if ch == '"' {
            return j + 1;
        } else {
            j = j + 1;
        }
    }
    j
}

fn word_matches(text: &Vec<char>, i: usize, word: &Vec<char>) -> (r: bool)
    requires
        i <= text@.len(),
    ensures
        r == word_at(text@, i as int, word@),
{
    if word.len() > text.len() - i {
        return false;
    }
    let mut k: usize = 0;
    let n = text.len();
    while k < word.len()
        invariant
            n == text@.len(),
            i + word@.len() <= text@.len(),
            k <= word@.len(),
            forall|m: int| 0 <= m < k ==> text@[i + m] == word@[m],
        decreases word@.len() - k,
    {
        if text[i + k] != word[k] {
            proof {
                assert(text@.subrange(i as int, i + word@.len())[k as int] != word@[k as int]);
            }
            return false;
        }
        k = k + 1;
    }
    proof {
        assert(text@.subrange(i as int, i + word@.len()) =~= word@);
    }
    true
}

fn next_token(text: &Vec<char>, i: usize) -> (r: (usize, TokenKind))
    requires
        i < text@.len(),
    ensures
        r.0 == token_at(text@, i as int).0,
        r.1 == token_at(text@, i as int).1,
{
    let n = text.len();
    let c = text[i];
    if is_whitespace(c) {
        (advance_while(text, i, CharClass::Whitespace), TokenKind::Other)
    } else if c == '"' {
        let end = string_token_end(text, i + 1);
        proof {
            lemma_string_end_bounds(text@, i + 1);
        }
        let next = advance_while(text, end, CharClass::Whitespace);
        if next < text.len() && text[next] == ':' {
            (end, TokenKind::Key)
        } else {
            (end, TokenKind::Str)
        }
    } else if c == '{' || c == '}' || c == '[' || c == ']' || c == ':' || c == ',' {
        (i + 1, TokenKind::Punctuation)
    } else if c == '-' || ('0' <= c && c <= '9') {
        (advance_while(text, i, CharClass::NumberPart), TokenKind::Number)
    } else if word_matches(text, i, &vec!['t', 'r', 'u', 'e']) {
        (i + 4, TokenKind::Keyword)
    } else if word_matches(text, i, &vec!['f', 'a', 'l', 's', 'e']) {
        (i + 5, TokenKind::Keyword)
    } else if word_matches(text, i, &vec!['n', 'u', 'l', 'l']) {
        (i + 4, TokenKind::Keyword)
    } else {
        (i + 1, TokenKind::Other)
    }
}

/// Appends a run, merging it into the last run when the colours agree and
/// dropping it when it is empty.
pub fn push_run(runs: &mut Vec<HighlightRun>, len: usize, color: u32)
    requires
        total_len(runs_view(old(runs)@)) + len <= usize::MAX,
    ensures
        runs_view(final(runs)@) == push_run_spec(runs_view(old(runs)@), len as nat, color),
{
    let ghost before = runs_view(runs@);
    if len == 0 {
        return;
    }
    let n = runs.len();
    if n > 0 && runs[n - 1].color == color {
        proof {
            assert(before.drop_last() =~= runs_view(runs@.drop_last()));
            lemma_total_len_last(before);
        }
        let merged = HighlightRun { len: runs[n - 1].len + len, color };
        runs.set(n - 1, merged);
        proof {
            assert(runs_view(runs@) =~= before.drop_last().push((before.last().0 + len as nat, color)));
        }
    } else {
        runs.push(HighlightRun { len, color });
        proof {
            assert(runs_view(runs@) =~= before.push((len as nat, color)));
        }
    }
}

proof fn lemma_total_len_last(runs: Seq<(nat, u32)>)
    requires
        runs.len() > 0,
    ensures
        runs.last().0 <= total_len(runs),
{
}

/// Colours one line of pretty-printed JSON.
pub fn json_runs_for_line(line_text: &str, colors: &JsonHighlightColors) -> (runs: Vec<HighlightRun>)
    ensures
        runs_view(runs@) == json_line_runs(line_text@, *colors),
{
    let total = str_byte_len(line_text);
    let text = chars_of(line_text);
    let n = text.len();
    if n == 0 {
        let runs = vec![HighlightRun { len: 0, color: colors.default }];
        proof {
            assert(runs_view(runs@) =~= seq![(0nat, colors.default)]);
        }
        return runs;
    }
    let mut runs: Vec<HighlightRun> = Vec::new();
    let mut index: usize = 0;
    proof {
        assert(runs_view(runs@) =~= Seq::<(nat, u32)>::empty());
        assert(text@.subrange(0, 0) =~= Seq::<char>::empty());
        assert(text@.subrange(0, n as int) =~= text@);
    }
    while index < n
        invariant
            n == text@.len(),
            text@ == line_text@,
            n > 0,
            index <= n,
            total == byte_width(text@, 0, n as int),
            total_len(runs_view(runs@)) == byte_width(text@, 0, index as int),
            merge_tokens(runs_view(runs@), tokens_from(text@, index as int), *colors)
                == merge_tokens(Seq::empty(), tokens_from(text@, 0), *colors),
        decreases n - index,
    {
        let (end, kind) = next_token(&text, index);
        proof {
            lemma_token_at_progress(text@, index as int);
            lemma_tokens_from_step(text@, index as int);
            lemma_merge_tokens_step(
                runs_view(runs@),
                (byte_width(text@, index as int, end as int), kind),
                tokens_from(text@, end as int),
                *colors,
            );
            lemma_byte_width_split(text@, 0, index as int, end as int);
            lemma_byte_width_split(text@, 0, end as int, n as int);
        }
        let width = byte_width_of(&text, index, end);
        let color = kind_color_of(colors, kind);
        proof {
            lemma_push_run_total(runs_view(runs@), width as nat, color);
        }
        push_run(&mut runs, width, color);
        index = end;
    }
    proof {
        assert(tokens_from(text@, n as int) =~= Seq::<(nat, TokenKind)>::empty());
    }
    runs
}

/// The runs of one line: the whole line in the default colour, or its JSON
/// colouring.
pub fn build_runs_for_line(line_text: &str, default_color: u32, highlight_mode: HighlightMode) -> (runs: Vec<HighlightRun>)
    ensures
        runs_view(runs@) == line_runs(line_text@, default_color, highlight_mode),
{
    match highlight_mode {
        HighlightMode::Plain => {
            let len = str_byte_len(line_text);
            let runs = vec![HighlightRun { len, color: default_color }];
            proof {
                assert(runs_view(runs@) =~= seq![(encode_utf8(line_text@).len(), default_color)]);
            }
            runs
        },
        HighlightMode::Json(colors) => json_runs_for_line(line_text, &colors),
    }
}

} // verus!
