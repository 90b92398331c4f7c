//! Settings that the logic reads: the colour scheme, the language, and the
//! bounds of the JSON indent, with the language taken from the system locale.

use vstd::prelude::*;
use crate::text::{chars_of, contains_chars, occurs_at, starts_with_chars, contains_seq};
use crate::sort::{
    SortKey, is_stable_sort, key_of, key_lt, lemma_text_lt_irreflexive, lemma_text_lt_total,
    lemma_text_lt_transitive, sort_by_keys, text_lt,
};

verus! {

/// The colour scheme.
#[derive(Clone, Copy, PartialEq, Eq, Structural, Debug)]
pub enum VisualMode {
    Light,
    Dark,
}

/// The language of the interface.
#[derive(Clone, Copy, PartialEq, Eq, Structural, Debug)]
pub enum AppLanguage {
    English,
    Chinese,
    TraditionalChinese,
    Japanese,
}

pub const DEFAULT_JSON_INDENT_SPACES: u8 = 2;
pub const MIN_JSON_INDENT_SPACES: u8 = 1;
pub const MAX_JSON_INDENT_SPACES: u8 = 8;

/// The smallest JSON indent.
pub fn min_json_indent_spaces() -> (n: u8)
    ensures
        n == MIN_JSON_INDENT_SPACES,
{
    MIN_JSON_INDENT_SPACES
}

/// The largest JSON indent.
pub fn max_json_indent_spaces() -> (n: u8)
    ensures
        n == MAX_JSON_INDENT_SPACES,
{
    MAX_JSON_INDENT_SPACES
}

pub open spec fn clamp_int(v: int, lo: int, hi: int) -> int {
    if v < lo {
        lo
    } else if v > hi {
        hi
    } else {
        v
    }
}

/// The JSON indent of a loaded configuration, brought into its bounds
/// (the part of `AppConfig::sanitized` that is not floating point).
pub fn sanitized_json_indent_spaces(json_indent_spaces: u8) -> (n: u8)
    ensures
        n == clamp_int(
            json_indent_spaces as int,
            MIN_JSON_INDENT_SPACES as int,
            MAX_JSON_INDENT_SPACES as int,
        ),
        MIN_JSON_INDENT_SPACES <= n <= MAX_JSON_INDENT_SPACES,
{
    if json_indent_spaces < MIN_JSON_INDENT_SPACES {
        MIN_JSON_INDENT_SPACES
    } else if json_indent_spaces > MAX_JSON_INDENT_SPACES {
        MAX_JSON_INDENT_SPACES
    } else {
        json_indent_spaces
    }
}

/// The JSON indent after stepping `current` by `delta`, kept in bounds.
pub fn adjusted_json_indent_spaces(current: u8, delta: i8) -> (n: u8)
    ensures
        n == clamp_int(
            current + delta,
            MIN_JSON_INDENT_SPACES as int,
            MAX_JSON_INDENT_SPACES as int,
        ),
        MIN_JSON_INDENT_SPACES <= n <= MAX_JSON_INDENT_SPACES,
{
    let next: i16 = current as i16 + delta as i16;
    if next < MIN_JSON_INDENT_SPACES as i16 {
        MIN_JSON_INDENT_SPACES
    } else if next > MAX_JSON_INDENT_SPACES as i16 {
        MAX_JSON_INDENT_SPACES
    } else {
        next as u8
    }
}

/// Sanitizing an indent that is already in bounds changes nothing, and
/// stepping the indent never leaves its bounds.
pub proof fn law_json_indent_stays_in_bounds(current: u8, delta: i8)
    ensures
        MIN_JSON_INDENT_SPACES <= current <= MAX_JSON_INDENT_SPACES ==> clamp_int(
            current as int,
            MIN_JSON_INDENT_SPACES as int,
            MAX_JSON_INDENT_SPACES as int,
        ) == current,
        MIN_JSON_INDENT_SPACES <= clamp_int(
            current + delta,
            MIN_JSON_INDENT_SPACES as int,
            MAX_JSON_INDENT_SPACES as int,
        ) <= MAX_JSON_INDENT_SPACES,
{
}

/// A step of the JSON indent that stays within bounds is undone by the
/// opposite step.
pub proof fn law_json_indent_step_undoes(current: u8, delta: i8)
    requires
        MIN_JSON_INDENT_SPACES <= current + delta <= MAX_JSON_INDENT_SPACES,
        delta > i8::MIN,
    ensures
        clamp_int(
            clamp_int(current + delta, MIN_JSON_INDENT_SPACES as int, MAX_JSON_INDENT_SPACES as int)
                - delta,
            MIN_JSON_INDENT_SPACES as int,
            MAX_JSON_INDENT_SPACES as int,
        ) == clamp_int(current as int, MIN_JSON_INDENT_SPACES as int, MAX_JSON_INDENT_SPACES as int),
{
}

// ---------------------------------------------------------------------------
// Language from the locale
// ---------------------------------------------------------------------------

/// A locale tag with `_` turned into `-` and ASCII letters lowered.
pub open spec fn normalize_locale_char(c: char) -> char {
    if c == '_' {
        '-'
    } else if 'A' <= c <= 'Z' {
        ((c as u32) + 32) as char
    } else {
        c
    }
}

pub open spec fn normalize_locale(s: Seq<char>) -> Seq<char> {
    Seq::new(s.len(), |k: int| normalize_locale_char(s[k]))
}

/// The language of a locale tag: Japanese for `ja…`, Chinese for `zh…`
/// (traditional when the tag names `hant`, `tw`, `hk` or `mo`), else
/// English. Case and `_` versus `-` do not matter.
pub open spec fn language_of_locale(locale: Option<Seq<char>>) -> AppLanguage {
    match locale {
        None => AppLanguage::English,
        Some(tag) => {
            let t = normalize_locale(tag);
            if occurs_at(t, seq!['j', 'a'], 0) {
                AppLanguage::Japanese
            } else if occurs_at(t, seq!['z', 'h'], 0) {
                if contains_seq(t, seq!['h', 'a', 'n', 't']) || contains_seq(t, seq!['t', 'w'])
                    || contains_seq(t, seq!['h', 'k']) || contains_seq(t, seq!['m', 'o']) {
                    AppLanguage::TraditionalChinese
                } else {
                    AppLanguage::Chinese
                }
            } else {
                AppLanguage::English
            }
        },
    }
}

fn normalize_locale_exec(locale: &str) -> (t: Vec<char>)
    ensures
        t@ == normalize_locale(locale@),
{
    let chars = chars_of(locale);
    let mut t: Vec<char> = Vec::new();
    let mut k: usize = 0;
    while k < chars.len()
        invariant
            k <= chars@.len(),
            chars@ == locale@,
            t@ =~= normalize_locale(chars@.take(k as int)),
        decreases chars@.len() - k,
    {
        let c = chars[k];
        let d = if c == '_' {
            '-'
        } else if 'A' <= c && c <= 'Z' {
            ((c as u32) + 32) as u8 as char
        } else {
            c
        };
        proof {
            assert(('A' <= c && c <= 'Z') ==> ((c as u32) + 32) as u8 as char == ((c as u32)
                + 32) as char);
        }
        t.push(d);
        k = k + 1;
    }
    proof {
        assert(chars@.take(chars@.len() as int) =~= chars@);
    }
    t
}

/// Picks the interface language for a locale tag, as the system reports it.
pub fn language_for_locale(locale: Option<&str>) -> (language: AppLanguage)
    ensures
        language == language_of_locale(
            match locale {
                Some(s) => Some(s@),
                None => None,
            },
        ),
{
    let Some(tag) = locale else {
        return AppLanguage::English;
    };
    let t = normalize_locale_exec(tag);
    if starts_with_chars(&t, &vec!['j', 'a']) {
        return AppLanguage::Japanese;
    }
    if starts_with_chars(&t, &vec!['z', 'h']) {
        if contains_chars(&t, &vec!['h', 'a', 'n', 't']) || contains_chars(&t, &vec!['t', 'w'])
            || contains_chars(&t, &vec!['h', 'k']) || contains_chars(&t, &vec!['m', 'o']) {
            return AppLanguage::TraditionalChinese;
        }
        return AppLanguage::Chinese;
    }
    AppLanguage::English
}

/// The preferred locale of the system.
///
/// Calls `sys_locale::get_locale`, which reads the environment; nothing is
/// stated of its result.
#[verifier::external_body]
fn system_locale() -> Option<String> {
    sys_locale::get_locale()
}

/// The interface language that the system locale asks for.
pub fn detect_system_language() -> (language: AppLanguage)
    ensures
        exists|locale: Option<Seq<char>>| language == language_of_locale(locale),
{
    let locale = system_locale();
    match locale {
        Some(tag) => {
            let language = language_for_locale(Some(tag.as_str()));
            proof {
                assert(language == language_of_locale(Some(tag@)));
            }
            language
        },
        None => {
            proof {
                assert(AppLanguage::English == language_of_locale(None));
            }
            AppLanguage::English
        },
    }
}


// ---------------------------------------------------------------------------
// Font list
// ---------------------------------------------------------------------------

pub open spec fn ascii_lower_char(c: char) -> char {
    if 'A' <= c <= 'Z' {
        ((c as u32) + 32) as char
    } else {
        c
    }
}

/// `to_ascii_lowercase` of a text.
pub open spec fn ascii_lower(s: Seq<char>) -> Seq<char> {
    Seq::new(s.len(), |k: int| ascii_lower_char(s[k]))
}

pub open spec fn font_sort_key(name: String) -> (u8, Seq<char>) {
    (0u8, ascii_lower(name@))
}

/// Drops each name that equals, ignoring ASCII case, the name kept before it
/// (`Vec::dedup_by` with `eq_ignore_ascii_case`).
pub open spec fn dedup_ignoring_ascii_case(names: Seq<String>) -> Seq<String>
    decreases names.len(),
{
    if names.len() == 0 {
        Seq::empty()
    } else {
        let kept = dedup_ignoring_ascii_case(names.drop_last());
        if kept.len() > 0 && ascii_lower(kept.last()@) == ascii_lower(names.last()@) {
            kept
        } else {
            kept.push(names.last())
        }
    }
}

fn ascii_lower_exec(s: &str) -> (t: Vec<char>)
    ensures
        t@ == ascii_lower(s@),
{
    let chars = chars_of(s);
    let mut t: Vec<char> = Vec::new();
    let mut k: usize = 0;
    while k < chars.len()
        invariant
            k <= chars@.len(),
            chars@ == s@,
            t@ =~= ascii_lower(chars@.take(k as int)),
        decreases chars@.len() - k,
    {
        let c = chars[k];
        let d = if 'A' <= c && c <= 'Z' {
            ((c as u32) + 32) as u8 as char
        } else {
            c
        };
        proof {
            assert(('A' <= c && c <= 'Z') ==> ((c as u32) + 32) as u8 as char == ((c as u32)
                + 32) as char);
        }
        t.push(d);
        k = k + 1;
    }
    proof {
        assert(chars@.take(chars@.len() as int) =~= chars@);
    }
    t
}

fn same_chars(a: &Vec<char>, b: &Vec<char>) -> (r: bool)
    ensures
        r == (a@ == b@),
{
    if a.len() != b.len() {
        return false;
    }
    let mut k: usize = 0;
    while k < a.len()
        invariant
            a@.len() == b@.len(),
            k <= a@.len(),
            forall|m: int| 0 <= m < k ==> a@[m] == b@[m],
        decreases a@.len() - k,
    {
        if a[k] != b[k] {
            return false;
        }
        k = k + 1;
    }
    proof {
        assert(a@ =~= b@);
    }
    true
}

/// The font choices: the families sorted by their ASCII-lowercased names
/// (keeping the order of equal names), then each name that repeats the one
/// before it, ignoring ASCII case, dropped.
pub fn monospace_font_names(families: Vec<String>) -> (names: Vec<String>)
    ensures
        exists|sorted: Seq<String>|
            is_stable_sort(sorted, families@, |n: String| font_sort_key(n)) && names@
                == dedup_ignoring_ascii_case(sorted),
{
    let ghost input = families@;
    let mut keys: Vec<SortKey> = Vec::new();
    let n = families.len();
    let mut i: usize = 0;
    while i < n
        invariant
            n == input.len(),
            input == families@,
            i <= n,
            keys@.len() == i,
            forall|k: int| 0 <= k < i ==> key_of(#[trigger] keys@[k]) == font_sort_key(input[k]),
        decreases n - i,
    {
        keys.push(SortKey { rank: 0, text: ascii_lower_exec(families[i].as_str()) });
        i = i + 1;
    }
    let sorted = sort_by_keys(families, keys, Ghost(|n: String| font_sort_key(n)));
    let ghost sorted_view = sorted@;
    let mut rest = sorted;
    let mut names: Vec<String> = Vec::new();
    let mut last_key: Vec<char> = Vec::new();
    let mut j: usize = 0;
    let m = rest.len();
    while j < m
        invariant
            m == sorted_view.len(),
            j <= m,
            rest@ == sorted_view.skip(j as int),
            names@ == dedup_ignoring_ascii_case(sorted_view.take(j as int)),
            names@.len() > 0 ==> last_key@ == ascii_lower(names@.last()@),
        decreases m - j,
    {
        let name = rest.remove(0);
        proof {
            assert(name == sorted_view[j as int]);
            assert(rest@ =~= sorted_view.skip(j + 1));
            assert(sorted_view.take(j + 1).drop_last() =~= sorted_view.take(j as int));
        }
        let key = ascii_lower_exec(name.as_str());
        if names.len() > 0 && same_chars(&last_key, &key) {
        } else {
            names.push(name);
            last_key = key;
        }
        j = j + 1;
    }
    proof {
        assert(sorted_view.take(m as int) =~= sorted_view);
    }
    names
}


/// Names whose lowercased forms never decrease.
spec fn sorted_ignoring_ascii_case(names: Seq<String>) -> bool {
    forall|k: int, l: int|
        0 <= k < l < names.len() ==> !text_lt(
            ascii_lower(#[trigger] names[l]@),
            ascii_lower(#[trigger] names[k]@),
        )
}

/// Names in strictly increasing order of their ASCII-lowercased forms.
#[verifier::opaque]
spec fn increasing_ignoring_ascii_case(names: Seq<String>) -> bool {
    forall|k: int, l: int|
        0 <= k < l < names.len() ==> text_lt(
            ascii_lower(#[trigger] names[k]@),
            ascii_lower(#[trigger] names[l]@),
        )
}

/// Every name of `names` is one of `from`.
#[verifier::opaque]
spec fn drawn_from(names: Seq<String>, from: Seq<String>) -> bool {
    forall|k: int| 0 <= k < names.len() ==> from.contains(#[trigger] names[k])
}

/// Some name of `names` equals `name` ignoring ASCII case.
pub open spec fn has_name_ignoring_ascii_case(names: Seq<String>, name: String) -> bool {
    exists|k: int| 0 <= k < names.len() && ascii_lower(#[trigger] names[k]@) == ascii_lower(name@)
}

/// Every name of `from` equals, ignoring ASCII case, one of `names`.
#[verifier::opaque]
spec fn covers_ignoring_ascii_case(names: Seq<String>, from: Seq<String>) -> bool {
    forall|i: int| 0 <= i < from.len() ==> has_name_ignoring_ascii_case(names, #[trigger] from[i])
}

proof fn lemma_drawn_step(s: Seq<String>, kept: Seq<String>, d: Seq<String>)
    requires
        s.len() > 0,
        drawn_from(kept, s.drop_last()),
        d == kept || d == kept.push(s.last()),
    ensures
        drawn_from(d, s),
{
    reveal(drawn_from);
    let p = s.drop_last();
    assert forall|k: int| 0 <= k < d.len() implies s.contains(#[trigger] d[k]) by {
        if k < kept.len() {
            assert(d[k] == kept[k]);
            assert(p.contains(kept[k]));
            let j = choose|j: int| 0 <= j < p.len() && p[j] == kept[k];
            assert(s[j] == p[j]);
        } else {
            assert(s[s.len() - 1] == d[k]);
        }
    }
}

proof fn lemma_covers_step(s: Seq<String>, kept: Seq<String>, d: Seq<String>)
    requires
        s.len() > 0,
        covers_ignoring_ascii_case(kept, s.drop_last()),
        (d == kept && kept.len() > 0 && ascii_lower(kept.last()@) == ascii_lower(s.last()@))
            || d == kept.push(s.last()),
    ensures
        covers_ignoring_ascii_case(d, s),
{
    reveal(covers_ignoring_ascii_case);
    let p = s.drop_last();
    assert forall|i: int| 0 <= i < s.len() implies has_name_ignoring_ascii_case(d, #[trigger] s[i]) by {
        if i < p.len() {
            assert(p[i] == s[i]);
            assert(has_name_ignoring_ascii_case(kept, p[i]));
            let k = choose|k: int|
                0 <= k < kept.len() && ascii_lower(#[trigger] kept[k]@) == ascii_lower(p[i]@);
            assert(d[k] == kept[k]);
        } else {
            assert(ascii_lower(d[d.len() - 1]@) == ascii_lower(s[i]@));
        }
    }
}

proof fn lemma_increasing_push(kept: Seq<String>, x: String)
    requires
        increasing_ignoring_ascii_case(kept),
        kept.len() > 0 ==> text_lt(ascii_lower(kept.last()@), ascii_lower(x@)),
    ensures
        increasing_ignoring_ascii_case(kept.push(x)),
{
    reveal(increasing_ignoring_ascii_case);
    let d = kept.push(x);
    assert forall|k: int, l: int| 0 <= k < l < d.len() implies text_lt(
        ascii_lower(#[trigger] d[k]@),
        ascii_lower(#[trigger] d[l]@),
    ) by {
        assert(d[k] == kept[k]);
        if l == d.len() - 1 {
            if k < kept.len() - 1 {
                assert(text_lt(ascii_lower(kept[k]@), ascii_lower(kept[kept.len() - 1]@)));
                lemma_text_lt_transitive(
                    ascii_lower(kept[k]@),
                    ascii_lower(kept.last()@),
                    ascii_lower(x@),
                );
            }
        } else {
            assert(d[l] == kept[l]);
        }
    }
}

proof fn lemma_dedup_sorted(s: Seq<String>)
    requires
        sorted_ignoring_ascii_case(s),
    ensures
        s.len() == 0 ==> dedup_ignoring_ascii_case(s).len() == 0,
        s.len() > 0 ==> dedup_ignoring_ascii_case(s).len() > 0 && ascii_lower(
            dedup_ignoring_ascii_case(s).last()@,
        ) == ascii_lower(s.last()@),
        increasing_ignoring_ascii_case(dedup_ignoring_ascii_case(s)),
        drawn_from(dedup_ignoring_ascii_case(s), s),
        covers_ignoring_ascii_case(dedup_ignoring_ascii_case(s), s),
    decreases s.len(),
{
    if s.len() == 0 {
        reveal(increasing_ignoring_ascii_case);
        reveal(drawn_from);
        reveal(covers_ignoring_ascii_case);
    } else {
        let p = s.drop_last();
        assert(sorted_ignoring_ascii_case(p)) by {
            assert forall|k: int, l: int| 0 <= k < l < p.len() implies !text_lt(
                ascii_lower(#[trigger] p[l]@),
                ascii_lower(#[trigger] p[k]@),
            ) by {
                assert(p[l] == s[l] && p[k] == s[k]);
            }
        }
        lemma_dedup_sorted(p);
        let kept = dedup_ignoring_ascii_case(p);
        let x = s.last();
        let d = dedup_ignoring_ascii_case(s);
        if kept.len() > 0 && ascii_lower(kept.last()@) == ascii_lower(x@) {
            assert(d == kept);
        } else {
            assert(d == kept.push(x));
            if kept.len() > 0 {
                assert(!text_lt(ascii_lower(s[s.len() - 1]@), ascii_lower(s[p.len() - 1]@)));
                assert(s[p.len() - 1] == p.last());
                lemma_text_lt_total(ascii_lower(p.last()@), ascii_lower(x@));
            }
            lemma_increasing_push(kept, x);
        }
        lemma_drawn_step(s, kept, d);
        lemma_covers_step(s, kept, d);
    }
}

proof fn lemma_injective_onto(perm: Seq<int>, n: int)
    requires
        perm.len() == n,
        forall|k: int| 0 <= k < n ==> 0 <= #[trigger] perm[k] < n,
        forall|k: int, l: int| 0 <= k < l < n ==> #[trigger] perm[k] != #[trigger] perm[l],
    ensures
        forall|i: int| 0 <= i < n ==> #[trigger] perm.contains(i),
{
    broadcast use vstd::seq_lib::seq_to_set_is_finite;

    assert(perm.no_duplicates()) by {
        assert forall|i: int, j: int| 0 <= i < perm.len() && 0 <= j < perm.len() && i != j
            implies perm[i] != perm[j] by {
            if i < j {
                assert(perm[i] != perm[j]);
            } else {
                assert(perm[j] != perm[i]);
            }
        }
    }
    perm.unique_seq_to_set();
    vstd::set_lib::lemma_int_range(0, n);
    let range = vstd::set_lib::set_int_range(0, n);
    assert(perm.to_set().subset_of(range)) by {
        assert forall|v: int| perm.to_set().contains(v) implies range.contains(v) by {
            assert(perm.contains(v));
        }
    }
    vstd::set_lib::lemma_subset_equality(perm.to_set(), range);
    assert forall|i: int| 0 <= i < n implies #[trigger] perm.contains(i) by {
        assert(range.contains(i));
        assert(perm.to_set().contains(i));
    }
}

proof fn lemma_font_sort_facts(sorted: Seq<String>, families: Seq<String>)
    requires
        is_stable_sort(sorted, families, |n: String| font_sort_key(n)),
    ensures
        sorted_ignoring_ascii_case(sorted),
        drawn_from(sorted, families),
        drawn_from(families, sorted),
{
    reveal(drawn_from);
    let key = |n: String| font_sort_key(n);
    let perm = choose|perm: Seq<int>|
        {
            &&& perm.len() == families.len()
            &&& sorted.len() == families.len()
            &&& forall|k: int| 0 <= k < perm.len() ==> 0 <= #[trigger] perm[k] < families.len()
            &&& forall|k: int, l: int|
                0 <= k < l < perm.len() ==> #[trigger] perm[k] != #[trigger] perm[l]
            &&& forall|k: int| 0 <= k < sorted.len() ==> #[trigger] sorted[k] == families[perm[k]]
            &&& forall|k: int, l: int|
                0 <= k < l < sorted.len() ==> !key_lt(key(#[trigger] sorted[l]), key(#[trigger] sorted[k]))
            &&& forall|k: int, l: int|
                0 <= k < l < sorted.len() && key(#[trigger] sorted[k]) == key(#[trigger] sorted[l])
                    ==> perm[k] < perm[l]
        };
    assert forall|k: int, l: int| 0 <= k < l < sorted.len() implies !text_lt(
        ascii_lower(#[trigger] sorted[l]@),
        ascii_lower(#[trigger] sorted[k]@),
    ) by {
        assert(!key_lt(key(sorted[l]), key(sorted[k])));
    }
    assert forall|k: int| 0 <= k < sorted.len() implies families.contains(#[trigger] sorted[k]) by {
        assert(families[perm[k]] == sorted[k]);
    }
    lemma_injective_onto(perm, families.len() as int);
    assert forall|i: int| 0 <= i < families.len() implies sorted.contains(#[trigger] families[i]) by {
        assert(perm.contains(i));
        let j = choose|j: int| 0 <= j < perm.len() && perm[j] == i;
        assert(sorted[j] == families[i]);
    }
}

proof fn lemma_drawn_from_transitive(a: Seq<String>, b: Seq<String>, c: Seq<String>)
    requires
        drawn_from(a, b),
        drawn_from(b, c),
    ensures
        drawn_from(a, c),
{
    reveal(drawn_from);
    assert forall|k: int| 0 <= k < a.len() implies c.contains(#[trigger] a[k]) by {
        let j = choose|j: int| 0 <= j < b.len() && b[j] == a[k];
        assert(c.contains(b[j]));
    }
}

proof fn lemma_covers_one(names: Seq<String>, sorted: Seq<String>, families: Seq<String>, i: int)
    requires
        covers_ignoring_ascii_case(names, sorted),
        drawn_from(families, sorted),
        0 <= i < families.len(),
    ensures
        has_name_ignoring_ascii_case(names, families[i]),
{
    reveal(drawn_from);
    reveal(covers_ignoring_ascii_case);
    assert(sorted.contains(families[i]));
    let j = choose|j: int| 0 <= j < sorted.len() && sorted[j] == families[i];
    assert(sorted[j] == families[i]);
    assert(has_name_ignoring_ascii_case(names, sorted[j]));
}

proof fn lemma_covers_through(names: Seq<String>, sorted: Seq<String>, families: Seq<String>)
    requires
        covers_ignoring_ascii_case(names, sorted),
        drawn_from(families, sorted),
    ensures
        covers_ignoring_ascii_case(names, families),
{
    reveal(covers_ignoring_ascii_case);
    assert forall|i: int| 0 <= i < families.len() implies has_name_ignoring_ascii_case(
        names,
        #[trigger] families[i],
    ) by {
        lemma_covers_one(names, sorted, families, i);
    }
}

/// The font choices are in strictly increasing order of their
/// ASCII-lowercased names, so no two of them are equal ignoring ASCII case;
/// every choice is one of the given families, and every given family has a
/// choice equal to it ignoring ASCII case.
pub proof fn law_font_names_sorted_and_unique(families: Seq<String>, names: Seq<String>)
    requires
        exists|sorted: Seq<String>|
            is_stable_sort(sorted, families, |n: String| font_sort_key(n)) && names
                == dedup_ignoring_ascii_case(sorted),
    ensures
        forall|k: int, l: int|
            0 <= k < l < names.len() ==> text_lt(
                ascii_lower(#[trigger] names[k]@),
                ascii_lower(#[trigger] names[l]@),
            ) && ascii_lower(names[k]@) != ascii_lower(names[l]@),
        forall|k: int| 0 <= k < names.len() ==> families.contains(#[trigger] names[k]),
        forall|i: int|
            0 <= i < families.len() ==> has_name_ignoring_ascii_case(names, #[trigger] families[i]),
{
    let sorted = choose|sorted: Seq<String>|
        is_stable_sort(sorted, families, |n: String| font_sort_key(n)) && names
            == dedup_ignoring_ascii_case(sorted);
    lemma_font_sort_facts(sorted, families);
    lemma_dedup_sorted(sorted);
    lemma_drawn_from_transitive(names, sorted, families);
    lemma_covers_through(names, sorted, families);
    reveal(increasing_ignoring_ascii_case);
    reveal(drawn_from);
    reveal(covers_ignoring_ascii_case);
    assert forall|k: int, l: int| 0 <= k < l < names.len() implies text_lt(
        ascii_lower(#[trigger] names[k]@),
        ascii_lower(#[trigger] names[l]@),
    ) && ascii_lower(names[k]@) != ascii_lower(names[l]@) by {
        lemma_text_lt_irreflexive(ascii_lower(names[k]@));
    }
}

} // verus!
