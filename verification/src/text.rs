//! Character-level helpers shared by the formatting and highlighting code.

use vstd::prelude::*;
use vstd::utf8::*;

verus! {

/// Appends one character to a string.
///
/// Calls `String::push`; the contract claims that the new contents are the
/// old contents followed by `c`.
#[verifier::external_body]
pub(crate) fn push_char(s: &mut String, c: char)
    ensures
        final(s)@ == old(s)@.push(c),
{
    s.push(c)
}

/// Number of bytes of the UTF-8 encoding of `c`.
pub open spec fn utf8_width(c: char) -> nat {
    encode_scalar(c as u32).len()
}

/// Number of UTF-16 code units of `c`.
pub open spec fn utf16_width(c: char) -> nat {
    if (c as u32) < 0x10000 { 1 } else { 2 }
}

/// `char::len_utf8`, written out.
pub fn len_utf8(c: char) -> (n: usize)
    ensures
        n == utf8_width(c),
        1 <= n <= 4,
{
    proof { char_is_scalar(c); }
    let v = c as u32;
    if v <= 0x7f {
        1
    } else if v <= 0x7ff {
        2
    } else if v <= 0xffff {
        3
    } else {
        4
    }
}

/// `char::len_utf16`, written out.
pub fn len_utf16(c: char) -> (n: usize)
    ensures
        n == utf16_width(c),
        1 <= n <= 2,
        n <= utf8_width(c),
{
    proof { char_is_scalar(c); }
    if (c as u32) < 0x10000 {
        1
    } else {
        2
    }
}

} // verus!

verus! {

/// The characters of `s`, in order.
pub fn chars_of(s: &str) -> (v: Vec<char>)
    ensures
        v@ == s@,
{
    let mut v: Vec<char> = Vec::new();
    for c in it: s.chars()
        invariant
            v@ == it.seq().take(it.index() as int),
    {
        v.push(c);
    }
    v
}

} // verus!

verus! {

/// Byte length of a string slice.
///
/// Calls `str::len`, which returns the number of bytes of the UTF-8
/// encoding of the slice; the contract claims exactly that, without the
/// truncation that vstd's own specification of `str::len` leaves open, and
/// that the length is at most `isize::MAX`, the bound that Rust places on
/// the size of every slice.
#[verifier::external_body]
pub(crate) fn str_byte_len(s: &str) -> (n: usize)
    ensures
        n == encode_utf8(s@).len(),
        n <= isize::MAX,
{
    s.len()
}

/// The Unicode `White_Space` property, which `char::is_whitespace` tests.
pub open spec fn is_unicode_whitespace(c: char) -> bool {
    let v = c as u32;
    ||| 0x09 <= v <= 0x0d
    ||| v == 0x20
    ||| v == 0x85
    ||| v == 0xa0
    ||| v == 0x1680
    ||| 0x2000 <= v <= 0x200a
    ||| v == 0x2028
    ||| v == 0x2029
    ||| v == 0x202f
    ||| v == 0x205f
    ||| v == 0x3000
}

/// `char::is_whitespace`.
pub fn is_whitespace(c: char) -> (r: bool)
    ensures
        r == is_unicode_whitespace(c),
{
    let v = c as u32;
    (0x09 <= v && v <= 0x0d) || v == 0x20 || v == 0x85 || v == 0xa0 || v == 0x1680 || (0x2000
        <= v && v <= 0x200a) || v == 0x2028 || v == 0x2029 || v == 0x202f || v == 0x205f || v
        == 0x3000
}

/// The number of UTF-8 bytes of `s[i..j]`.
pub open spec fn byte_width(s: Seq<char>, i: int, j: int) -> nat {
    encode_utf8(s.subrange(i, j)).len()
}

/// UTF-8 encoding distributes over concatenation.
pub proof fn lemma_encode_utf8_concat(a: Seq<char>, b: Seq<char>)
    ensures
        encode_utf8(a + b) == encode_utf8(a) + encode_utf8(b),
    decreases a.len(),
{
    if a.len() == 0 {
        assert(a + b =~= b);
    } else {
        lemma_encode_utf8_concat(a.drop_first(), b);
        assert((a + b).drop_first() =~= a.drop_first() + b);
        assert((a + b)[0] == a[0]);
        assert(encode_utf8(a + b) =~= encode_scalar(a[0] as u32) + encode_utf8(a.drop_first() + b));
    }
}

/// Byte widths of adjacent ranges add up.
pub proof fn lemma_byte_width_split(s: Seq<char>, i: int, k: int, j: int)
    requires
        0 <= i <= k <= j <= s.len(),
    ensures
        byte_width(s, i, j) == byte_width(s, i, k) + byte_width(s, k, j),
{
    assert(s.subrange(i, j) =~= s.subrange(i, k) + s.subrange(k, j));
    lemma_encode_utf8_concat(s.subrange(i, k), s.subrange(k, j));
}

/// The byte width of a single character.
pub proof fn lemma_byte_width_one(s: Seq<char>, k: int)
    requires
        0 <= k < s.len(),
    ensures
        byte_width(s, k, k + 1) == utf8_width(s[k]),
{
    let one = s.subrange(k, k + 1);
    assert(one.drop_first() =~= Seq::<char>::empty());
    assert(encode_utf8(one) =~= encode_scalar(s[k] as u32) + encode_utf8(one.drop_first()));
}

/// Sums the UTF-8 widths of `s[i..j]`.
pub fn byte_width_of(s: &Vec<char>, i: usize, j: usize) -> (n: usize)
    requires
        i <= j <= s@.len(),
        byte_width(s@, 0, s@.len() as int) <= usize::MAX,
    ensures
        n == byte_width(s@, i as int, j as int),
{
    let mut n: usize = 0;
    let mut k = i;
    proof {
        assert(s@.subrange(i as int, i as int) =~= Seq::<char>::empty());
    }
    while k < j
        invariant
            i <= k <= j <= s@.len(),
            n == byte_width(s@, i as int, k as int),
            byte_width(s@, 0, s@.len() as int) <= usize::MAX,
        decreases j - k,
    {
        proof {
            lemma_byte_width_split(s@, i as int, k as int, k + 1);
            lemma_byte_width_one(s@, k as int);
            lemma_byte_width_split(s@, 0, i as int, k + 1);
            lemma_byte_width_split(s@, 0, k + 1, s@.len() as int);
        }
        n = n + len_utf8(s[k]);
        k = k + 1;
    }
    n
}

} // verus!

verus! {

/// `needle` occurs in `hay` at index `i`.
pub open spec fn occurs_at(hay: Seq<char>, needle: Seq<char>, i: int) -> bool {
    0 <= i && i + needle.len() <= hay.len() && hay.subrange(i, i + needle.len()) == needle
}

/// `needle` occurs somewhere in `hay`.
pub open spec fn contains_seq(hay: Seq<char>, needle: Seq<char>) -> bool {
    exists|i: int| occurs_at(hay, needle, i)
}

/// Containment is substring search at any position: `needle` is contained
/// in any text that holds it, at its start, its end or anywhere between,
/// and a text that contains it holds it between some prefix and suffix.
pub proof fn law_contains_seq_is_substring(prefix: Seq<char>, needle: Seq<char>, suffix: Seq<char>, hay: Seq<char>)
    ensures
        contains_seq(prefix + needle + suffix, needle),
        contains_seq(needle, needle),
        contains_seq(hay, Seq::<char>::empty()),
        contains_seq(hay, needle) ==> exists|a: Seq<char>, b: Seq<char>| hay == a + needle + b,
{
    let whole = prefix + needle + suffix;
    assert(whole.subrange(prefix.len() as int, (prefix.len() + needle.len()) as int) =~= needle);
    assert(occurs_at(whole, needle, prefix.len() as int));
    assert(needle.subrange(0, needle.len() as int) =~= needle);
    assert(occurs_at(needle, needle, 0));
    assert(hay.subrange(0, 0) =~= Seq::<char>::empty());
    assert(occurs_at(hay, Seq::<char>::empty(), 0));
    if contains_seq(hay, needle) {
        let i = choose|i: int| occurs_at(hay, needle, i);
        let a = hay.subrange(0, i);
        let b = hay.subrange(i + needle.len(), hay.len() as int);
        assert(hay =~= a + needle + b);
    }
}

fn occurs_at_exec(hay: &Vec<char>, needle: &Vec<char>, i: usize) -> (r: bool)
    requires
        i + needle@.len() <= hay@.len(),
    ensures
        r == occurs_at(hay@, needle@, i as int),
{
    let mut k: usize = 0;
    let n = hay.len();
    while k < needle.len()
        invariant
            n == hay@.len(),
            i + needle@.len() <= hay@.len(),
            k <= needle@.len(),
            forall|m: int| 0 <= m < k ==> hay@[i + m] == needle@[m],
        decreases needle@.len() - k,
    {
        if hay[i + k] != needle[k] {
            proof {
                assert(hay@.subrange(i as int, i + needle@.len())[k as int] != needle@[k as int]);
            }
            return false;
        }
        k = k + 1;
    }
    proof {
        assert(hay@.subrange(i as int, i + needle@.len()) =~= needle@);
    }
    true
}

/// Whether `needle` occurs in `hay` (`str::contains`, on characters).
pub fn contains_chars(hay: &Vec<char>, needle: &Vec<char>) -> (r: bool)
    ensures
        r == contains_seq(hay@, needle@),
{
    if needle.len() > hay.len() {
        proof {
            assert forall|i: int| !occurs_at(hay@, needle@, i) by {}
        }
        return false;
    }
    let last = hay.len() - needle.len();
    let mut i: usize = 0;
    loop
        invariant
            i <= last,
            last + needle@.len() == hay@.len(),
            forall|j: int| 0 <= j < i ==> !occurs_at(hay@, needle@, j),
        ensures
            forall|j: int| 0 <= j <= last ==> !occurs_at(hay@, needle@, j),
        decreases last - i,
    {
        if occurs_at_exec(hay, needle, i) {
            return true;
        }
        if i == last {
            break;
        }
        i = i + 1;
    }
    proof {
        assert forall|j: int| !occurs_at(hay@, needle@, j) by {
            if 0 <= j && j + needle@.len() <= hay@.len() {
                assert(j <= last);
            }
        }
    }
    false
}

/// Whether `hay` starts with `prefix`.
pub fn starts_with_chars(hay: &Vec<char>, prefix: &Vec<char>) -> (r: bool)
    ensures
        r == occurs_at(hay@, prefix@, 0),
{
    if prefix.len() > hay.len() {
        return false;
    }
    occurs_at_exec(hay, prefix, 0)
}

} // verus!

verus! {

/// The decimal digits of `n`.
pub open spec fn decimal(n: nat) -> Seq<char>
    decreases n,
{
    if n < 10 {
        seq![decimal_digit(n)]
    } else {
        decimal(n / 10).push(decimal_digit(n % 10))
    }
}

pub open spec fn decimal_digit(d: nat) -> char {
    ((d + 48) as u32) as char
}

/// Appends the decimal digits of `n`.
pub fn push_decimal(s: &mut String, n: usize)
    ensures
        final(s)@ == old(s)@ + decimal(n as nat),
    decreases n,
{
    if n >= 10 {
        push_decimal(s, n / 10);
    }
    let d = (n % 10) as u8;
    push_char(s, (48u8 + d) as char);
    proof {
        assert(((d + 48) as u32) as char == (48u8 + d) as char);
    }
}

/// Appends a string slice.
pub fn push_str(s: &mut String, t: &str)
    ensures
        final(s)@ == old(s)@ + t@,
{
    s.append(t);
}

} // verus!

verus! {

/// The characters that `str::to_lowercase` gives for `s`.
pub uninterp spec fn unicode_lowercase(s: Seq<char>) -> Seq<char>;

/// Lowercases text by the Unicode rules.
///
/// Calls `str::to_lowercase`; the contract names its result. The mapping
/// itself (Unicode case tables, context-dependent final sigma) is not
/// stated.
#[verifier::external_body]
pub(crate) fn to_lowercase(s: &str) -> (lower: String)
    ensures
        lower@ == unicode_lowercase(s@),
{
    s.to_lowercase()
}

} // verus!
