//! A stable sort by a rank and a text, used to order folder listings and
//! font names.

use vstd::prelude::*;

verus! {

/// Text order: character by character by code point, a proper prefix
/// first. On UTF-8 strings this is the order of `String`'s `Ord`.
pub open spec fn text_lt(a: Seq<char>, b: Seq<char>) -> bool
    decreases a.len(),
{
    if a.len() == 0 {
        b.len() > 0
    } else if b.len() == 0 {
        false
    } else if a[0] != b[0] {
        (a[0] as u32) < (b[0] as u32)
    } else {
        text_lt(a.drop_first(), b.drop_first())
    }
}

/// Sort key: a rank, then a text.
pub open spec fn key_lt(a: (u8, Seq<char>), b: (u8, Seq<char>)) -> bool {
    a.0 < b.0 || (a.0 == b.0 && text_lt(a.1, b.1))
}

/// `items` is the stable sort of `input` by `key`: the same items, ordered by
/// key, with items of equal key in their input order.
pub open spec fn is_stable_sort<T>(
    items: Seq<T>,
    input: Seq<T>,
    key: spec_fn(T) -> (u8, Seq<char>),
) -> bool {
    exists|perm: Seq<int>|
        {
            &&& perm.len() == input.len()
            &&& items.len() == input.len()
            &&& forall|k: int| 0 <= k < perm.len() ==> 0 <= #[trigger] perm[k] < input.len()
            &&& forall|k: int, l: int|
                0 <= k < l < perm.len() ==> #[trigger] perm[k] != #[trigger] perm[l]
            &&& forall|k: int| 0 <= k < items.len() ==> #[trigger] items[k] == input[perm[k]]
            &&& forall|k: int, l: int|
                0 <= k < l < items.len() ==> !key_lt(key(#[trigger] items[l]), key(#[trigger] items[k]))
            &&& forall|k: int, l: int|
                0 <= k < l < items.len() && key(#[trigger] items[k]) == key(#[trigger] items[l])
                    ==> perm[k] < perm[l]
        }
}

pub proof fn lemma_text_lt_irreflexive(a: Seq<char>)
    ensures
        !text_lt(a, a),
    decreases a.len(),
{
    if a.len() > 0 {
        lemma_text_lt_irreflexive(a.drop_first());
    }
}

pub proof fn lemma_text_lt_transitive(a: Seq<char>, b: Seq<char>, c: Seq<char>)
    requires
        text_lt(a, b),
        text_lt(b, c),
    ensures
        text_lt(a, c),
    decreases a.len(),
{
    if a.len() > 0 && b.len() > 0 && c.len() > 0 {
        if a[0] == b[0] && b[0] == c[0] {
            lemma_text_lt_transitive(a.drop_first(), b.drop_first(), c.drop_first());
        }
    }
}

pub proof fn lemma_text_lt_total(a: Seq<char>, b: Seq<char>)
    ensures
        a == b || text_lt(a, b) || text_lt(b, a),
    decreases a.len(),
{
    if a.len() > 0 && b.len() > 0 {
        if a[0] == b[0] {
            lemma_text_lt_total(a.drop_first(), b.drop_first());
            if a.drop_first() == b.drop_first() {
                assert(a =~= seq![a[0]] + a.drop_first());
                assert(b =~= seq![b[0]] + b.drop_first());
            }
        } else {
            vstd::utf8::char_is_scalar(a[0]);
            vstd::utf8::char_is_scalar(b[0]);
            if (a[0] as u32) == (b[0] as u32) {
                vstd::utf8::char_u32_cast(a[0], a[0] as u32);
                vstd::utf8::char_u32_cast(b[0], b[0] as u32);
            }
        }
    } else if a.len() == 0 && b.len() == 0 {
        assert(a =~= b);
    }
}

proof fn lemma_text_lt_prefix(a: Seq<char>, b: Seq<char>)
    ensures
        b.len() > 0 ==> text_lt(a, a + b),
        !text_lt(a + b, a),
    decreases a.len(),
{
    if a.len() > 0 {
        assert((a + b)[0] == a[0]);
        assert((a + b).drop_first() =~= a.drop_first() + b);
        lemma_text_lt_prefix(a.drop_first(), b);
    } else {
        assert(a + b =~= b);
    }
}

proof fn lemma_text_lt_first_difference(a: Seq<char>, b: Seq<char>, k: int)
    requires
        0 <= k < a.len(),
        k < b.len(),
        a.take(k) == b.take(k),
        a[k] != b[k],
    ensures
        text_lt(a, b) <==> (a[k] as u32) < (b[k] as u32),
    decreases k,
{
    if k > 0 {
        assert(a.take(k)[0] == a[0] && b.take(k)[0] == b[0]);
        assert(a.take(k)[0] == b.take(k)[0]);
        assert(a.drop_first().take(k - 1) =~= a.take(k).drop_first());
        assert(b.drop_first().take(k - 1) =~= b.take(k).drop_first());
        assert(a[0] == b[0]);
        assert(a.drop_first()[k - 1] == a[k] && b.drop_first()[k - 1] == b[k]);
        lemma_text_lt_first_difference(a.drop_first(), b.drop_first(), k - 1);
        assert(text_lt(a, b) == text_lt(a.drop_first(), b.drop_first()));
    } else {
        assert(text_lt(a, b) == ((a[0] as u32) < (b[0] as u32)));
    }
}

/// Text order is `String`'s order: a proper prefix comes before every text
/// that extends it, and otherwise the first character where two texts
/// differ decides, by code point.
pub proof fn law_text_lt_is_lexicographic(a: Seq<char>, b: Seq<char>, k: int)
    ensures
        b.len() > 0 ==> text_lt(a, a + b),
        !text_lt(a + b, a),
        0 <= k < a.len() && k < b.len() && a.take(k) == b.take(k) && a[k] != b[k] ==> (text_lt(
            a,
            b,
        ) <==> (a[k] as u32) < (b[k] as u32)),
{
    lemma_text_lt_prefix(a, b);
    if 0 <= k < a.len() && k < b.len() && a.take(k) == b.take(k) && a[k] != b[k] {
        lemma_text_lt_first_difference(a, b, k);
    }
}

proof fn lemma_key_order(a: (u8, Seq<char>), b: (u8, Seq<char>), c: (u8, Seq<char>))
    ensures
        !key_lt(a, a),
        key_lt(a, b) && key_lt(b, c) ==> key_lt(a, c),
        !key_lt(a, b) && !key_lt(b, a) ==> a == b,
        key_lt(a, b) ==> !key_lt(b, a),
{
    lemma_text_lt_irreflexive(a.1);
    if key_lt(a, b) && key_lt(b, c) && a.0 == b.0 && b.0 == c.0 {
        lemma_text_lt_transitive(a.1, b.1, c.1);
    }
    lemma_text_lt_total(a.1, b.1);
    if key_lt(a, b) && key_lt(b, a) {
        if a.0 == b.0 {
            lemma_text_lt_transitive(a.1, b.1, a.1);
        }
    }
}

/// The executable form of a sort key.
pub struct SortKey {
    pub rank: u8,
    pub text: Vec<char>,
}

pub open spec fn key_of(k: SortKey) -> (u8, Seq<char>) {
    (k.rank, k.text@)
}

fn text_less(a: &Vec<char>, b: &Vec<char>) -> (r: bool)
    ensures
        r == text_lt(a@, b@),
{
    let mut k: usize = 0;
    proof {
        assert(a@.skip(0) =~= a@);
        assert(b@.skip(0) =~= b@);
    }
    while k < a.len() && k < b.len() && a[k] == b[k]
        invariant
            k <= a@.len(),
            k <= b@.len(),
            text_lt(a@, b@) == text_lt(a@.skip(k as int), b@.skip(k as int)),
        decreases a@.len() - k,
    {
        proof {
            assert(a@.skip(k as int).drop_first() =~= a@.skip(k + 1));
            assert(b@.skip(k as int).drop_first() =~= b@.skip(k + 1));
        }
        k = k + 1;
    }
    if k == a.len() {
        k < b.len()
    } else if k == b.len() {
        false
    } else {
        (a[k] as u32) < (b[k] as u32)
    }
}

fn key_less(a: &SortKey, b: &SortKey) -> (r: bool)
    ensures
        r == key_lt(key_of(*a), key_of(*b)),
{
    a.rank < b.rank || (a.rank == b.rank && text_less(&a.text, &b.text))
}

/// Sorts keyed items by key, keeping items of equal key in order.
pub fn stable_sort<T>(items: Vec<(SortKey, T)>) -> (sorted: Vec<(SortKey, T)>)
    ensures
        is_stable_sort(sorted@, items@, |p: (SortKey, T)| key_of(p.0)),
{
    let ghost input = items@;
    let ghost key = |p: (SortKey, T)| key_of(p.0);
    let mut rest = items;
    let mut out: Vec<(SortKey, T)> = Vec::new();
    let ghost mut perm: Seq<int> = Seq::empty();
    let n = rest.len();
    let mut i: usize = 0;
    while i < n
        invariant
            n == input.len(),
            i <= n,
            rest@ == input.skip(i as int),
            out@.len() == i,
            perm.len() == i,
            key == (|p: (SortKey, T)| key_of(p.0)),
            forall|k: int| 0 <= k < perm.len() ==> 0 <= #[trigger] perm[k] < i,
            forall|k: int, l: int| 0 <= k < l < perm.len() ==> #[trigger] perm[k] != #[trigger] perm[l],
            forall|k: int| 0 <= k < out@.len() ==> #[trigger] out@[k] == input[perm[k]],
            forall|k: int, l: int|
                0 <= k < l < out@.len() ==> !key_lt(key(#[trigger] out@[l]), key(#[trigger] out@[k])),
            forall|k: int, l: int|
                0 <= k < l < out@.len() && key(#[trigger] out@[k]) == key(#[trigger] out@[l]) ==> perm[k]
                    < perm[l],
        decreases n - i,
    {
        let x = rest.remove(0);
        proof {
            assert(x == input[i as int]);
            assert(rest@ =~= input.skip(i + 1));
        }
        let mut p: usize = 0;
        while p < out.len() && !key_less(&x.0, &out[p].0)
            invariant
                p <= out@.len(),
                key == (|q: (SortKey, T)| key_of(q.0)),
                forall|m: int| 0 <= m < p ==> !key_lt(key(x), key(#[trigger] out@[m])),
            decreases out@.len() - p,
        {
            p = p + 1;
        }
        proof {
            // Every item from `p` on sorts strictly after `x`.
            assert forall|m: int| p <= m < out@.len() implies key_lt(key(x), key(#[trigger] out@[m])) by {
                lemma_key_order(key(x), key(out@[p as int]), key(out@[m]));
                lemma_key_order(key(out@[p as int]), key(out@[m]), key(x));
                lemma_key_order(key(x), key(out@[m]), key(out@[p as int]));
                if m > p {
                    assert(!key_lt(key(out@[m]), key(out@[p as int])));
                    lemma_key_order(key(out@[m]), key(out@[p as int]), key(x));
                }
            }
        }
        let ghost old_out = out@;
        let ghost old_perm = perm;
        out.insert(p, x);
        proof {
            perm = old_perm.insert(p as int, i as int);
            assert forall|k: int| 0 <= k < out@.len() implies #[trigger] out@[k] == input[perm[k]] by {
                if k < p {
                    assert(out@[k] == old_out[k]);
                } else if k > p {
                    assert(out@[k] == old_out[k - 1]);
                }
            }
            assert forall|k: int| 0 <= k < perm.len() implies 0 <= #[trigger] perm[k] < i + 1 by {
                if k < p {
                    assert(perm[k] == old_perm[k]);
                } else if k > p {
                    assert(perm[k] == old_perm[k - 1]);
                }
            }
            assert forall|k: int, l: int| 0 <= k < l < perm.len() implies #[trigger] perm[k]
                != #[trigger] perm[l] by {
                if k < p && l < p {
                    assert(perm[k] == old_perm[k] && perm[l] == old_perm[l]);
                } else if k < p && l == p {
                    assert(perm[k] == old_perm[k]);
                } else if k < p && l > p {
                    assert(perm[k] == old_perm[k] && perm[l] == old_perm[l - 1]);
                } else if k == p {
                    assert(perm[l] == old_perm[l - 1]);
                } else {
                    assert(perm[k] == old_perm[k - 1] && perm[l] == old_perm[l - 1]);
                }
            }
            assert forall|k: int, l: int| 0 <= k < l < out@.len() implies !key_lt(
                key(#[trigger] out@[l]),
                key(#[trigger] out@[k]),
            ) by {
                if k < p && l < p {
                    assert(out@[k] == old_out[k] && out@[l] == old_out[l]);
                } else if k < p && l == p {
                    assert(out@[k] == old_out[k]);
                    lemma_key_order(key(x), key(old_out[k]), key(x));
                } else if k < p && l > p {
                    assert(out@[k] == old_out[k] && out@[l] == old_out[l - 1]);
                } else if k == p {
                    assert(out@[l] == old_out[l - 1]);
                    lemma_key_order(key(x), key(old_out[l - 1]), key(x));
                } else {
                    assert(out@[k] == old_out[k - 1] && out@[l] == old_out[l - 1]);
                }
            }
            assert forall|k: int, l: int|
                0 <= k < l < out@.len() && key(#[trigger] out@[k]) == key(#[trigger] out@[l])
                    implies perm[k] < perm[l] by {
                if k < p && l < p {
                    assert(out@[k] == old_out[k] && out@[l] == old_out[l]);
                    assert(perm[k] == old_perm[k] && perm[l] == old_perm[l]);
                } else if k < p && l == p {
                    assert(perm[k] == old_perm[k]);
                } else if k < p && l > p {
                    assert(out@[k] == old_out[k] && out@[l] == old_out[l - 1]);
                    assert(perm[k] == old_perm[k] && perm[l] == old_perm[l - 1]);
                } else if k == p {
                    assert(out@[l] == old_out[l - 1]);
                    lemma_key_order(key(x), key(old_out[l - 1]), key(x));
                } else {
                    assert(out@[k] == old_out[k - 1] && out@[l] == old_out[l - 1]);
                    assert(perm[k] == old_perm[k - 1] && perm[l] == old_perm[l - 1]);
                }
            }
        }
        i = i + 1;
    }
    proof {
        assert(is_stable_sort(out@, input, key)) by {
            assert(perm.len() == input.len());
        }
    }
    out
}


/// Sorts `items` stably by `keys`, the key of each item.
pub(crate) fn sort_by_keys<T>(
    items: Vec<T>,
    keys: Vec<SortKey>,
    Ghost(key): Ghost<spec_fn(T) -> (u8, Seq<char>)>,
) -> (sorted: Vec<T>)
    requires
        keys@.len() == items@.len(),
        forall|k: int| 0 <= k < items@.len() ==> key_of(#[trigger] keys@[k]) == key(items@[k]),
    ensures
        is_stable_sort(sorted@, items@, key),
{
    let ghost input = items@;
    let mut rest = items;
    let mut rest_keys = keys;
    let mut keyed: Vec<(SortKey, T)> = Vec::new();
    let n = rest.len();
    let mut i: usize = 0;
    let ghost all_keys = rest_keys@;
    while i < n
        invariant
            n == input.len(),
            i <= n,
            all_keys.len() == n,
            forall|k: int| 0 <= k < n ==> key_of(#[trigger] all_keys[k]) == key(input[k]),
            rest@ == input.skip(i as int),
            rest_keys@ == all_keys.skip(i as int),
            keyed@.len() == i,
            forall|k: int| 0 <= k < i ==> (#[trigger] keyed@[k]).1 == input[k] && key_of(
                keyed@[k].0,
            ) == key(input[k]),
        decreases n - i,
    {
        let item = rest.remove(0);
        let item_key = rest_keys.remove(0);
        proof {
            assert(item == input[i as int]);
            assert(item_key == all_keys[i as int]);
            assert(rest@ =~= input.skip(i + 1));
            assert(rest_keys@ =~= all_keys.skip(i + 1));
        }
        keyed.push((item_key, item));
        i = i + 1;
    }
    let sorted_keyed = stable_sort(keyed);
    let ghost kin = keyed@;
    let ghost kout = sorted_keyed@;
    let mut rest_sorted = sorted_keyed;
    let mut sorted: Vec<T> = Vec::new();
    let mut j: usize = 0;
    while j < n
        invariant
            n == kout.len(),
            j <= n,
            rest_sorted@ == kout.skip(j as int),
            sorted@.len() == j,
            forall|k: int| 0 <= k < j ==> #[trigger] sorted@[k] == kout[k].1,
        decreases n - j,
    {
        let (_, item) = rest_sorted.remove(0);
        proof {
            assert(rest_sorted@ =~= kout.skip(j + 1));
        }
        sorted.push(item);
        j = j + 1;
    }
    proof {
        let kkey = |p: (SortKey, T)| key_of(p.0);
        assert(is_stable_sort(kout, kin, kkey));
        let perm = choose|perm: Seq<int>|
            {
                &&& perm.len() == kin.len()
                &&& kout.len() == kin.len()
                &&& forall|k: int| 0 <= k < perm.len() ==> 0 <= #[trigger] perm[k] < kin.len()
                &&& forall|k: int, l: int|
                    0 <= k < l < perm.len() ==> #[trigger] perm[k] != #[trigger] perm[l]
                &&& forall|k: int| 0 <= k < kout.len() ==> #[trigger] kout[k] == kin[perm[k]]
                &&& forall|k: int, l: int|
                    0 <= k < l < kout.len() ==> !key_lt(kkey(#[trigger] kout[l]), kkey(#[trigger] kout[k]))
                &&& forall|k: int, l: int|
                    0 <= k < l < kout.len() && kkey(#[trigger] kout[k]) == kkey(#[trigger] kout[l])
                        ==> perm[k] < perm[l]
            };
        assert forall|k: int| 0 <= k < sorted@.len() implies #[trigger] sorted@[k] == input[perm[k]]
            && key(sorted@[k]) == kkey(kout[k]) by {
            assert(kout[k] == kin[perm[k]]);
        }
        assert forall|k: int, l: int| 0 <= k < l < sorted@.len() implies !key_lt(
            key(#[trigger] sorted@[l]),
            key(#[trigger] sorted@[k]),
        ) by {
            assert(key(sorted@[k]) == kkey(kout[k]));
            assert(key(sorted@[l]) == kkey(kout[l]));
        }
        assert forall|k: int, l: int|
            0 <= k < l < sorted@.len() && key(#[trigger] sorted@[k]) == key(#[trigger] sorted@[l])
                implies perm[k] < perm[l] by {
            assert(key(sorted@[k]) == kkey(kout[k]));
            assert(key(sorted@[l]) == kkey(kout[l]));
        }
        assert(is_stable_sort(sorted@, input, key));
    }
    sorted
}

} // verus!
