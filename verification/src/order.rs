//! Ordering by keys: items are ordered by a sequence of integers, compared
//! as words in a dictionary, and sorted without changing the order of items
//! with equal keys.

use vstd::prelude::*;
use crate::text::chars_of;

verus! {

/// `a` comes before `b`, or is equal to it, when both are compared from
/// position `i` on as words in a dictionary: the first position where they
/// differ decides, and a text that ends first comes first.
pub open spec fn lex_le_from(a: Seq<int>, b: Seq<int>, i: int) -> bool
    decreases a.len() - i,
{
    if i >= a.len() {
        true
    } else if i >= b.len() {
        false
    } else if a[i] != b[i] {
        a[i] < b[i]
    } else {
        lex_le_from(a, b, i + 1)
    }
}

/// `a` comes before `b` in dictionary order, or is equal to it.
pub open spec fn lex_le(a: Seq<int>, b: Seq<int>) -> bool {
    lex_le_from(a, b, 0)
}

/// Every key is at most itself.
pub proof fn lemma_lex_reflexive(a: Seq<int>, i: int)
    ensures
        lex_le_from(a, a, i),
    decreases a.len() - i,
{
    if i < a.len() {
        lemma_lex_reflexive(a, i + 1);
    }
}

/// Of two keys, one is at most the other.
pub proof fn lemma_lex_total(a: Seq<int>, b: Seq<int>, i: int)
    ensures
        lex_le_from(a, b, i) || lex_le_from(b, a, i),
    decreases a.len() - i,
{
    if i < a.len() && i < b.len() && a[i] == b[i] {
        lemma_lex_total(a, b, i + 1);
    }
}

/// Two keys that are at most each other are the same key.
pub proof fn lemma_lex_antisymmetric(a: Seq<int>, b: Seq<int>, i: int)
    requires
        0 <= i,
        lex_le_from(a, b, i),
        lex_le_from(b, a, i),
        i <= a.len(),
        i <= b.len(),
        a.subrange(0, i) == b.subrange(0, i),
    ensures
        a == b,
    decreases a.len() - i,
{
    if i >= a.len() || i >= b.len() {
        assert(a.len() == b.len());
        assert(a == a.subrange(0, i));
        assert(b == b.subrange(0, i));
    } else {
        assert(a[i] == b[i]);
        assert(a.subrange(0, i + 1) == a.subrange(0, i).push(a[i]));
        assert(b.subrange(0, i + 1) == b.subrange(0, i).push(b[i]));
        lemma_lex_antisymmetric(a, b, i + 1);
    }
}

/// The order of keys is transitive.
pub proof fn lemma_lex_transitive(a: Seq<int>, b: Seq<int>, c: Seq<int>, i: int)
    requires
        lex_le_from(a, b, i),
        lex_le_from(b, c, i),
    ensures
        lex_le_from(a, c, i),
    decreases a.len() - i,
{
    if i < a.len() && a[i] == b[i] && b[i] == c[i] {
        lemma_lex_transitive(a, b, c, i + 1);
    }
}

/// Something that is sorted by a key.
pub trait Keyed {
    /// The key by which values are ordered.
    spec fn key(&self) -> Seq<int>;

    /// Whether `self` comes before `other`, or has the same key.
    fn key_le(&self, other: &Self) -> (le: bool)
        ensures
            le == lex_le(self.key(), other.key()),
    ;
}

/// `order` lists the positions `0..keys.len()`, each once, so that the keys
/// at these positions never decrease, and positions with equal keys stay in
/// their order.
pub open spec fn is_stable_order(keys: Seq<Seq<int>>, order: Seq<usize>) -> bool {
    &&& order.len() == keys.len()
    &&& forall|i: int| 0 <= i < order.len() ==> (#[trigger] order[i]) < keys.len()
    &&& forall|i: int, j: int|
        0 <= i < j < order.len() ==> {
            &&& (#[trigger] order[i]) != (#[trigger] order[j])
            &&& lex_le(keys[order[i] as int], keys[order[j] as int])
            &&& (keys[order[i] as int] == keys[order[j] as int] ==> order[i] < order[j])
        }
}

/// The keys of a sequence of items.
pub open spec fn keys_of<T: Keyed>(items: Seq<T>) -> Seq<Seq<int>> {
    items.map_values(|t: T| t.key())
}

/// The values of `s` at the positions that `order` lists, in that order.
pub open spec fn reordered<A>(s: Seq<A>, order: Seq<usize>) -> Seq<A> {
    Seq::new(order.len(), |i: int| s[order[i] as int])
}

/// Inserting a value into a sequence adds it to the sequence's multiset.
pub proof fn lemma_insert_to_multiset<A>(s: Seq<A>, at: int, value: A)
    requires
        0 <= at <= s.len(),
    ensures
        s.insert(at, value).to_multiset() == s.to_multiset().insert(value),
{
    let t = s.insert(at, value);
    vstd::seq_lib::to_multiset_remove(t, at);
    assert(t.remove(at) == s);
    t.to_multiset_ensures();
    assert(t.contains(value)) by {
        assert(t[at] == value);
    }
    assert(t.to_multiset() =~= s.to_multiset().insert(value));
}

/// The positions of `items` in sorted order: by key, items with equal keys
/// in the order in which they stand. The `shadow` is any sequence of the
/// same length; reordering it as the items are reordered keeps its values.
pub(crate) fn sorted_order<T: Keyed, A>(items: &Vec<T>, Ghost(shadow): Ghost<Seq<A>>) -> (order: Vec<
    usize,
>)
    requires
        shadow.len() == items@.len(),
    ensures
        is_stable_order(keys_of(items@), order@),
        reordered(shadow, order@).to_multiset() == shadow.to_multiset(),
{
    let mut order: Vec<usize> = Vec::new();
    let ghost keys = keys_of(items@);
    let mut k: usize = 0;
    assert(reordered(shadow, order@) == shadow.subrange(0, 0));
    while k < items.len()
        invariant
            k <= items.len(),
            shadow.len() == items@.len(),
            keys == keys_of(items@),
            order@.len() == k,
            forall|i: int| 0 <= i < order@.len() ==> (#[trigger] order@[i]) < k,
            forall|i: int, j: int|
                0 <= i < j < order@.len() ==> {
                    &&& (#[trigger] order@[i]) != (#[trigger] order@[j])
                    &&& lex_le(keys[order@[i] as int], keys[order@[j] as int])
                    &&& (keys[order@[i] as int] == keys[order@[j] as int] ==> order@[i]
                        < order@[j])
                },
            reordered(shadow, order@).to_multiset() == shadow.subrange(0, k as int).to_multiset(),
        decreases items.len() - k,
    {
        // The new item goes behind every item that is at most it.
        let mut at: usize = k;
        while at > 0 && !items[order[at - 1]].key_le(&items[k])
            invariant
                at <= k,
                k < items.len(),
                order@.len() == k,
                keys == keys_of(items@),
                forall|i: int| 0 <= i < order@.len() ==> (#[trigger] order@[i]) < k,
                forall|i: int|
                    at <= i < k ==> !lex_le(keys[(#[trigger] order@[i]) as int], keys[k as int]),
            decreases at,
        {
            at -= 1;
        }
        let ghost before = order@;
        order.insert(at, k);
        proof {
            let after = order@;
            assert(after == before.insert(at as int, k));
            assert forall|i: int, j: int| 0 <= i < j < after.len() implies {
                &&& (#[trigger] after[i]) != (#[trigger] after[j])
                &&& lex_le(keys[after[i] as int], keys[after[j] as int])
                &&& (keys[after[i] as int] == keys[after[j] as int] ==> after[i] < after[j])
            } by {
                if j == at {
                    // after[i] is an earlier item that is at most the new one.
                    assert(after[i] == before[i]);
                    if i == at - 1 {
                        assert(lex_le(keys[before[i] as int], keys[k as int]));
                    } else {
                        assert(lex_le(keys[before[i] as int], keys[before[at - 1] as int]));
                        lemma_lex_transitive(
                            keys[before[i] as int],
                            keys[before[at - 1] as int],
                            keys[k as int],
                            0,
                        );
                    }
                } else if i == at {
                    // after[j] is an item that the new one comes before.
                    assert(after[j] == before[j - 1]);
                    assert(!lex_le(keys[before[j - 1] as int], keys[k as int]));
                    lemma_lex_total(keys[before[j - 1] as int], keys[k as int], 0);
                    lemma_lex_reflexive(keys[k as int], 0);
                } else {
                    let bi = if i < at { i } else { i - 1 };
                    let bj = if j < at { j } else { j - 1 };
                    assert(after[i] == before[bi]);
                    assert(after[j] == before[bj]);
                }
            }
            assert forall|i: int| 0 <= i < after.len() implies (#[trigger] after[i]) < k + 1 by {
                if i < at {
                    assert(after[i] == before[i]);
                } else if i > at {
                    assert(after[i] == before[i - 1]);
                }
            }
            assert(reordered(shadow, after) =~= reordered(shadow, before).insert(
                at as int,
                shadow[k as int],
            ));
            lemma_insert_to_multiset(reordered(shadow, before), at as int, shadow[k as int]);
            vstd::seq_lib::to_multiset_build(shadow.subrange(0, k as int), shadow[k as int]);
            assert(shadow.subrange(0, k + 1) == shadow.subrange(0, k as int).push(
                shadow[k as int],
            ));
        }
        k += 1;
    }
    assert(shadow.subrange(0, k as int) == shadow);
    order
}

/// The code point of a character is not negative.
pub proof fn lemma_char_code(c: char)
    ensures
        c as int >= 0,
{
}

/// The key of a text: its characters as code points. Texts are then
/// ordered as `str` orders them.
pub open spec fn text_key(text: Seq<char>) -> Seq<int> {
    text.map_values(|c: char| c as int)
}

/// Texts with the same key are the same text.
pub proof fn lemma_text_key_injective(a: Seq<char>, b: Seq<char>)
    requires
        text_key(a) == text_key(b),
    ensures
        a == b,
{
    assert(a.len() == text_key(a).len());
    assert(b.len() == text_key(b).len());
    assert(a =~= b) by {
        assert forall|i: int| 0 <= i < a.len() implies a[i] == b[i] by {
            assert(text_key(a)[i] == a[i] as int);
            assert(text_key(b)[i] == b[i] as int);
        }
    }
}

/// Whether the text `a` comes before the text `b`, or is equal to it.
pub fn text_le(a: &str, b: &str) -> (le: bool)
    ensures
        le == lex_le(text_key(a@), text_key(b@)),
{
    let x = chars_of(a);
    let y = chars_of(b);
    let ghost ka = text_key(a@);
    let ghost kb = text_key(b@);
    let mut i: usize = 0;
    while i < x.len() && i < y.len()
        invariant
            i <= x@.len(),
            i <= y@.len(),
            x@ == a@,
            y@ == b@,
            ka == text_key(a@),
            kb == text_key(b@),
            lex_le(ka, kb) == lex_le_from(ka, kb, i as int),
        decreases x.len() - i,
    {
        assert(ka[i as int] == x@[i as int] as int);
        assert(kb[i as int] == y@[i as int] as int);
        if x[i] != y[i] {
            return x[i] < y[i];
        }
        i += 1;
    }
    assert(ka.len() == x@.len() && kb.len() == y@.len());
    i >= x.len()
}

impl Keyed for String {
    open spec fn key(&self) -> Seq<int> {
        text_key(self@)
    }

    fn key_le(&self, other: &Self) -> (le: bool) {
        text_le(self.as_str(), other.as_str())
    }
}

} // verus!
