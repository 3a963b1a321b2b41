//! A stable sort by a two-level integer key, with the laws that pin its
//! result down.

use vstd::prelude::*;

verus! {

/// A sort key. Keys are compared by `major` first and by `minor` second;
/// smaller keys come first.
#[derive(Clone, Copy, Debug, PartialEq, Eq, Structural)]
pub struct SortKey {
    pub major: i128,
    pub minor: i128,
}

impl SortKey {
    /// Whether an entry with this key must stand before one with `other`.
    pub open spec fn precedes(self, other: SortKey) -> bool {
        self.major < other.major || (self.major == other.major && self.minor < other.minor)
    }

    /// Decides [`SortKey::precedes`].
    pub fn is_before(&self, other: &SortKey) -> (before: bool)
        ensures
            before == self.precedes(*other),
    {
        self.major < other.major || (self.major == other.major && self.minor < other.minor)
    }
}

/// An item together with the key it is sorted by.
pub struct Keyed<T> {
    pub key: SortKey,
    pub item: T,
}

/// No entry stands after one that it must precede.
pub open spec fn ordered<T>(s: Seq<Keyed<T>>) -> bool {
    forall|i: int, j: int|
        0 <= i < j < s.len() ==> !(#[trigger] s[j]).key.precedes((#[trigger] s[i]).key)
}

/// The entries of `s` whose key is `k`, in the order in which they stand in
/// `s`.
pub open spec fn with_key<T>(s: Seq<Keyed<T>>, k: SortKey) -> Seq<Keyed<T>>
    decreases s.len(),
{
    if s.len() == 0 {
        s
    } else if s[0].key == k {
        seq![s[0]] + with_key(s.drop_first(), k)
    } else {
        with_key(s.drop_first(), k)
    }
}

/// The number of leading entries of `s` that must precede an entry with key
/// `k`: the place where such an entry is put so that it stands before every
/// entry with an equal key.
pub open spec fn slot<T>(s: Seq<Keyed<T>>, k: SortKey) -> int
    decreases s.len(),
{
    if s.len() == 0 || !s[0].key.precedes(k) {
        0
    } else {
        1 + slot(s.drop_first(), k)
    }
}

/// The entries of `s` sorted by key, entries with equal keys in the order in
/// which they stand in `s`.
pub open spec fn stable_sorted<T>(s: Seq<Keyed<T>>) -> Seq<Keyed<T>>
    decreases s.len(),
{
    if s.len() == 0 {
        s
    } else {
        let rest = stable_sorted(s.drop_first());
        rest.insert(slot(rest, s[0].key), s[0])
    }
}

/// The items of the entries, without their keys.
pub open spec fn items_of<T>(s: Seq<Keyed<T>>) -> Seq<T> {
    s.map_values(|e: Keyed<T>| e.item)
}

/// Every entry before the slot precedes `k`, and the entry at the slot does
/// not.
pub proof fn lemma_slot<T>(s: Seq<Keyed<T>>, k: SortKey)
    ensures
        0 <= slot(s, k) <= s.len(),
        forall|j: int| 0 <= j < slot(s, k) ==> (#[trigger] s[j]).key.precedes(k),
        slot(s, k) < s.len() ==> !s[slot(s, k)].key.precedes(k),
    decreases s.len(),
{
    if s.len() == 0 || !s[0].key.precedes(k) {
    } else {
        let rest = s.drop_first();
        lemma_slot(rest, k);
        let p = slot(rest, k);
        assert(slot(s, k) == p + 1);
        assert forall|j: int| 0 <= j < p + 1 implies (#[trigger] s[j]).key.precedes(k) by {
            if j > 0 {
                assert(s[j] == rest[j - 1]);
            }
        }
        if p + 1 < s.len() {
            assert(s[p + 1] == rest[p]);
        }
    }
}

/// A place `p` with the two properties of [`lemma_slot`] is the slot.
pub proof fn lemma_slot_is<T>(s: Seq<Keyed<T>>, k: SortKey, p: int)
    requires
        0 <= p <= s.len(),
        forall|j: int| 0 <= j < p ==> (#[trigger] s[j]).key.precedes(k),
        p < s.len() ==> !s[p].key.precedes(k),
    ensures
        slot(s, k) == p,
    decreases s.len(),
{
    if p > 0 {
        let rest = s.drop_first();
        assert(s[0].key.precedes(k));
        assert forall|j: int| 0 <= j < p - 1 implies (#[trigger] rest[j]).key.precedes(k) by {
            assert(rest[j] == s[j + 1]);
        }
        lemma_slot_is(rest, k, p - 1);
    }
}

/// Sorting puts the entries in order: no entry of the result stands after one
/// that it must precede.
pub proof fn lemma_stable_sorted_ordered<T>(s: Seq<Keyed<T>>)
    ensures
        stable_sorted(s).len() == s.len(),
        ordered(stable_sorted(s)),
    decreases s.len(),
{
    if s.len() > 0 {
        let rest = stable_sorted(s.drop_first());
        let k = s[0].key;
        let p = slot(rest, k);
        lemma_stable_sorted_ordered(s.drop_first());
        lemma_slot(rest, k);
        let out = rest.insert(p, s[0]);
        assert forall|i: int, j: int| 0 <= i < j < out.len() implies !(#[trigger] out[j]).key.precedes(
            (#[trigger] out[i]).key,
        ) by {
            if j < p {
                assert(out[i] == rest[i] && out[j] == rest[j]);
            } else if j == p {
                assert(out[i] == rest[i]);
                assert(rest[i].key.precedes(k));
            } else if i < p {
                assert(out[i] == rest[i] && out[j] == rest[j - 1]);
                assert(rest[i].key.precedes(k));
                if j - 1 > p {
                    assert(!rest[j - 1].key.precedes(rest[p].key));
                }
            } else if i == p {
                assert(out[j] == rest[j - 1]);
                if j - 1 > p {
                    assert(!rest[j - 1].key.precedes(rest[p].key));
                }
            } else {
                assert(out[i] == rest[i - 1] && out[j] == rest[j - 1]);
            }
        }
    }
}

/// Putting `x` where no earlier entry has its key adds `x` in front of the
/// entries with that key and leaves the entries with any other key alone.
pub proof fn lemma_with_key_insert<T>(s: Seq<Keyed<T>>, p: int, x: Keyed<T>, k: SortKey)
    requires
        0 <= p <= s.len(),
        forall|j: int| 0 <= j < p ==> (#[trigger] s[j]).key != x.key,
    ensures
        with_key(s.insert(p, x), k) == (if k == x.key {
            seq![x] + with_key(s, k)
        } else {
            with_key(s, k)
        }),
    decreases p,
{
    let t = s.insert(p, x);
    if p == 0 {
        assert(t.drop_first() =~= s);
    } else {
        let rest = s.drop_first();
        assert(t[0] == s[0]);
        assert(t.drop_first() =~= rest.insert(p - 1, x));
        assert forall|j: int| 0 <= j < p - 1 implies (#[trigger] rest[j]).key != x.key by {
            assert(rest[j] == s[j + 1]);
        }
        lemma_with_key_insert(rest, p - 1, x, k);
    }
}

/// Sorting is stable: for every key, the entries with that key stand in the
/// result in the order in which they stood before, and no entry is lost or
/// added.
pub proof fn lemma_stable_sorted_keeps_order<T>(s: Seq<Keyed<T>>, k: SortKey)
    ensures
        with_key(stable_sorted(s), k) == with_key(s, k),
    decreases s.len(),
{
    if s.len() > 0 {
        let rest = stable_sorted(s.drop_first());
        let p = slot(rest, s[0].key);
        lemma_stable_sorted_keeps_order(s.drop_first(), k);
        lemma_slot(rest, s[0].key);
        lemma_with_key_insert(rest, p, s[0], k);
    }
}

/// The entries with one key, counted.
pub proof fn lemma_with_key_len<T>(s: Seq<Keyed<T>>, k: SortKey)
    ensures
        with_key(s, k).len() <= s.len(),
        forall|i: int| 0 <= i < with_key(s, k).len() ==> (#[trigger] with_key(s, k)[i]).key == k,
    decreases s.len(),
{
    if s.len() > 0 {
        lemma_with_key_len(s.drop_first(), k);
    }
}

/// Sorting rearranges and nothing else: the result holds the same entries,
/// and the same items, each as often as before.
pub proof fn lemma_stable_sorted_permutes<T>(s: Seq<Keyed<T>>)
    ensures
        stable_sorted(s).to_multiset() == s.to_multiset(),
        items_of(stable_sorted(s)).to_multiset() == items_of(s).to_multiset(),
    decreases s.len(),
{
    if s.len() > 0 {
        let rest = s.drop_first();
        let sorted_rest = stable_sorted(rest);
        let place = slot(sorted_rest, s[0].key);
        lemma_stable_sorted_permutes(rest);
        lemma_slot(sorted_rest, s[0].key);
        vstd::seq_lib::to_multiset_insert(sorted_rest, place, s[0]);
        vstd::seq_lib::to_multiset_insert(rest, 0, s[0]);
        assert(rest.insert(0, s[0]) =~= s);
        vstd::seq_lib::to_multiset_insert(items_of(sorted_rest), place, s[0].item);
        vstd::seq_lib::to_multiset_insert(items_of(rest), 0, s[0].item);
        assert(items_of(sorted_rest).insert(place, s[0].item) =~= items_of(stable_sorted(s)));
        assert(items_of(rest).insert(0, s[0].item) =~= items_of(s));
    }
}

/// Two entries with the key `k` are both among the entries with that key.
pub proof fn lemma_with_key_two<T>(s: Seq<Keyed<T>>, k: SortKey, i: int, j: int)
    requires
        0 <= i < j < s.len(),
        s[i].key == k,
        s[j].key == k,
    ensures
        with_key(s, k).len() >= 2,
    decreases s.len(),
{
    let rest = s.drop_first();
    assert(rest[j - 1] == s[j]);
    if i == 0 {
        lemma_with_key_one(rest, k, j - 1);
    } else {
        assert(rest[i - 1] == s[i]);
        lemma_with_key_two(rest, k, i - 1, j - 1);
    }
}

/// An entry with the key `k` is among the entries with that key.
pub proof fn lemma_with_key_one<T>(s: Seq<Keyed<T>>, k: SortKey, i: int)
    requires
        0 <= i < s.len(),
        s[i].key == k,
    ensures
        with_key(s, k).len() >= 1,
    decreases s.len(),
{
    if i > 0 {
        let rest = s.drop_first();
        assert(rest[i - 1] == s[i]);
        lemma_with_key_one(rest, k, i - 1);
    }
}

/// Where no two entries have the key `k`, at most one entry has it.
pub proof fn lemma_with_key_at_most_one<T>(s: Seq<Keyed<T>>, k: SortKey)
    requires
        forall|i: int, j: int|
            0 <= i < j < s.len() ==> !((#[trigger] s[i]).key == k && (#[trigger] s[j]).key == k),
    ensures
        with_key(s, k).len() <= 1,
    decreases s.len(),
{
    if s.len() > 0 {
        let rest = s.drop_first();
        assert forall|i: int, j: int| 0 <= i < j < rest.len() implies !((#[trigger] rest[i]).key
            == k && (#[trigger] rest[j]).key == k) by {
            assert(rest[i] == s[i + 1] && rest[j] == s[j + 1]);
        }
        lemma_with_key_at_most_one(rest, k);
        if s[0].key == k {
            if with_key(rest, k).len() > 0 {
                lemma_with_key_len(rest, k);
                lemma_with_key_from(rest, k, 0);
                let m = choose|m: int| 0 <= m < rest.len() && rest[m] == with_key(rest, k)[0];
                assert(s[m + 1] == rest[m]);
                assert(s[0].key == k && s[m + 1].key == k);
            }
        }
    }
}

/// Every entry among those with the key `k` is an entry of the list.
pub proof fn lemma_with_key_from<T>(s: Seq<Keyed<T>>, k: SortKey, n: int)
    requires
        0 <= n < with_key(s, k).len(),
    ensures
        exists|m: int| 0 <= m < s.len() && s[m] == with_key(s, k)[n],
    decreases s.len(),
{
    if s.len() > 0 {
        let rest = s.drop_first();
        if s[0].key == k && n == 0 {
            assert(s[0] == with_key(s, k)[0]);
        } else {
            let n1 = if s[0].key == k {
                n - 1
            } else {
                n
            };
            lemma_with_key_from(rest, k, n1);
            let m = choose|m: int| 0 <= m < rest.len() && rest[m] == with_key(rest, k)[n1];
            assert(s[m + 1] == with_key(s, k)[n]);
        }
    }
}

/// Two lists in order whose entries with each key are the same, in the
/// same order, are the same list.
pub proof fn lemma_ordered_lists_equal<T>(a: Seq<Keyed<T>>, b: Seq<Keyed<T>>)
    requires
        ordered(a),
        ordered(b),
        forall|k: SortKey| with_key(a, k) == with_key(b, k),
    ensures
        a == b,
    decreases a.len(),
{
    if a.len() == 0 {
        if b.len() > 0 {
            lemma_with_key_one(b, b[0].key, 0);
            assert(with_key(a, b[0].key).len() == 0);
        }
        assert(a =~= b);
    } else {
        let k0 = a[0].key;
        lemma_with_key_one(a, k0, 0);
        lemma_with_key_len(b, k0);
        assert(with_key(b, k0).len() >= 1);
        let k1 = b[0].key;
        if k1 != k0 {
            lemma_with_key_one(b, k1, 0);
            lemma_with_key_len(a, k1);
            lemma_with_key_from(a, k1, 0);
            let j = choose|j: int| 0 <= j < a.len() && a[j] == with_key(a, k1)[0];
            assert(a[j].key == k1);
            assert(!a[j].key.precedes(a[0].key));
            lemma_with_key_from(b, k0, 0);
            let m = choose|m: int| 0 <= m < b.len() && b[m] == with_key(b, k0)[0];
            assert(b[m].key == k0);
            assert(!b[m].key.precedes(b[0].key));
            assert(false);
        }
        assert(with_key(a, k0)[0] == a[0]);
        assert(with_key(b, k0)[0] == b[0]);
        let a1 = a.drop_first();
        let b1 = b.drop_first();
        assert(ordered(a1)) by {
            assert forall|i: int, j: int| 0 <= i < j < a1.len() implies !(#[trigger] a1[j]).key.precedes(
                (#[trigger] a1[i]).key,
            ) by {
                assert(a1[i] == a[i + 1] && a1[j] == a[j + 1]);
            }
        }
        assert(ordered(b1)) by {
            assert forall|i: int, j: int| 0 <= i < j < b1.len() implies !(#[trigger] b1[j]).key.precedes(
                (#[trigger] b1[i]).key,
            ) by {
                assert(b1[i] == b[i + 1] && b1[j] == b[j + 1]);
            }
        }
        assert forall|k: SortKey| with_key(a1, k) == with_key(b1, k) by {
            assert(with_key(a, k) == with_key(b, k));
            if k == k0 {
                assert(with_key(a1, k) =~= with_key(a, k).drop_first());
                assert(with_key(b1, k) =~= with_key(b, k).drop_first());
            }
        }
        lemma_ordered_lists_equal(a1, b1);
        assert(with_key(a, k0) == with_key(b, k0));
        assert(a[0] == b[0]);
        assert(a =~= seq![a[0]] + a1);
        assert(b =~= seq![b[0]] + b1);
    }
}

/// The contract of the sort leaves no choice: a list in order that keeps,
/// for every key, the entries with that key in their order is the sorted
/// list.
pub proof fn lemma_stable_sorted_unique<T>(s: Seq<Keyed<T>>, a: Seq<Keyed<T>>)
    requires
        ordered(a),
        forall|k: SortKey| with_key(a, k) == with_key(s, k),
    ensures
        a == stable_sorted(s),
{
    lemma_stable_sorted_ordered(s);
    assert forall|k: SortKey| with_key(a, k) == with_key(stable_sorted(s), k) by {
        lemma_stable_sorted_keeps_order(s, k);
    }
    lemma_ordered_lists_equal(a, stable_sorted(s));
}

/// Sorting a list that is in order changes nothing.
pub proof fn lemma_sorted_stays<T>(s: Seq<Keyed<T>>)
    requires
        ordered(s),
    ensures
        stable_sorted(s) == s,
{
    lemma_stable_sorted_unique(s, s);
}

/// The same entries with every item replaced by its image under `f`.
pub open spec fn relabel<T, U>(s: Seq<Keyed<T>>, f: spec_fn(T) -> U) -> Seq<Keyed<U>> {
    s.map_values(|e: Keyed<T>| Keyed { key: e.key, item: f(e.item) })
}

proof fn lemma_slot_relabel<T, U>(s: Seq<Keyed<T>>, f: spec_fn(T) -> U, k: SortKey)
    ensures
        slot(relabel(s, f), k) == slot(s, k),
    decreases s.len(),
{
    if s.len() == 0 || !s[0].key.precedes(k) {
    } else {
        assert(relabel(s, f).drop_first() =~= relabel(s.drop_first(), f));
        lemma_slot_relabel(s.drop_first(), f, k);
    }
}

/// Sorting looks at the keys only: replacing the items before or after the
/// sort gives the same list.
pub proof fn lemma_stable_sorted_relabel<T, U>(s: Seq<Keyed<T>>, f: spec_fn(T) -> U)
    ensures
        stable_sorted(relabel(s, f)) == relabel(stable_sorted(s), f),
    decreases s.len(),
{
    if s.len() == 0 {
        assert(stable_sorted(relabel(s, f)) =~= relabel(stable_sorted(s), f));
    } else {
        let rest = stable_sorted(s.drop_first());
        let k = s[0].key;
        assert(relabel(s, f).drop_first() =~= relabel(s.drop_first(), f));
        lemma_stable_sorted_relabel(s.drop_first(), f);
        lemma_slot_relabel(rest, f, k);
        lemma_slot(rest, k);
        assert(relabel(rest, f).insert(slot(rest, k), relabel(s, f)[0]) =~= relabel(
            rest.insert(slot(rest, k), s[0]),
            f,
        ));
    }
}

/// Sorts the entries by key. Entries with equal keys keep their order.
pub fn stable_sort<T>(entries: Vec<Keyed<T>>) -> (sorted: Vec<Keyed<T>>)
    ensures
        sorted@ == stable_sorted(entries@),
        sorted.len() == entries.len(),
        ordered(sorted@),
        forall|k: SortKey| with_key(sorted@, k) == with_key(entries@, k),
{
    let ghost all = entries@;
    let mut pending = entries;
    let mut sorted: Vec<Keyed<T>> = Vec::new();
    assert(all.subrange(all.len() as int, all.len() as int) =~= Seq::<Keyed<T>>::empty());
    while pending.len() > 0
        invariant
            pending.len() <= all.len(),
            pending@ == all.subrange(0, pending.len() as int),
            sorted@ == stable_sorted(all.subrange(pending.len() as int, all.len() as int)),
        decreases pending.len(),
    {
        let ghost done = all.subrange(pending.len() as int, all.len() as int);
        let entry = pending.pop().unwrap();
        let ghost next = all.subrange(pending.len() as int, all.len() as int);
        proof {
            assert(next[0] == entry);
            assert(next.drop_first() =~= done);
            lemma_stable_sorted_ordered(done);
        }
        let mut place: usize = 0;
        while place < sorted.len() && sorted[place].key.is_before(&entry.key)
            invariant
                place <= sorted.len(),
                forall|j: int| 0 <= j < place ==> (#[trigger] sorted[j]).key.precedes(entry.key),
            decreases sorted.len() - place,
        {
            place += 1;
        }
        proof {
            lemma_slot_is(sorted@, entry.key, place as int);
        }
        sorted.insert(place, entry);
        assert(pending@ =~= all.subrange(0, pending.len() as int));
    }
    proof {
        assert(all.subrange(0, all.len() as int) =~= all);
        lemma_stable_sorted_ordered(all);
        assert forall|k: SortKey| with_key(sorted@, k) == with_key(entries@, k) by {
            lemma_stable_sorted_keeps_order(all, k);
        }
    }
    sorted
}

/// What holds of every entry before the sort holds of every entry after it.
pub proof fn lemma_stable_sorted_all<T>(s: Seq<Keyed<T>>, holds: spec_fn(Keyed<T>) -> bool)
    requires
        forall|i: int| 0 <= i < s.len() ==> holds(#[trigger] s[i]),
    ensures
        forall|i: int| 0 <= i < stable_sorted(s).len() ==> holds(#[trigger] stable_sorted(s)[i]),
    decreases s.len(),
{
    if s.len() > 0 {
        let rest = s.drop_first();
        assert forall|i: int| 0 <= i < rest.len() implies holds(#[trigger] rest[i]) by {
            assert(rest[i] == s[i + 1]);
        }
        lemma_stable_sorted_all(rest, holds);
        lemma_slot(stable_sorted(rest), s[0].key);
        lemma_stable_sorted_ordered(rest);
    }
}

/// The same items in the opposite order.
pub fn reversed<T>(items: Vec<T>) -> (turned: Vec<T>)
    ensures
        turned@ == items@.reverse(),
{
    let ghost all = items@;
    let mut items = items;
    let mut turned: Vec<T> = Vec::new();
    while items.len() > 0
        invariant
            items.len() + turned.len() == all.len(),
            items@ == all.subrange(0, items.len() as int),
            forall|j: int| 0 <= j < turned.len() ==> turned[j] == all[all.len() - 1 - j],
        decreases items.len(),
    {
        let item = items.pop().unwrap();
        turned.push(item);
        assert(items@ =~= all.subrange(0, items.len() as int));
    }
    assert(turned@ =~= all.reverse());
    turned
}

/// Drops the keys and keeps the items, in order.
pub fn strip_keys<T>(entries: Vec<Keyed<T>>) -> (items: Vec<T>)
    ensures
        items@ == items_of(entries@),
{
    let ghost all = entries@;
    let mut pending = reversed(entries);
    let mut items: Vec<T> = Vec::new();
    while pending.len() > 0
        invariant
            pending.len() + items.len() == all.len(),
            pending@ == all.reverse().subrange(0, pending.len() as int),
            forall|j: int| 0 <= j < items.len() ==> items[j] == all[j].item,
        decreases pending.len(),
    {
        let entry = pending.pop().unwrap();
        items.push(entry.item);
        assert(pending@ =~= all.reverse().subrange(0, pending.len() as int));
    }
    assert(items@ =~= items_of(all));
    items
}

} // verus!
