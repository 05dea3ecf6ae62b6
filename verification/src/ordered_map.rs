//! A map from text keys to values that keeps its entries in the order of
//! their keys, so that walking it gives the same sequence on every run.

use vstd::prelude::*;

use crate::text::{
    lemma_precedes_irreflexive, lemma_precedes_total, lemma_precedes_transitive, precedes,
    text_eq, text_lt,
};

verus! {

/// Whether the keys of the entries increase strictly from each entry to the
/// next, so that no key occurs twice.
pub open spec fn ordered<V>(s: Seq<(Seq<char>, V)>) -> bool {
    forall|i: int, j: int| 0 <= i < j < s.len() ==> precedes(#[trigger] s[i].0, #[trigger] s[j].0)
}

/// Whether an entry of the list has the given key.
pub open spec fn has_key<V>(s: Seq<(Seq<char>, V)>, key: Seq<char>) -> bool {
    exists|i: int| 0 <= i < s.len() && #[trigger] s[i].0 == key
}

/// The value that stands under `key`, where an entry has that key.
pub open spec fn lookup<V>(s: Seq<(Seq<char>, V)>, key: Seq<char>) -> Option<V> {
    if has_key(s, key) {
        Some(s[choose|i: int| 0 <= i < s.len() && #[trigger] s[i].0 == key].1)
    } else {
        None
    }
}

/// The test that an entry's key stands before `key`.
pub open spec fn key_below<V>(key: Seq<char>) -> spec_fn((Seq<char>, V)) -> bool {
    |e: (Seq<char>, V)| precedes(e.0, key)
}

/// The test that an entry's key stands after `key`.
pub open spec fn key_above<V>(key: Seq<char>) -> spec_fn((Seq<char>, V)) -> bool {
    |e: (Seq<char>, V)| precedes(key, e.0)
}

/// The list with `value` under `key`: the entries whose keys stand before
/// `key`, then the new entry, then the entries whose keys stand after it. An
/// entry that had the key is gone.
pub open spec fn upsert<V>(s: Seq<(Seq<char>, V)>, key: Seq<char>, value: V) -> Seq<
    (Seq<char>, V),
> {
    s.filter(key_below(key)).push((key, value)) + s.filter(key_above(key))
}

/// The first list with every entry of the second put into it, one after the
/// other in the order of the second.
pub open spec fn merged<V>(s: Seq<(Seq<char>, V)>, more: Seq<(Seq<char>, V)>) -> Seq<
    (Seq<char>, V),
>
    decreases more.len(),
{
    if more.len() == 0 {
        s
    } else {
        upsert(merged(s, more.drop_last()), more.last().0, more.last().1)
    }
}

/// Where a test holds of the first `p` items of a list and of no other, the
/// items that pass it are those first `p`.
proof fn lemma_filter_front<A>(s: Seq<A>, pred: spec_fn(A) -> bool, p: int)
    requires
        0 <= p <= s.len(),
        forall|i: int| 0 <= i < p ==> pred(#[trigger] s[i]),
        forall|i: int| p <= i < s.len() ==> !pred(#[trigger] s[i]),
    ensures
        s.filter(pred) == s.take(p),
    decreases s.len(),
{
    reveal(Seq::filter);
    if s.len() > 0 {
        let rest = s.drop_last();
        if p == s.len() {
            lemma_filter_front(rest, pred, p - 1);
            assert(rest.take(p - 1) == rest);
            assert(rest.push(s.last()) == s);
            assert(s.take(p) == s);
        } else {
            lemma_filter_front(rest, pred, p);
            assert(rest.take(p) == s.take(p));
        }
    } else {
        assert(s.take(p) == s);
    }
}

/// Where a test fails on the first `p` items of a list and holds of all
/// others, the items that pass it are those from place `p` on.
proof fn lemma_filter_back<A>(s: Seq<A>, pred: spec_fn(A) -> bool, p: int)
    requires
        0 <= p <= s.len(),
        forall|i: int| 0 <= i < p ==> !pred(#[trigger] s[i]),
        forall|i: int| p <= i < s.len() ==> pred(#[trigger] s[i]),
    ensures
        s.filter(pred) == s.skip(p),
    decreases s.len(),
{
    reveal(Seq::filter);
    if s.len() > 0 {
        let rest = s.drop_last();
        if p == s.len() {
            lemma_filter_back(rest, pred, p - 1);
            assert(rest.skip(p - 1) == Seq::<A>::empty());
            assert(s.skip(p) == Seq::<A>::empty());
        } else {
            lemma_filter_back(rest, pred, p);
            assert(rest.skip(p).push(s.last()) == s.skip(p));
        }
    } else {
        assert(s.skip(p) == s);
    }
}

/// Whether `p` is the place of `key` in an ordered list: the keys before it
/// stand before `key`, and the key at it, if there is one, does not.
pub open spec fn is_place<V>(s: Seq<(Seq<char>, V)>, key: Seq<char>, p: int) -> bool {
    &&& 0 <= p <= s.len()
    &&& forall|i: int| 0 <= i < p ==> precedes(#[trigger] s[i].0, key)
    &&& p < s.len() ==> !precedes(s[p].0, key)
}

/// In an ordered list the entry that has a key stands at the place of that
/// key.
pub proof fn lemma_place_of_key<V>(s: Seq<(Seq<char>, V)>, key: Seq<char>, p: int, i: int)
    requires
        ordered(s),
        is_place(s, key, p),
        0 <= i < s.len(),
        s[i].0 == key,
    ensures
        i == p,
{
    lemma_precedes_irreflexive(key);
    if i > p {
        lemma_precedes_total(s[p].0, key);
    }
}

/// Every ordered list has a place for every key.
pub proof fn lemma_place_exists<V>(s: Seq<(Seq<char>, V)>, key: Seq<char>) -> (p: int)
    requires
        ordered(s),
    ensures
        is_place(s, key, p),
    decreases s.len(),
{
    if s.len() == 0 {
        0
    } else if precedes(s.last().0, key) {
        assert forall|i: int| 0 <= i < s.len() implies precedes(#[trigger] s[i].0, key) by {
            if i < s.len() - 1 {
                lemma_precedes_transitive(s[i].0, s.last().0, key);
            }
        }
        s.len() as int
    } else {
        let rest = s.drop_last();
        assert(ordered(rest)) by {
            assert forall|i: int, j: int| 0 <= i < j < rest.len() implies precedes(
                #[trigger] rest[i].0,
                #[trigger] rest[j].0,
            ) by {
                assert(rest[i] == s[i] && rest[j] == s[j]);
            }
        }
        let p = lemma_place_exists(rest, key);
        assert forall|i: int| 0 <= i < p implies precedes(#[trigger] s[i].0, key) by {
            assert(rest[i] == s[i]);
        }
        if p < rest.len() {
            assert(rest[p] == s[p]);
        }
        p
    }
}

/// Putting a value under a key keeps an ordered list ordered.
pub proof fn lemma_upsert_ordered<V>(s: Seq<(Seq<char>, V)>, key: Seq<char>, value: V)
    requires
        ordered(s),
    ensures
        ordered(upsert(s, key, value)),
{
    let p = lemma_place_exists(s, key);
    lemma_upsert_at(s, key, value, p);
    let r = upsert(s, key, value);
    let hit = p < s.len() && s[p].0 == key;
    assert forall|i: int| p <= i < s.len() && !(hit && i == p) implies precedes(
        key,
        #[trigger] s[i].0,
    ) by {
        lemma_precedes_total(s[p].0, key);
        if i > p {
            if hit {
            } else {
                lemma_precedes_transitive(key, s[p].0, s[i].0);
            }
        }
    }
    assert forall|i: int, j: int| 0 <= i < j < r.len() implies precedes(
        #[trigger] r[i].0,
        #[trigger] r[j].0,
    ) by {
        if hit {
            assert(r[i].0 == s[i].0 && r[j].0 == s[j].0);
        } else {
            if j < p {
                assert(r[i] == s[i] && r[j] == s[j]);
            } else if j == p {
                assert(r[i] == s[i]);
            } else if i < p {
                assert(r[i] == s[i] && r[j] == s[j - 1]);
            } else if i == p {
                assert(r[j] == s[j - 1]);
            } else {
                assert(r[i] == s[i - 1] && r[j] == s[j - 1]);
            }
        }
    }
}

/// In an ordered list, `upsert` puts the new entry at the place of its key:
/// in place of the entry that has the key, or between its neighbours.
pub proof fn lemma_upsert_at<V>(s: Seq<(Seq<char>, V)>, key: Seq<char>, value: V, p: int)
    requires
        ordered(s),
        is_place(s, key, p),
    ensures
        p < s.len() && s[p].0 == key ==> upsert(s, key, value) == s.update(p, (key, value)),
        !(p < s.len() && s[p].0 == key) ==> upsert(s, key, value) == s.insert(p, (key, value)),
        has_key(s, key) <==> p < s.len() && s[p].0 == key,
        p < s.len() && s[p].0 == key ==> lookup(s, key) == Some(s[p].1),
{
    let hit = p < s.len() && s[p].0 == key;
    let q = if hit { p + 1 } else { p };
    assert forall|i: int| p <= i < s.len() implies !precedes(#[trigger] s[i].0, key) by {
        if i > p && precedes(s[i].0, key) {
            lemma_precedes_transitive(s[p].0, s[i].0, key);
        }
    }
    assert forall|i: int| 0 <= i < s.len() implies (precedes(key, #[trigger] s[i].0) <==> q <= i) by {
        lemma_precedes_total(s[i].0, key);
        if i > p {
            lemma_precedes_total(s[p].0, key);
            if !hit {
                lemma_precedes_transitive(key, s[p].0, s[i].0);
            }
        }
    }
    assert forall|i: int| 0 <= i < s.len() && s[i].0 == key implies i == p by {
        lemma_precedes_irreflexive(key);
    }
    assert forall|i: int| 0 <= i < p implies key_below::<V>(key)(#[trigger] s[i]) by {}
    assert forall|i: int| p <= i < s.len() implies !key_below::<V>(key)(#[trigger] s[i]) by {}
    assert forall|i: int| 0 <= i < q implies !key_above::<V>(key)(#[trigger] s[i]) by {}
    assert forall|i: int| q <= i < s.len() implies key_above::<V>(key)(#[trigger] s[i]) by {}
    lemma_filter_front(s, key_below(key), p);
    lemma_filter_back(s, key_above(key), q);
    if hit {
        assert(s.take(p).push((key, value)) + s.skip(q) =~= s.update(p, (key, value)));
    } else {
        assert(s.take(p).push((key, value)) + s.skip(q) =~= s.insert(p, (key, value)));
    }
}

/// In an ordered list each entry is the one found under its key.
pub proof fn lemma_lookup_at<V>(s: Seq<(Seq<char>, V)>, i: int)
    requires
        ordered(s),
        0 <= i < s.len(),
    ensures
        has_key(s, s[i].0),
        lookup(s, s[i].0) == Some(s[i].1),
{
    let key = s[i].0;
    let j = choose|j: int| 0 <= j < s.len() && #[trigger] s[j].0 == key;
    lemma_precedes_irreflexive(key);
    if j < i {
        assert(precedes(s[j].0, s[i].0));
    } else if i < j {
        assert(precedes(s[i].0, s[j].0));
    }
}

/// After a value was put under a key of an ordered list, that key leads to
/// the value, and every other key to what it led to before.
pub proof fn lemma_lookup_upsert<V>(
    s: Seq<(Seq<char>, V)>,
    key: Seq<char>,
    value: V,
    other: Seq<char>,
)
    requires
        ordered(s),
    ensures
        lookup(upsert(s, key, value), other) == if other == key {
            Some(value)
        } else {
            lookup(s, other)
        },
{
    let p = lemma_place_exists(s, key);
    lemma_upsert_at(s, key, value, p);
    lemma_upsert_ordered(s, key, value);
    let r = upsert(s, key, value);
    let hit = p < s.len() && s[p].0 == key;
    if other == key {
        assert(r[p] == (key, value));
        lemma_lookup_at(r, p);
    } else if has_key(s, other) {
        let i = choose|i: int| 0 <= i < s.len() && #[trigger] s[i].0 == other;
        lemma_lookup_at(s, i);
        let k = if hit || i < p {
            i
        } else {
            i + 1
        };
        assert(r[k] == s[i]);
        lemma_lookup_at(r, k);
    } else if has_key(r, other) {
        let k = choose|k: int| 0 <= k < r.len() && #[trigger] r[k].0 == other;
        let i = if hit || k < p {
            k
        } else {
            k - 1
        };
        assert(r[k] == s[i]);
        assert(s[i].0 == other);
    }
}

/// Putting every entry of an ordered list into an empty one gives the list
/// back.
pub proof fn lemma_merged_into_empty<V>(more: Seq<(Seq<char>, V)>)
    requires
        ordered(more),
    ensures
        merged(Seq::empty(), more) == more,
    decreases more.len(),
{
    if more.len() > 0 {
        let rest = more.drop_last();
        assert(ordered(rest)) by {
            assert forall|i: int, j: int| 0 <= i < j < rest.len() implies precedes(
                #[trigger] rest[i].0,
                #[trigger] rest[j].0,
            ) by {
                assert(rest[i] == more[i] && rest[j] == more[j]);
            }
        }
        lemma_merged_into_empty(rest);
        assert forall|i: int| 0 <= i < rest.len() implies precedes(
            #[trigger] rest[i].0,
            more.last().0,
        ) by {
            assert(rest[i] == more[i]);
        }
        lemma_upsert_at(rest, more.last().0, more.last().1, rest.len() as int);
        assert(rest.insert(rest.len() as int, more.last()) =~= more);
    } else {
        assert(more =~= Seq::empty());
    }
}

/// Putting every entry of one ordered list into another keeps that one
/// ordered.
pub proof fn lemma_merged_ordered<V>(s: Seq<(Seq<char>, V)>, more: Seq<(Seq<char>, V)>)
    requires
        ordered(s),
    ensures
        ordered(merged(s, more)),
    decreases more.len(),
{
    if more.len() > 0 {
        lemma_merged_ordered(s, more.drop_last());
        lemma_upsert_ordered(merged(s, more.drop_last()), more.last().0, more.last().1);
    }
}

/// After every entry of one ordered list was put into another, a key of the
/// first leads to its value there, and every other key to what it led to in
/// the second.
pub proof fn lemma_lookup_merged<V>(
    s: Seq<(Seq<char>, V)>,
    more: Seq<(Seq<char>, V)>,
    key: Seq<char>,
)
    requires
        ordered(s),
        ordered(more),
    ensures
        lookup(merged(s, more), key) == if has_key(more, key) {
            lookup(more, key)
        } else {
            lookup(s, key)
        },
    decreases more.len(),
{
    if more.len() > 0 {
        let rest = more.drop_last();
        let last = more.last();
        assert(ordered(rest)) by {
            assert forall|i: int, j: int| 0 <= i < j < rest.len() implies precedes(
                #[trigger] rest[i].0,
                #[trigger] rest[j].0,
            ) by {
                assert(rest[i] == more[i] && rest[j] == more[j]);
            }
        }
        lemma_lookup_merged(s, rest, key);
        lemma_merged_ordered(s, rest);
        lemma_lookup_upsert(merged(s, rest), last.0, last.1, key);
        if key == last.0 {
            lemma_lookup_at(more, more.len() - 1);
        } else if has_key(rest, key) {
            let i = choose|i: int| 0 <= i < rest.len() && #[trigger] rest[i].0 == key;
            lemma_lookup_at(rest, i);
            assert(more[i] == rest[i]);
            lemma_lookup_at(more, i);
        } else if has_key(more, key) {
            let i = choose|i: int| 0 <= i < more.len() && #[trigger] more[i].0 == key;
            assert(rest[i] == more[i]);
        }
    }
}

/// The entries of a list, each key as its characters and each value as its
/// view.
spec fn entries_view<V: View>(entries: Seq<(String, V)>) -> Seq<(Seq<char>, V::V)> {
    Seq::new(entries.len(), |i: int| (entries[i].0@, entries[i].1@))
}

/// A map from text keys to values, its entries kept in the order of their
/// keys.
#[derive(Debug, Clone, PartialEq, Eq)]
pub struct OrderedMap<V> {
    entries: Vec<(String, V)>,
}

impl<V: View> View for OrderedMap<V> {
    type V = Seq<(Seq<char>, V::V)>;

    /// The entries in the order of their keys: each key as its characters,
    /// each value as its view.
    closed spec fn view(&self) -> Seq<(Seq<char>, V::V)> {
        entries_view(self.entries@)
    }
}

impl<V: View> OrderedMap<V> {
    /// Whether the map is well formed: its entries are ordered by key.
    pub open spec fn wf(&self) -> bool {
        ordered(self@)
    }

    /// A map without entries.
    pub fn new() -> (r: Self)
        ensures
            r.wf(),
            r@ == Seq::<(Seq<char>, V::V)>::empty(),
    {
        let r = OrderedMap { entries: Vec::new() };
        assert(r@ =~= Seq::empty());
        r
    }

    /// The number of entries.
    pub fn len(&self) -> (r: usize)
        ensures
            r == self@.len(),
    {
        self.entries.len()
    }

    /// The place of `key` among the entries, and whether the entry at that
    /// place has the key.
    fn find(&self, key: &str) -> (r: (usize, bool))
        requires
            self.wf(),
        ensures
            is_place(self@, key@, r.0 as int),
            r.1 <==> r.0 < self@.len() && self@[r.0 as int].0 == key@,
    {
        let mut lo: usize = 0;
        let mut hi: usize = self.entries.len();
        while lo < hi
            invariant
                self.wf(),
                lo <= hi <= self@.len(),
                self@.len() == self.entries@.len(),
                forall|i: int| 0 <= i < lo ==> precedes(#[trigger] self@[i].0, key@),
                forall|i: int| hi <= i < self@.len() ==> !precedes(#[trigger] self@[i].0, key@),
            decreases hi - lo,
        {
            let mid: usize = lo + (hi - lo) / 2;
            if text_lt(self.entries[mid].0.as_str(), key) {
                proof {
                    assert forall|i: int| 0 <= i < mid + 1 implies precedes(
                        #[trigger] self@[i].0,
                        key@,
                    ) by {
                        if i < mid {
                            lemma_precedes_transitive(self@[i].0, self@[mid as int].0, key@);
                        }
                    }
                }
                lo = mid + 1;
            } else {
                proof {
                    assert forall|i: int| mid <= i < self@.len() implies !precedes(
                        #[trigger] self@[i].0,
                        key@,
                    ) by {
                        if i > mid && precedes(self@[i].0, key@) {
                            lemma_precedes_transitive(self@[mid as int].0, self@[i].0, key@);
                        }
                    }
                }
                hi = mid;
            }
        }
        let found = lo < self.entries.len() && text_eq(self.entries[lo].0.as_str(), key);
        (lo, found)
    }

    /// Whether an entry has the given key.
    pub fn contains_key(&self, key: &str) -> (r: bool)
        requires
            self.wf(),
        ensures
            r == has_key(self@, key@),
    {
        let (place, found) = self.find(key);
        proof {
            if found {
                assert(self@[place as int].0 == key@);
            } else if has_key(self@, key@) {
                let i = choose|i: int| 0 <= i < self@.len() && #[trigger] self@[i].0 == key@;
                lemma_place_of_key(self@, key@, place as int, i);
            }
        }
        found
    }

    /// The value under `key`, where an entry has that key.
    pub fn get(&self, key: &str) -> (r: Option<&V>)
        requires
            self.wf(),
        ensures
            match r {
                Some(v) => lookup(self@, key@) == Some(v@),
                None => lookup(self@, key@) is None,
            },
    {
        let (place, found) = self.find(key);
        proof {
            if found {
                lemma_upsert_at(self@, key@, self@[place as int].1, place as int);
            } else if has_key(self@, key@) {
                let i = choose|i: int| 0 <= i < self@.len() && #[trigger] self@[i].0 == key@;
                lemma_place_of_key(self@, key@, place as int, i);
            }
        }
        if found {
            Some(&self.entries[place].1)
        } else {
            None
        }
    }

    /// The value under `key` to change in place, where an entry has that
    /// key; the map then holds the changed value under the same key.
    pub fn get_mut(&mut self, key: &str) -> (r: Option<&mut V>)
        requires
            old(self).wf(),
        ensures
            match r {
                Some(v) => lookup(old(self)@, key@) == Some(v@) && final(self)@ == upsert(
                    old(self)@,
                    key@,
                    final(v)@,
                ) && final(self).wf(),
                None => lookup(old(self)@, key@) is None && final(self)@ == old(self)@
                    && final(self).wf(),
            },
    {
        let (place, found) = self.find(key);
        proof {
            if found {
                lemma_upsert_at(self@, key@, self@[place as int].1, place as int);
                assert forall|x: V|
                    #[trigger] entries_view(
                        self.entries@.update(place as int, (self.entries@[place as int].0, x)),
                    ) == self@.update(place as int, (key@, x@)) by {
                    assert(entries_view(
                        self.entries@.update(place as int, (self.entries@[place as int].0, x)),
                    ) =~= self@.update(place as int, (key@, x@)));
                }
                assert forall|x: V::V|
                    #[trigger] upsert(self@, key@, x) == self@.update(place as int, (key@, x))
                        && ordered(upsert(self@, key@, x)) by {
                    lemma_upsert_at(self@, key@, x, place as int);
                    lemma_upsert_ordered(self@, key@, x);
                }
            } else if has_key(self@, key@) {
                let i = choose|i: int| 0 <= i < self@.len() && #[trigger] self@[i].0 == key@;
                lemma_place_of_key(self@, key@, place as int, i);
            }
        }
        if found {
            Some(&mut self.entries[place].1)
        } else {
            None
        }
    }

    /// The key and the value at place `i` in the order of the keys.
    pub fn entry(&self, i: usize) -> (r: (&str, &V))
        requires
            i < self@.len(),
        ensures
            (r.0@, r.1@) == self@[i as int],
    {
        (self.entries[i].0.as_str(), &self.entries[i].1)
    }

    /// Puts `value` under `key`, in place of the value that stood there if
    /// there was one.
    pub fn insert(&mut self, key: String, value: V)
        requires
            old(self).wf(),
        ensures
            final(self).wf(),
            final(self)@ == upsert(old(self)@, key@, value@),
    {
        let (place, found) = self.find(key.as_str());
        proof {
            lemma_upsert_at(self@, key@, value@, place as int);
            lemma_upsert_ordered(self@, key@, value@);
        }
        if found {
            self.entries[place] = (key, value);
            assert(self@ =~= old(self)@.update(place as int, (key@, value@)));
        } else {
            self.entries.insert(place, (key, value));
            assert(self@ =~= old(self)@.insert(place as int, (key@, value@)));
        }
    }
}

} // verus!
