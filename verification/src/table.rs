//! A map from text keys to values, kept as rows in ascending key order.
//!
//! The rows are what a walk over an ordered map would yield: no key occurs
//! twice, and a smaller key always comes first.

use vstd::prelude::*;
use crate::order::{text_lt, compare_text, Place, lemma_text_lt_transitive, lemma_text_lt_asymmetric, lemma_text_lt_irreflexive, lemma_text_lt_total};

verus! {

/// The keys stand in strictly ascending order.
pub open spec fn ascending(keys: Seq<Seq<char>>) -> bool {
    forall|i: int, j: int| 0 <= i < j < keys.len() ==> text_lt(#[trigger] keys[i], #[trigger] keys[j])
}

/// The number of leading keys that are below `key`: the place where `key`
/// stands, or would stand, among ascending keys.
pub open spec fn slot(keys: Seq<Seq<char>>, key: Seq<char>) -> int
    decreases keys.len(),
{
    if keys.len() == 0 {
        0
    } else if text_lt(keys.last(), key) {
        keys.len() as int
    } else {
        slot(keys.drop_last(), key)
    }
}

/// Whether `key` is one of the ascending `keys`.
pub open spec fn has_key(keys: Seq<Seq<char>>, key: Seq<char>) -> bool {
    let p = slot(keys, key);
    p < keys.len() && keys[p] == key
}

/// What `slot` means for ascending keys.
pub proof fn lemma_slot_bounds(keys: Seq<Seq<char>>, key: Seq<char>)
    requires
        ascending(keys),
    ensures
        0 <= slot(keys, key) <= keys.len(),
        forall|i: int| 0 <= i < slot(keys, key) ==> text_lt(#[trigger] keys[i], key),
        forall|i: int| slot(keys, key) <= i < keys.len() ==> !text_lt(#[trigger] keys[i], key),
    decreases keys.len(),
{
    if keys.len() == 0 {
    } else if text_lt(keys.last(), key) {
        assert forall|i: int| 0 <= i < keys.len() implies text_lt(#[trigger] keys[i], key) by {
            if i < keys.len() - 1 {
                assert(text_lt(keys[i], keys[keys.len() - 1]));
                lemma_text_lt_transitive(keys[i], keys.last(), key);
            }
        }
    } else {
        let front = keys.drop_last();
        assert forall|i: int, j: int| 0 <= i < j < front.len() implies text_lt(
            #[trigger] front[i],
            #[trigger] front[j],
        ) by {
            assert(front[i] == keys[i] && front[j] == keys[j]);
        }
        lemma_slot_bounds(front, key);
        assert forall|i: int| 0 <= i < slot(keys, key) implies text_lt(#[trigger] keys[i], key) by {
            assert(front[i] == keys[i]);
        }
        assert forall|i: int| slot(keys, key) <= i < keys.len() implies !text_lt(
            #[trigger] keys[i],
            key,
        ) by {
            if i < front.len() {
                assert(front[i] == keys[i]);
            }
        }
    }
}

/// A place that parts the keys below `key` from the others is the slot.
pub proof fn lemma_slot_is(keys: Seq<Seq<char>>, key: Seq<char>, p: int)
    requires
        ascending(keys),
        0 <= p <= keys.len(),
        forall|i: int| 0 <= i < p ==> text_lt(#[trigger] keys[i], key),
        forall|i: int| p <= i < keys.len() ==> !text_lt(#[trigger] keys[i], key),
    ensures
        slot(keys, key) == p,
{
    lemma_slot_bounds(keys, key);
    let q = slot(keys, key);
    if q < p {
        assert(text_lt(keys[q], key));
    } else if p < q {
        assert(text_lt(keys[p], key));
    }
}

/// A key of ascending keys stands at its own slot.
pub proof fn lemma_slot_of_member(keys: Seq<Seq<char>>, i: int)
    requires
        ascending(keys),
        0 <= i < keys.len(),
    ensures
        slot(keys, keys[i]) == i,
        has_key(keys, keys[i]),
{
    assert forall|j: int| i <= j < keys.len() implies !text_lt(#[trigger] keys[j], keys[i]) by {
        if j == i {
            lemma_text_lt_irreflexive(keys[i]);
        } else {
            assert(text_lt(keys[i], keys[j]));
            lemma_text_lt_asymmetric(keys[i], keys[j]);
        }
    }
    lemma_slot_is(keys, keys[i], i);
}

/// Ascending keys stay ascending when a new key enters at its slot.
pub proof fn lemma_insert_keeps_ascending(keys: Seq<Seq<char>>, key: Seq<char>)
    requires
        ascending(keys),
        !has_key(keys, key),
    ensures
        ascending(keys.insert(slot(keys, key), key)),
{
    lemma_slot_bounds(keys, key);
    let p = slot(keys, key);
    let out = keys.insert(p, key);
    assert forall|i: int, j: int| 0 <= i < j < out.len() implies text_lt(
        #[trigger] out[i],
        #[trigger] out[j],
    ) by {
        if j < p {
            assert(out[i] == keys[i] && out[j] == keys[j]);
        } else if j == p {
            assert(out[i] == keys[i]);
        } else if i == p {
            assert(out[j] == keys[j - 1]);
            assert(!text_lt(keys[j - 1], key));
            if !text_lt(key, keys[j - 1]) {
                lemma_text_lt_total(key, keys[j - 1]);
                assert(keys[p] == key) by {
                    if j - 1 > p {
                        assert(text_lt(keys[p], keys[j - 1]));
                        assert(!text_lt(keys[p], key));
                    }
                }
            }
        } else if i < p {
            assert(out[i] == keys[i] && out[j] == keys[j - 1]);
        } else {
            assert(out[i] == keys[i - 1] && out[j] == keys[j - 1]);
        }
    }
}

/// The keys of a list of rows.
pub open spec fn row_keys<V>(rows: Seq<(Seq<char>, V)>) -> Seq<Seq<char>> {
    Seq::new(rows.len(), |i: int| rows[i].0)
}

/// Rows in ascending key order.
pub open spec fn sorted_rows<V>(rows: Seq<(Seq<char>, V)>) -> bool {
    ascending(row_keys(rows))
}

/// The value that the rows hold for `key`, if any.
pub open spec fn get<V>(rows: Seq<(Seq<char>, V)>, key: Seq<char>) -> Option<V> {
    let p = slot(row_keys(rows), key);
    if has_key(row_keys(rows), key) {
        Some(rows[p].1)
    } else {
        None
    }
}

/// The rows with `key` bound to `value`: in place of the old row for that
/// key, or as a new row at the key's slot.
pub open spec fn put<V>(rows: Seq<(Seq<char>, V)>, key: Seq<char>, value: V) -> Seq<
    (Seq<char>, V),
> {
    let p = slot(row_keys(rows), key);
    if has_key(row_keys(rows), key) {
        rows.update(p, (key, value))
    } else {
        rows.insert(p, (key, value))
    }
}

/// Binding a key keeps the rows in order, and adds a row only for a new key.
pub proof fn lemma_put_sorted<V>(rows: Seq<(Seq<char>, V)>, key: Seq<char>, value: V)
    requires
        sorted_rows(rows),
    ensures
        sorted_rows(put(rows, key, value)),
        has_key(row_keys(rows), key) ==> put(rows, key, value).len() == rows.len() && row_keys(
            put(rows, key, value),
        ) == row_keys(rows),
        !has_key(row_keys(rows), key) ==> put(rows, key, value).len() == rows.len() + 1,
        0 <= slot(row_keys(rows), key) <= rows.len(),
{
    let keys = row_keys(rows);
    lemma_slot_bounds(keys, key);
    let p = slot(keys, key);
    if has_key(keys, key) {
        assert(row_keys(put(rows, key, value)) =~= keys);
    } else {
        lemma_insert_keeps_ascending(keys, key);
        assert(row_keys(put(rows, key, value)) =~= keys.insert(p, key));
    }
}

/// After binding `key`, the rows hold the new value for it and what they
/// held before for every other key.
pub proof fn lemma_get_put<V>(rows: Seq<(Seq<char>, V)>, key: Seq<char>, value: V, other: Seq<char>)
    requires
        sorted_rows(rows),
    ensures
        get(put(rows, key, value), other) == (if other == key {
            Some(value)
        } else {
            get(rows, other)
        }),
{
    let keys = row_keys(rows);
    let out = put(rows, key, value);
    let out_keys = row_keys(out);
    lemma_put_sorted(rows, key, value);
    lemma_slot_bounds(keys, key);
    lemma_slot_bounds(keys, other);
    lemma_slot_bounds(out_keys, other);
    let p = slot(keys, key);
    let q = slot(keys, other);
    if has_key(keys, key) {
        assert(out_keys =~= keys);
        if other == key {
        } else if q < keys.len() && keys[q] == other {
            assert(q != p);
        }
    } else {
        assert(out_keys =~= keys.insert(p, key));
        if other == key {
            lemma_slot_of_member(out_keys, p);
        } else if has_key(keys, other) {
            if q < p {
                assert(out_keys[q] == other);
                lemma_slot_of_member(out_keys, q);
                assert(out[q] == rows[q]);
            } else {
                assert(out_keys[q + 1] == other);
                lemma_slot_of_member(out_keys, q + 1);
                assert(out[q + 1] == rows[q]);
            }
        } else {
            let r = slot(out_keys, other);
            if r < out_keys.len() && out_keys[r] == other {
                if r < p {
                    assert(keys[r] == other);
                    lemma_slot_of_member(keys, r);
                } else if r > p {
                    assert(keys[r - 1] == other);
                    lemma_slot_of_member(keys, r - 1);
                }
            }
        }
    }
}

/// A map from text keys to values of type `V`, in ascending key order.
pub struct TextMap<V> {
    pub keys: Vec<String>,
    pub values: Vec<V>,
}

impl<V> View for TextMap<V> {
    type V = Seq<(Seq<char>, V)>;

    open spec fn view(&self) -> Seq<(Seq<char>, V)> {
        Seq::new(self.keys@.len(), |i: int| (self.keys@[i]@, self.values@[i]))
    }
}

impl<V> TextMap<V> {
    /// The keys as texts, in row order.
    pub open spec fn key_seq(&self) -> Seq<Seq<char>> {
        Seq::new(self.keys@.len(), |i: int| self.keys@[i]@)
    }

    /// One key per value, keys ascending.
    pub open spec fn wf(&self) -> bool {
        &&& self.keys@.len() == self.values@.len()
        &&& ascending(self.key_seq())
    }

    /// The number of rows.
    pub open spec fn count(&self) -> nat {
        self.keys@.len()
    }

    /// Whether the map holds `key`.
    pub open spec fn contains(&self, key: Seq<char>) -> bool {
        has_key(self.key_seq(), key)
    }

    /// An empty map.
    pub fn new() -> (map: Self)
        ensures
            map.wf(),
            map.keys@.len() == 0,
            map.values@.len() == 0,
    {
        TextMap { keys: Vec::new(), values: Vec::new() }
    }

    /// The number of rows.
    pub fn len(&self) -> (n: usize)
        ensures
            n == self.count(),
    {
        self.keys.len()
    }

    /// The key of row `i`.
    pub fn key_at(&self, i: usize) -> (key: &String)
        requires
            i < self.keys@.len(),
        ensures
            key@ == self.key_seq()[i as int],
            *key == self.keys@[i as int],
    {
        &self.keys[i]
    }

    /// The value of row `i`.
    pub fn value_at(&self, i: usize) -> (value: &V)
        requires
            i < self.values@.len(),
        ensures
            *value == self.values@[i as int],
    {
        &self.values[i]
    }

    /// Finds the slot of `key` and tells whether the key stands there.
    pub fn locate(&self, key: &str) -> (found: (usize, bool))
        requires
            self.wf(),
        ensures
            found.0 == slot(self.key_seq(), key@),
            found.0 <= self.count(),
            found.1 == self.contains(key@),
            found.1 ==> found.0 < self.count() && self.key_seq()[found.0 as int] == key@,
    {
        let ghost keys = self.key_seq();
        let mut lo: usize = 0;
        let mut hi: usize = self.keys.len();
        while lo < hi
            invariant
                self.wf(),
                keys == self.key_seq(),
                lo <= hi <= keys.len(),
                forall|i: int| 0 <= i < lo ==> text_lt(#[trigger] keys[i], key@),
                forall|i: int| hi <= i < keys.len() ==> text_lt(key@, #[trigger] keys[i]),
            decreases hi - lo,
        {
            let mid = lo + (hi - lo) / 2;
            let place = compare_text(self.keys[mid].as_str(), key);
            assert(keys[mid as int] == self.keys@[mid as int]@);
            match place {
                Place::Before => {
                    proof {
                        assert forall|i: int| 0 <= i < mid + 1 implies text_lt(
                            #[trigger] keys[i],
                            key@,
                        ) by {
                            if i < mid {
                                assert(text_lt(keys[i], keys[mid as int]));
                                lemma_text_lt_transitive(keys[i], keys[mid as int], key@);
                            }
                        }
                    }
                    lo = mid + 1;
                },
                Place::Same => {
                    proof {
                        lemma_slot_of_member(keys, mid as int);
                    }
                    return (mid, true);
                },
                Place::After => {
                    proof {
                        assert forall|i: int| mid <= i < keys.len() implies text_lt(
                            key@,
                            #[trigger] keys[i],
                        ) by {
                            if i > mid {
                                assert(text_lt(keys[mid as int], keys[i]));
                                lemma_text_lt_transitive(key@, keys[mid as int], keys[i]);
                            }
                        }
                    }
                    hi = mid;
                },
            }
        }
        proof {
            assert forall|i: int| lo <= i < keys.len() implies !text_lt(#[trigger] keys[i], key@) by {
                lemma_text_lt_asymmetric(key@, keys[i]);
            }
            lemma_slot_is(keys, key@, lo as int);
            if lo < keys.len() {
                lemma_text_lt_asymmetric(key@, keys[lo as int]);
            }
        }
        (lo, false)
    }

    /// Puts a new row at the slot of its key.
    pub fn insert_at(&mut self, pos: usize, key: String, value: V)
        requires
            old(self).wf(),
            !old(self).contains(key@),
            pos == slot(old(self).key_seq(), key@),
        ensures
            final(self).wf(),
            final(self).key_seq() == old(self).key_seq().insert(pos as int, key@),
            final(self).values@ == old(self).values@.insert(pos as int, value),
            final(self).keys@ == old(self).keys@.insert(pos as int, key),
    {
        proof {
            lemma_slot_bounds(self.key_seq(), key@);
            lemma_insert_keeps_ascending(self.key_seq(), key@);
        }
        let ghost before = self.key_seq();
        self.keys.insert(pos, key);
        self.values.insert(pos, value);
        assert(self.key_seq() =~= before.insert(pos as int, key@));
    }

    /// The value bound to `key`, if any.
    pub fn get(&self, key: &str) -> (value: Option<&V>)
        requires
            self.wf(),
        ensures
            value matches Some(v) ==> get(self@, key@) == Some(*v),
            value is None ==> get(self@, key@) is None,
    {
        assert(row_keys(self@) =~= self.key_seq());
        let (pos, found) = self.locate(key);
        if found {
            Some(&self.values[pos])
        } else {
            None
        }
    }

    /// Binds `key` to `value`.
    pub fn put(&mut self, key: String, value: V)
        requires
            old(self).wf(),
        ensures
            final(self).wf(),
            final(self)@ == put(old(self)@, key@, value),
    {
        assert(row_keys(self@) =~= self.key_seq());
        let ghost before = self@;
        let (pos, found) = self.locate(key.as_str());
        if found {
            self.set_value(pos, value);
            assert(self@ =~= before.update(pos as int, (key@, value)));
        } else {
            self.insert_at(pos, key, value);
            assert(self@ =~= before.insert(pos as int, (key@, value)));
        }
    }

    /// Replaces the value of row `pos`.
    pub fn set_value(&mut self, pos: usize, value: V)
        requires
            old(self).wf(),
            pos < old(self).count(),
        ensures
            final(self).wf(),
            final(self).keys == old(self).keys,
            final(self).values@ == old(self).values@.update(pos as int, value),
    {
        let ghost before = self.key_seq();
        self.values[pos] = value;
        assert(self.key_seq() =~= before);
    }
}

} // verus!
