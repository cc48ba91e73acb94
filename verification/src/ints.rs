//! Ordered sets and maps of integers, kept as ascending rows.

use vstd::prelude::*;

verus! {

/// The numbers stand in strictly ascending order.
pub open spec fn increasing(keys: Seq<i64>) -> bool {
    forall|i: int, j: int| 0 <= i < j < keys.len() ==> keys[i] < keys[j]
}

/// The number of leading keys below `key`.
pub open spec fn rank(keys: Seq<i64>, key: i64) -> int
    decreases keys.len(),
{
    if keys.len() == 0 {
        0
    } else if keys.last() < key {
        keys.len() as int
    } else {
        rank(keys.drop_last(), key)
    }
}

/// Whether `key` is one of the ascending `keys`.
pub open spec fn member(keys: Seq<i64>, key: i64) -> bool {
    rank(keys, key) < keys.len() && keys[rank(keys, key)] == key
}

/// What `rank` means for ascending keys.
pub proof fn lemma_rank_bounds(keys: Seq<i64>, key: i64)
    requires
        increasing(keys),
    ensures
        0 <= rank(keys, key) <= keys.len(),
        forall|i: int| 0 <= i < rank(keys, key) ==> keys[i] < key,
        forall|i: int| rank(keys, key) <= i < keys.len() ==> keys[i] >= key,
        member(keys, key) <==> keys.contains(key),
    decreases keys.len(),
{
    if keys.len() == 0 {
    } else if keys.last() < key {
    } else {
        let front = keys.drop_last();
        lemma_rank_bounds(front, key);
        assert forall|i: int| 0 <= i < rank(keys, key) implies keys[i] < key by {
            assert(front[i] == keys[i]);
        }
        assert forall|i: int| rank(keys, key) <= i < keys.len() implies keys[i] >= key by {
            if i < front.len() {
                assert(front[i] == keys[i]);
            }
        }
    }
    if keys.contains(key) {
        let i = choose|i: int| 0 <= i < keys.len() && keys[i] == key;
        assert(keys[i] == key);
    }
}

/// A place that parts the keys below `key` from the others is its rank.
pub proof fn lemma_rank_is(keys: Seq<i64>, key: i64, p: int)
    requires
        increasing(keys),
        0 <= p <= keys.len(),
        forall|i: int| 0 <= i < p ==> keys[i] < key,
        forall|i: int| p <= i < keys.len() ==> keys[i] >= key,
    ensures
        rank(keys, key) == p,
{
    lemma_rank_bounds(keys, key);
    let q = rank(keys, key);
    if q < p {
        assert(keys[q] < key);
    } else if p < q {
        assert(keys[p] < key);
    }
}

/// Ascending keys stay ascending when a new key enters at its rank.
pub proof fn lemma_insert_keeps_increasing(keys: Seq<i64>, key: i64)
    requires
        increasing(keys),
        !member(keys, key),
    ensures
        increasing(keys.insert(rank(keys, key), key)),
        0 <= rank(keys, key) <= keys.len(),
{
    lemma_rank_bounds(keys, key);
    let p = rank(keys, key);
    let out = keys.insert(p, key);
    assert forall|i: int, j: int| 0 <= i < j < out.len() implies out[i] < out[j] by {
        if j < p {
        } else if j == p {
        } else if i == p {
            assert(out[j] == keys[j - 1]);
            if j - 1 > p {
                assert(keys[p] < keys[j - 1]);
            }
        } else if i < p {
            assert(out[j] == keys[j - 1]);
        } else {
            assert(out[i] == keys[i - 1] && out[j] == keys[j - 1]);
        }
    }
}

/// Finds the rank of `key` among ascending keys, and whether it stands there.
pub fn find_rank(keys: &Vec<i64>, key: i64) -> (found: (usize, bool))
    requires
        increasing(keys@),
    ensures
        found.0 == rank(keys@, key),
        found.0 <= keys@.len(),
        found.1 == member(keys@, key),
        found.1 == keys@.contains(key),
{
    let mut lo: usize = 0;
    let mut hi: usize = keys.len();
    while lo < hi
        invariant
            increasing(keys@),
            lo <= hi <= keys@.len(),
            forall|i: int| 0 <= i < lo ==> keys@[i] < key,
            forall|i: int| hi <= i < keys@.len() ==> keys@[i] >= key,
        decreases hi - lo,
    {
        let mid = lo + (hi - lo) / 2;
        if keys[mid] < key {
            lo = mid + 1;
        } else {
            hi = mid;
        }
    }
    proof {
        lemma_rank_is(keys@, key, lo as int);
        lemma_rank_bounds(keys@, key);
    }
    let found = lo < keys.len() && keys[lo] == key;
    (lo, found)
}

/// A set of calendar days, each a number of days since 1 January 1970.
pub struct DaySet {
    pub days: Vec<i64>,
}

impl View for DaySet {
    type V = Seq<i64>;

    open spec fn view(&self) -> Seq<i64> {
        self.days@
    }
}

/// The days with `day` among them, in ascending order.
pub open spec fn with_day(days: Seq<i64>, day: i64) -> Seq<i64> {
    if member(days, day) {
        days
    } else {
        days.insert(rank(days, day), day)
    }
}

impl DaySet {
    /// No day occurs twice, and an earlier day comes first.
    pub open spec fn wf(&self) -> bool {
        increasing(self.days@)
    }

    /// The empty set.
    pub fn new() -> (set: DaySet)
        ensures
            set.wf(),
            set@.len() == 0,
    {
        DaySet { days: Vec::new() }
    }

    /// The number of distinct days.
    pub fn len(&self) -> (n: usize)
        ensures
            n == self@.len(),
    {
        self.days.len()
    }

    /// Adds a day; a day that the set holds already changes nothing.
    pub fn insert(&mut self, day: i64) -> (added: bool)
        requires
            old(self).wf(),
        ensures
            final(self).wf(),
            final(self)@ == with_day(old(self)@, day),
            added == !old(self)@.contains(day),
            final(self)@.contains(day),
            forall|d: i64| d != day ==> (final(self)@.contains(d) <==> old(self)@.contains(d)),
    {
        let ghost before = self.days@;
        let (pos, found) = find_rank(&self.days, day);
        if !found {
            proof {
                lemma_insert_keeps_increasing(before, day);
            }
            self.days.insert(pos, day);
            proof {
                let after = self.days@;
                assert(after[pos as int] == day);
                assert forall|d: i64| d != day implies (after.contains(d) <==> before.contains(d)) by {
                    if before.contains(d) {
                        let i = choose|i: int| 0 <= i < before.len() && before[i] == d;
                        if i < pos {
                            assert(after[i] == d);
                        } else {
                            assert(after[i + 1] == d);
                        }
                    }
                    if after.contains(d) {
                        let i = choose|i: int| 0 <= i < after.len() && after[i] == d;
                        if i < pos {
                            assert(before[i] == d);
                        } else {
                            assert(before[i - 1] == d);
                        }
                    }
                }
            }
        } else {
            proof {
                lemma_rank_bounds(before, day);
            }
        }
        !found
    }
}

/// A map from integers to values of type `V`, in ascending key order.
pub struct IntMap<V> {
    pub keys: Vec<i64>,
    pub values: Vec<V>,
}

impl<V> View for IntMap<V> {
    type V = Seq<(i64, V)>;

    open spec fn view(&self) -> Seq<(i64, V)> {
        Seq::new(self.keys@.len(), |i: int| (self.keys@[i], self.values@[i]))
    }
}

/// The keys of a list of rows.
pub open spec fn int_keys<V>(rows: Seq<(i64, V)>) -> Seq<i64> {
    Seq::new(rows.len(), |i: int| rows[i].0)
}

/// Rows in ascending key order.
pub open spec fn sorted_int_rows<V>(rows: Seq<(i64, V)>) -> bool {
    increasing(int_keys(rows))
}

/// The value that the rows hold for `key`, if any.
pub open spec fn int_get<V>(rows: Seq<(i64, V)>, key: i64) -> Option<V> {
    if member(int_keys(rows), key) {
        Some(rows[rank(int_keys(rows), key)].1)
    } else {
        None
    }
}

/// The rows with `key` bound to `value`.
pub open spec fn int_put<V>(rows: Seq<(i64, V)>, key: i64, value: V) -> Seq<(i64, V)> {
    let p = rank(int_keys(rows), key);
    if member(int_keys(rows), key) {
        rows.update(p, (key, value))
    } else {
        rows.insert(p, (key, value))
    }
}

/// Binding a key keeps the rows in order, and adds a row only for a new key.
pub proof fn lemma_int_put_sorted<V>(rows: Seq<(i64, V)>, key: i64, value: V)
    requires
        sorted_int_rows(rows),
    ensures
        sorted_int_rows(int_put(rows, key, value)),
        0 <= rank(int_keys(rows), key) <= rows.len(),
        member(int_keys(rows), key) ==> int_put(rows, key, value).len() == rows.len(),
        !member(int_keys(rows), key) ==> int_put(rows, key, value).len() == rows.len() + 1,
{
    let keys = int_keys(rows);
    lemma_rank_bounds(keys, key);
    let p = rank(keys, key);
    if member(keys, key) {
        assert(int_keys(int_put(rows, key, value)) =~= keys);
    } else {
        lemma_insert_keeps_increasing(keys, key);
        assert(int_keys(int_put(rows, key, value)) =~= keys.insert(p, key));
    }
}

impl<V> IntMap<V> {
    /// One key per value, keys ascending.
    pub open spec fn wf(&self) -> bool {
        &&& self.keys@.len() == self.values@.len()
        &&& increasing(self.keys@)
    }

    /// An empty map.
    pub fn new() -> (map: Self)
        ensures
            map.wf(),
            map@.len() == 0,
    {
        IntMap { keys: Vec::new(), values: Vec::new() }
    }

    /// The number of rows.
    pub fn len(&self) -> (n: usize)
        ensures
            n == self@.len(),
    {
        self.keys.len()
    }

    /// The key of row `i`.
    pub fn key_at(&self, i: usize) -> (key: i64)
        requires
            i < self@.len(),
        ensures
            key == self@[i as int].0,
    {
        self.keys[i]
    }

    /// The value of row `i`.
    pub fn value_at(&self, i: usize) -> (value: &V)
        requires
            self.wf(),
            i < self@.len(),
        ensures
            *value == self@[i as int].1,
    {
        &self.values[i]
    }

    /// The value bound to `key`, if any.
    pub fn get(&self, key: i64) -> (value: Option<&V>)
        requires
            self.wf(),
        ensures
            value matches Some(v) ==> int_get(self@, key) == Some(*v),
            value is None ==> int_get(self@, key) is None,
    {
        assert(int_keys(self@) =~= self.keys@);
        let (pos, found) = find_rank(&self.keys, key);
        if found {
            Some(&self.values[pos])
        } else {
            None
        }
    }

    /// Binds `key` to `value`.
    pub fn put(&mut self, key: i64, value: V)
        requires
            old(self).wf(),
        ensures
            final(self).wf(),
            final(self)@ == int_put(old(self)@, key, value),
    {
        assert(int_keys(self@) =~= self.keys@);
        let ghost before = self@;
        let (pos, found) = find_rank(&self.keys, key);
        if found {
            self.values[pos] = value;
            assert(self@ =~= before.update(pos as int, (key, value)));
        } else {
            proof {
                lemma_insert_keeps_increasing(self.keys@, key);
            }
            self.keys.insert(pos, key);
            self.values.insert(pos, value);
            assert(self@ =~= before.insert(pos as int, (key, value)));
        }
    }
}

} // verus!
