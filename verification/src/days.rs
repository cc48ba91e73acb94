//! The days on which each author committed.

use vstd::prelude::*;
use crate::ints::{with_day, DaySet};
use crate::table::{get, put, row_keys, TextMap};

verus! {

/// For each author, in ascending order of identity, the set of days with a
/// commit.
pub struct AuthorDays {
    pub by_author: TextMap<DaySet>,
}

impl View for AuthorDays {
    type V = Seq<(Seq<char>, Seq<i64>)>;

    open spec fn view(&self) -> Seq<(Seq<char>, Seq<i64>)> {
        Seq::new(self.by_author.keys@.len(), |i: int| (self.by_author.keys@[i]@, self.by_author.values@[i]@))
    }
}

/// The days that the rows hold for an author; none for an unknown author.
pub open spec fn days_of(rows: Seq<(Seq<char>, Seq<i64>)>, author: Seq<char>) -> Seq<i64> {
    match get(rows, author) {
        Some(days) => days,
        None => Seq::empty(),
    }
}

/// The rows after a commit by `author` on `day` was noted.
pub open spec fn noted(rows: Seq<(Seq<char>, Seq<i64>)>, author: Seq<char>, day: i64) -> Seq<
    (Seq<char>, Seq<i64>),
> {
    put(rows, author, with_day(days_of(rows, author), day))
}

impl AuthorDays {
    /// Authors ascending, and each author's days ascending.
    pub open spec fn wf(&self) -> bool {
        &&& self.by_author.wf()
        &&& forall|i: int| 0 <= i < self.by_author.values@.len() ==> (#[trigger] self.by_author.values@[i]).wf()
    }

    /// No author yet.
    pub fn new() -> (days: AuthorDays)
        ensures
            days.wf(),
            days@.len() == 0,
    {
        AuthorDays { by_author: TextMap::new() }
    }

    /// The number of authors.
    pub fn len(&self) -> (n: usize)
        requires
            self.wf(),
        ensures
            n == self@.len(),
    {
        self.by_author.len()
    }

    /// The identity of the author in row `i`.
    pub fn author_at(&self, i: usize) -> (author: &String)
        requires
            self.wf(),
            i < self@.len(),
        ensures
            author@ == self@[i as int].0,
    {
        self.by_author.key_at(i)
    }

    /// The days of the author in row `i`.
    pub fn days_at(&self, i: usize) -> (days: &DaySet)
        requires
            self.wf(),
            i < self@.len(),
        ensures
            days@ == self@[i as int].1,
            days.wf(),
    {
        self.by_author.value_at(i)
    }

    /// Notes a commit by `author` on `day`: the day joins the author's days,
    /// and a new author gets a row.
    pub fn note(&mut self, author: String, day: i64)
        requires
            old(self).wf(),
        ensures
            final(self).wf(),
            final(self)@ == noted(old(self)@, author@, day),
    {
        let ghost before = self@;
        assert(row_keys(before) =~= self.by_author.key_seq());
        let (pos, found) = self.by_author.locate(author.as_str());
        if found {
            let ghost keys = self.by_author.key_seq();
            let ghost old_days = self.by_author.values@[pos as int]@;
            let mut set = DaySet::new();
            std::mem::swap(&mut set, &mut self.by_author.values[pos]);
            let _ = set.insert(day);
            self.by_author.set_value(pos, set);
            assert(self.by_author.key_seq() =~= keys);
            assert(self@ =~= before.update(pos as int, (author@, with_day(old_days, day))));
        } else {
            let mut set = DaySet::new();
            let _ = set.insert(day);
            assert(set@ =~= with_day(Seq::empty(), day));
            self.by_author.insert_at(pos, author, set);
            assert(self@ =~= before.insert(pos as int, (author@, with_day(Seq::empty(), day))));
        }
    }
}

} // verus!
