//! Ranking of scored names.

use std::cmp::Ordering;
use vstd::prelude::*;
use crate::floats::{order_key, order_key_of};
use crate::order::{
    compare_text, text_lt, Place, lemma_text_lt_asymmetric, lemma_text_lt_irreflexive, lemma_text_lt_total,
    lemma_text_lt_transitive,
};

verus! {

/// The direction of a ranking.
#[derive(Clone, Copy, Debug, PartialEq, Eq, Structural)]
pub enum Order {
    /// From the lowest score to the highest.
    Ascending,
    /// From the highest score to the lowest.
    Descending,
}

/// A name with its score, the score as the bits of a binary64 number.
pub struct Scored {
    pub path: String,
    pub score: u64,
}

impl View for Scored {
    type V = (Seq<char>, u64);

    open spec fn view(&self) -> (Seq<char>, u64) {
        (self.path@, self.score)
    }
}

/// The rows as values.
pub open spec fn views(rows: Seq<Scored>) -> Seq<(Seq<char>, u64)> {
    Seq::new(rows.len(), |i: int| rows[i]@)
}

/// Whether row `a` must stand before row `b`: by score in the direction of
/// the ranking, and by name in ascending order where the scores are equal.
pub open spec fn precedes(a: (Seq<char>, u64), b: (Seq<char>, u64), order: Order) -> bool {
    let ka = order_key_of(a.1);
    let kb = order_key_of(b.1);
    if ka != kb {
        if order == Order::Descending {
            ka > kb
        } else {
            ka < kb
        }
    } else {
        text_lt(a.0, b.0)
    }
}

/// No row stands after a row that it must precede.
pub open spec fn ranked(rows: Seq<(Seq<char>, u64)>, order: Order) -> bool {
    forall|i: int, j: int| 0 <= i < j < rows.len() ==> !precedes(rows[j], rows[i], order)
}

/// The ranking is a strict total order of rows: no row precedes itself, of
/// two different rows exactly one precedes the other, and a row that
/// precedes a second precedes all that the second precedes.
pub proof fn lemma_precedes_is_total_order(
    a: (Seq<char>, u64),
    b: (Seq<char>, u64),
    c: (Seq<char>, u64),
    order: Order,
)
    ensures
        !precedes(a, a, order),
        precedes(a, b, order) ==> !precedes(b, a, order),
        a != b ==> precedes(a, b, order) || precedes(b, a, order),
        precedes(a, b, order) && precedes(b, c, order) ==> precedes(a, c, order),
{
    lemma_text_lt_irreflexive(a.0);
    if text_lt(a.0, b.0) {
        lemma_text_lt_asymmetric(a.0, b.0);
    }
    if !text_lt(a.0, b.0) && !text_lt(b.0, a.0) {
        lemma_text_lt_total(a.0, b.0);
    }
    if text_lt(a.0, b.0) && text_lt(b.0, c.0) {
        lemma_text_lt_transitive(a.0, b.0, c.0);
    }
}

/// Compares two rows for a ranking.
pub fn place(a: &Scored, b: &Scored, order: Order) -> (p: Place)
    ensures
        p == Place::Before <==> precedes(a@, b@, order),
        p == Place::After <==> precedes(b@, a@, order),
        p == Place::Same ==> a@.0 == b@.0 && order_key_of(a@.1) == order_key_of(b@.1),
{
    let ka = order_key(a.score);
    let kb = order_key(b.score);
    if ka != kb {
        let first = match order {
            Order::Descending => ka > kb,
            Order::Ascending => ka < kb,
        };
        if first {
            Place::Before
        } else {
            Place::After
        }
    } else {
        compare_text(a.path.as_str(), b.path.as_str())
    }
}

/// The comparison of two rows in the form that a sort takes: less where
/// `a` must stand before `b`, greater where `b` must stand before `a`, and
/// equal where neither must, which is so only for rows of the same name
/// whose scores have the same place.
fn sort_order(a: &Scored, b: &Scored, order: Order) -> (o: Ordering)
    ensures
        o == Ordering::Less <==> precedes(a@, b@, order),
        o == Ordering::Greater <==> precedes(b@, a@, order),
        o == Ordering::Equal <==> !precedes(a@, b@, order) && !precedes(b@, a@, order),
        o == Ordering::Equal ==> a@.0 == b@.0 && order_key_of(a@.1) == order_key_of(b@.1),
{
    match place(a, b, order) {
        Place::Before => Ordering::Less,
        Place::Same => Ordering::Equal,
        Place::After => Ordering::Greater,
    }
}

/// Calls the standard library's `sort_by` with the ranking as comparison.
/// It sorts the rows by that comparison, which is a total order, and keeps
/// every row.
#[verifier::external_body]
fn sort_rows(rows: &mut Vec<Scored>, order: Order)
    ensures
        ranked(views(final(rows)@), order),
        views(final(rows)@).to_multiset() == views(old(rows)@).to_multiset(),
{
    rows.sort_by(|a, b| sort_order(a, b, order));
}

/// Ranks the rows: by score in the given direction, rows of equal score by
/// name. Every row stays.
pub fn rank(rows: Vec<Scored>, order: Order) -> (out: Vec<Scored>)
    ensures
        ranked(views(out@), order),
        views(out@).to_multiset() == views(rows@).to_multiset(),
        out@.len() == rows@.len(),
{
    broadcast use vstd::seq_lib::group_to_multiset_ensures;

    let mut out = rows;
    sort_rows(&mut out, order);
    proof {
        assert(views(out@).to_multiset().len() == views(out@).len());
        assert(views(rows@).to_multiset().len() == views(rows@).len());
    }
    out
}

} // verus!
