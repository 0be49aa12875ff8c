//! Columns of readings: the break points of a profile, in profile order.

use vstd::prelude::*;
use crate::rank::{is_number, rank, rank_of};

verus! {

/// Whether every reading of the column encodes a number.
pub open spec fn all_numbers(readings: Seq<u64>) -> bool {
    forall|i: int| 0 <= i < readings.len() ==> is_number(#[trigger] readings[i])
}

/// The ranks of the readings of a column, in the same order.
pub open spec fn ranks_of(readings: Seq<u64>) -> Seq<int> {
    Seq::new(readings.len(), |i: int| rank_of(readings[i]))
}

/// Whether no key of the sequence is smaller than one before it.
pub open spec fn ascending(keys: Seq<int>) -> bool {
    forall|i: int, j: int| 0 <= i <= j < keys.len() ==> keys[i] <= keys[j]
}

/// Whether a column is in order: all of its readings are numbers, and none
/// is smaller than one before it.
pub open spec fn ordered(readings: Seq<u64>) -> bool {
    all_numbers(readings) && ascending(ranks_of(readings))
}

/// The keys of a vector of ranks as mathematical integers.
pub open spec fn keys_of(ranks: Seq<i64>) -> Seq<int> {
    Seq::new(ranks.len(), |i: int| ranks[i] as int)
}

/// Ranks a column if it is in order.
///
/// Returns the rank of every reading when the column is ordered, and `None`
/// when a reading is not a number or is smaller than the reading before it.
pub fn ordered_ranks(readings: &[u64]) -> (r: Option<Vec<i64>>)
    ensures
        r is Some <==> ordered(readings@),
        r matches Some(ranks) ==> keys_of(ranks@) == ranks_of(readings@),
{
    let mut ranks: Vec<i64> = Vec::new();
    let mut at: usize = 0;
    while at < readings.len()
        invariant
            at <= readings.len(),
            ranks@.len() == at,
            forall|i: int| 0 <= i < at ==> is_number(#[trigger] readings@[i]),
            forall|i: int| 0 <= i < at ==> #[trigger] ranks@[i] == rank_of(readings@[i]),
            forall|i: int, j: int| 0 <= i <= j < at ==> ranks@[i] <= ranks@[j],
        decreases readings.len() - at,
    {
        match rank(readings[at]) {
            None => {
                assert(!is_number(readings@[at as int]));
                return None;
            },
            Some(key) => {
                if at > 0 && key < ranks[at - 1] {
                    assert(ranks_of(readings@)[at - 1] > ranks_of(readings@)[at as int]);
                    return None;
                }
                ranks.push(key);
            },
        }
        at = at + 1;
    }
    assert(keys_of(ranks@) =~= ranks_of(readings@));
    Some(ranks)
}

} // verus!
