//! What the renderer reads off the state after a tick.

use crate::rate::Rate;
use vstd::prelude::*;

verus! {

/// Most hosts that the table shows.
pub const TABLE_ROWS: usize = 20;

/// Upper end of a chart's value axis: the largest total of the history, and
/// at least 1 so that the axis never collapses.
pub open spec fn ceiling_of(history: Seq<u64>) -> u64
    decreases history.len(),
{
    if history.len() == 0 {
        1
    } else if history.last() > ceiling_of(history.drop_last()) {
        history.last()
    } else {
        ceiling_of(history.drop_last())
    }
}

/// The ceiling is at least 1, bounds every total, and is 1 or one of the
/// totals.
pub proof fn lemma_ceiling_is_the_maximum(history: Seq<u64>)
    ensures
        ceiling_of(history) >= 1,
        forall|i: int| 0 <= i < history.len() ==> history[i] <= ceiling_of(history),
        ceiling_of(history) == 1 || history.contains(ceiling_of(history)),
    decreases history.len(),
{
    if history.len() > 0 {
        let front = history.drop_last();
        lemma_ceiling_is_the_maximum(front);
        assert forall|i: int| 0 <= i < history.len() implies history[i] <= ceiling_of(history) by {
            if i < front.len() {
                assert(front[i] == history[i]);
            }
        }
        if ceiling_of(history) != 1 {
            if history.last() > ceiling_of(front) {
                assert(history[history.len() - 1] == ceiling_of(history));
            } else {
                let i = choose|i: int| 0 <= i < front.len() && front[i] == ceiling_of(front);
                assert(history[i] == ceiling_of(history));
            }
        }
    }
}

/// Upper end of the value axis for a history buffer: its largest total, or
/// 1 if none is larger.
pub fn chart_ceiling(history: &Vec<u64>) -> (top: u64)
    ensures
        top == ceiling_of(history@),
        top >= 1,
        forall|i: int| 0 <= i < history@.len() ==> history@[i] <= top,
        top == 1 || history@.contains(top),
{
    let mut top: u64 = 1;
    let mut i: usize = 0;
    while i < history.len()
        invariant
            i <= history@.len(),
            top == ceiling_of(history@.take(i as int)),
        decreases history@.len() - i,
    {
        assert(history@.take(i + 1).drop_last() =~= history@.take(i as int));
        if history[i] > top {
            top = history[i];
        }
        i = i + 1;
    }
    proof {
        assert(history@.take(i as int) =~= history@);
        lemma_ceiling_is_the_maximum(history@);
    }
    top
}

/// The rows of the table: the first `limit` entries of the ranking, or all
/// of them if there are fewer.
pub fn visible_rows(ranking: &Vec<(u32, Rate)>, limit: usize) -> (rows: Vec<(u32, Rate)>)
    ensures
        rows@ == ranking@.take(if limit <= ranking@.len() {
            limit as int
        } else {
            ranking@.len() as int
        }),
{
    let mut rows: Vec<(u32, Rate)> = Vec::new();
    let mut i: usize = 0;
    while i < ranking.len() && i < limit
        invariant
            i <= ranking@.len(),
            i <= limit,
            rows@ == ranking@.take(i as int),
        decreases ranking@.len() - i,
    {
        rows.push(ranking[i]);
        assert(rows@ =~= ranking@.take(i + 1));
        i = i + 1;
    }
    rows
}

} // verus!
