//! Ranking of hosts by average rate, fastest first.

use crate::rate::{lemma_rate_le_transitive, Rate};
use vstd::prelude::*;

verus! {

/// Rates never increase along the sequence.
pub open spec fn sorted_desc(s: Seq<(u32, Rate)>) -> bool {
    forall|i: int, j: int| 0 <= i < j < s.len() ==> (#[trigger] s[j]).1.le((#[trigger] s[i]).1)
}

/// No host occurs twice in the sequence.
pub open spec fn distinct_hosts(s: Seq<(u32, Rate)>) -> bool {
    forall|i: int, j: int| 0 <= i < j < s.len() ==> (#[trigger] s[i]).0 != (#[trigger] s[j]).0
}

/// Puts `entry` into a ranking, behind every entry whose rate is at least
/// its own, and returns the place it took.
pub fn insert_ranked(ranked: &mut Vec<(u32, Rate)>, entry: (u32, Rate)) -> (at: usize)
    requires
        sorted_desc(old(ranked)@),
    ensures
        at <= old(ranked)@.len(),
        final(ranked)@ == old(ranked)@.insert(at as int, entry),
        sorted_desc(final(ranked)@),
        forall|k: int| 0 <= k < at ==> entry.1.le(#[trigger] old(ranked)@[k].1),
        at < old(ranked)@.len() ==> !entry.1.le(old(ranked)@[at as int].1),
{
    let mut at: usize = 0;
    while at < ranked.len() && entry.1.at_most(&ranked[at].1)
        invariant
            at <= ranked@.len(),
            ranked@ == old(ranked)@,
            forall|k: int| 0 <= k < at ==> entry.1.le(#[trigger] ranked@[k].1),
        decreases ranked@.len() - at,
    {
        at = at + 1;
    }
    proof {
        let before = ranked@;
        let after = before.insert(at as int, entry);
        assert forall|i: int, j: int| 0 <= i < j < after.len() implies (#[trigger] after[j]).1.le(
            (#[trigger] after[i]).1,
        ) by {
            if j < at {
                assert(after[i] == before[i] && after[j] == before[j]);
            } else if j == at {
                assert(after[i] == before[i]);
            } else if i == at {
                // before[at] < entry, and everything behind is at most before[at]
                assert(after[j] == before[j - 1]);
                if j - 1 > at {
                    assert(before[j - 1].1.le(before[at as int].1));
                }
                lemma_rate_le_transitive(before[j - 1].1, before[at as int].1, entry.1);
            } else if i < at {
                assert(after[i] == before[i] && after[j] == before[j - 1]);
            } else {
                assert(after[i] == before[i - 1] && after[j] == before[j - 1]);
            }
        }
    }
    ranked.insert(at, entry);
    at
}

/// Orders host and rate pairs by rate, fastest first. The result holds the
/// same pairs, each as often as the input does; the order among equal rates
/// is left open.
pub fn rank(pairs: &Vec<(u32, Rate)>) -> (ranked: Vec<(u32, Rate)>)
    ensures
        sorted_desc(ranked@),
        ranked@.to_multiset() == pairs@.to_multiset(),
        ranked@.len() == pairs@.len(),
        forall|p: (u32, Rate)| ranked@.contains(p) <==> pairs@.contains(p),
        distinct_hosts(pairs@) ==> distinct_hosts(ranked@),
{
    let mut ranked: Vec<(u32, Rate)> = Vec::new();
    let mut done: usize = 0;
    assert(pairs@.subrange(0, 0) =~= ranked@);
    while done < pairs.len()
        invariant
            done <= pairs@.len(),
            sorted_desc(ranked@),
            ranked@.len() == done,
            ranked@.to_multiset() == pairs@.subrange(0, done as int).to_multiset(),
            forall|k: int|
                0 <= k < ranked@.len() ==> exists|m: int|
                    0 <= m < done && pairs@[m] == #[trigger] ranked@[k],
            forall|m: int| 0 <= m < done ==> ranked@.contains(#[trigger] pairs@[m]),
            distinct_hosts(pairs@) ==> distinct_hosts(ranked@),
        decreases pairs@.len() - done,
    {
        let entry = pairs[done];
        let ghost before = ranked@;
        let at = insert_ranked(&mut ranked, entry);
        proof {
            let after = ranked@;
            let seen = pairs@.subrange(0, done as int);
            assert(pairs@.subrange(0, done + 1) =~= seen.push(entry));
            vstd::seq_lib::to_multiset_build(seen, entry);
            vstd::seq_lib::to_multiset_insert(before, at as int, entry);
            assert(after.to_multiset() =~= seen.push(entry).to_multiset());
            assert forall|k: int| 0 <= k < after.len() implies exists|m: int|
                0 <= m < done + 1 && pairs@[m] == #[trigger] after[k] by {
                if k < at {
                    assert(after[k] == before[k]);
                    let m = choose|m: int| 0 <= m < done && pairs@[m] == before[k];
                    assert(pairs@[m] == after[k]);
                } else if k == at {
                    assert(pairs@[done as int] == after[k]);
                } else {
                    assert(after[k] == before[k - 1]);
                    let m = choose|m: int| 0 <= m < done && pairs@[m] == before[k - 1];
                    assert(pairs@[m] == after[k]);
                }
            }
            assert forall|m: int| 0 <= m < done + 1 implies after.contains(
                #[trigger] pairs@[m],
            ) by {
                if m == done {
                    assert(after[at as int] == pairs@[m]);
                } else {
                    let k = choose|k: int| 0 <= k < before.len() && before[k] == pairs@[m];
                    if k < at {
                        assert(after[k] == pairs@[m]);
                    } else {
                        assert(after[k + 1] == pairs@[m]);
                    }
                }
            }
            if distinct_hosts(pairs@) {
                assert forall|i: int, j: int| 0 <= i < j < after.len() implies (
                #[trigger] after[i]).0 != (#[trigger] after[j]).0 by {
                    let bi = if i < at { i } else { i - 1 };
                    let bj = if j < at { j } else { j - 1 };
                    if i == at {
                        let m = choose|m: int| 0 <= m < done && pairs@[m] == before[bj];
                        assert(pairs@[m].0 != pairs@[done as int].0);
                    } else if j == at {
                        let m = choose|m: int| 0 <= m < done && pairs@[m] == before[bi];
                        assert(pairs@[m].0 != pairs@[done as int].0);
                    } else {
                        assert(after[i] == before[bi] && after[j] == before[bj]);
                    }
                }
            }
        }
        done = done + 1;
    }
    proof {
        assert(pairs@.subrange(0, done as int) =~= pairs@);
        assert forall|p: (u32, Rate)| ranked@.contains(p) <==> pairs@.contains(p) by {
            if ranked@.contains(p) {
                let k = choose|k: int| 0 <= k < ranked@.len() && ranked@[k] == p;
                let m = choose|m: int| 0 <= m < done && pairs@[m] == ranked@[k];
                assert(pairs@[m] == p);
            }
            if pairs@.contains(p) {
                let m = choose|m: int| 0 <= m < pairs@.len() && pairs@[m] == p;
                assert(ranked@.contains(pairs@[m]));
            }
        }
    }
    ranked
}

/// How many entries have a rate strictly above `r`.
pub open spec fn count_above(s: Seq<(u32, Rate)>, r: Rate) -> nat
    decreases s.len(),
{
    if s.len() == 0 {
        0
    } else {
        count_above(s.drop_last(), r) + if s.last().1.le(r) {
            0nat
        } else {
            1nat
        }
    }
}

/// Taking one entry out lowers the count by one if its rate was above `r`.
pub proof fn lemma_count_above_remove(s: Seq<(u32, Rate)>, r: Rate, at: int)
    requires
        0 <= at < s.len(),
    ensures
        count_above(s, r) == count_above(s.remove(at), r) + if s[at].1.le(r) {
            0nat
        } else {
            1nat
        },
    decreases s.len(),
{
    if at == s.len() - 1 {
        assert(s.remove(at) =~= s.drop_last());
    } else {
        lemma_count_above_remove(s.drop_last(), r, at);
        assert(s.remove(at).drop_last() =~= s.drop_last().remove(at));
        assert(s.remove(at).last() == s.last());
    }
}

/// Sequences that hold the same pairs, each as often, have the same number
/// of entries above any rate.
pub proof fn lemma_count_above_permuted(a: Seq<(u32, Rate)>, b: Seq<(u32, Rate)>, r: Rate)
    requires
        a.to_multiset() == b.to_multiset(),
    ensures
        a.len() == b.len(),
        count_above(a, r) == count_above(b, r),
    decreases a.len(),
{
    vstd::seq_lib::to_multiset_len(a);
    vstd::seq_lib::to_multiset_len(b);
    if a.len() > 0 {
        let x = a.last();
        vstd::seq_lib::to_multiset_contains(a, x);
        vstd::seq_lib::to_multiset_contains(b, x);
        assert(a.contains(x)) by {
            assert(a[a.len() - 1] == x);
        }
        let at = choose|at: int| 0 <= at < b.len() && b[at] == x;
        vstd::seq_lib::to_multiset_remove(a, a.len() - 1);
        vstd::seq_lib::to_multiset_remove(b, at);
        assert(a.remove(a.len() - 1) =~= a.drop_last());
        lemma_count_above_permuted(a.drop_last(), b.remove(at), r);
        lemma_count_above_remove(b, r, at);
    }
}

/// In a ranking, an entry whose rate is at most `r` has at most its own
/// index many entries above `r` before it, and none behind.
pub proof fn lemma_count_above_at_most(s: Seq<(u32, Rate)>, r: Rate, at: int)
    requires
        sorted_desc(s),
        0 <= at < s.len(),
        s[at].1.le(r),
    ensures
        count_above(s, r) <= at,
    decreases s.len(),
{
    if at == s.len() - 1 {
        lemma_count_above_bounded(s.drop_last(), r);
    } else {
        assert(s.last() == s[s.len() - 1]);
        assert(s.last().1.le(s[at].1));
        lemma_rate_le_transitive(s.last().1, s[at].1, r);
        let front = s.drop_last();
        assert(sorted_desc(front)) by {
            assert forall|i: int, j: int| 0 <= i < j < front.len() implies (
            #[trigger] front[j]).1.le((#[trigger] front[i]).1) by {
                assert(front[j] == s[j] && front[i] == s[i]);
            }
        }
        lemma_count_above_at_most(front, r, at);
    }
}

/// No more entries are above a rate than there are entries.
pub proof fn lemma_count_above_bounded(s: Seq<(u32, Rate)>, r: Rate)
    ensures
        count_above(s, r) <= s.len(),
    decreases s.len(),
{
    if s.len() > 0 {
        lemma_count_above_bounded(s.drop_last(), r);
    }
}

/// In a ranking, an entry whose rate is above `r` has every entry before it
/// above `r` too.
pub proof fn lemma_count_above_at_least(s: Seq<(u32, Rate)>, r: Rate, at: int)
    requires
        sorted_desc(s),
        0 <= at < s.len(),
        !s[at].1.le(r),
    ensures
        count_above(s, r) >= at + 1,
    decreases s.len(),
{
    let front = s.drop_last();
    assert(sorted_desc(front)) by {
        assert forall|i: int, j: int| 0 <= i < j < front.len() implies (#[trigger] front[j]).1.le(
            (#[trigger] front[i]).1,
        ) by {
            assert(front[j] == s[j] && front[i] == s[i]);
        }
    }
    if at < s.len() - 1 {
        assert(front[at] == s[at]);
        lemma_count_above_at_least(front, r, at);
    } else if at > 0 {
        assert(s[at].1.le(s[at - 1].1));
        if s[at - 1].1.le(r) {
            lemma_rate_le_transitive(s[at].1, s[at - 1].1, r);
        }
        assert(front[at - 1] == s[at - 1]);
        lemma_count_above_at_least(front, r, at - 1);
    }
}

/// The ranking is determined up to the order among equal rates: two
/// rankings of the same pairs have the same rate at every place.
pub proof fn lemma_ranking_unique_up_to_ties(a: Seq<(u32, Rate)>, b: Seq<(u32, Rate)>)
    requires
        sorted_desc(a),
        sorted_desc(b),
        a.to_multiset() == b.to_multiset(),
    ensures
        a.len() == b.len(),
        forall|i: int| 0 <= i < a.len() ==> (#[trigger] a[i]).1.same(b[i].1),
{
    lemma_count_above_permuted(a, b, Rate { bytes: 0, millis: 0 });
    assert forall|i: int| 0 <= i < a.len() implies (#[trigger] a[i]).1.same(b[i].1) by {
        let ra = a[i].1;
        let rb = b[i].1;
        if !ra.le(rb) {
            lemma_count_above_permuted(a, b, rb);
            lemma_count_above_at_least(a, rb, i);
            lemma_count_above_at_most(b, rb, i);
        }
        if !rb.le(ra) {
            lemma_count_above_permuted(a, b, ra);
            lemma_count_above_at_least(b, ra, i);
            lemma_count_above_at_most(a, ra, i);
        }
    }
}

} // verus!
