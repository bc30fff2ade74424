//! The ranking of holders by balance.

use vstd::prelude::*;
use vstd::math::min;
use crate::model::TokenUserData;
use crate::sequences::{lemma_filter_count, lemma_filter_none, lemma_filter_push};

verus! {

/// How many holders a ranking keeps at most.
pub const MAX_RANKED: usize = 2000;

/// No holder stands before one with a greater balance.
pub open spec fn descending(s: Seq<TokenUserData>) -> bool {
    forall|i: int, j: int| 0 <= i <= j < s.len() ==> s[i].amount.key() >= s[j].amount.key()
}

/// The holders whose balance has the place `k` in the order of balances.
pub open spec fn with_key(k: int) -> spec_fn(TokenUserData) -> bool {
    |record: TokenUserData| record.amount.key() == k
}

/// For each balance, the two sequences hold the same holders with that
/// balance, in the same order.
pub open spec fn ties_in_order(ranked: Seq<TokenUserData>, records: Seq<TokenUserData>) -> bool {
    forall|k: int| #![trigger with_key(k)] ranked.filter(with_key(k)) == records.filter(with_key(k))
}

/// `ranked` holds the holders of `records` from the greatest balance down,
/// and holders with equal balances in the order in which `records` has them.
pub open spec fn is_ranking_of(ranked: Seq<TokenUserData>, records: Seq<TokenUserData>) -> bool {
    descending(ranked) && ties_in_order(ranked, records)
}

/// The ranking of `records`: the one sequence that `is_ranking_of` them.
pub open spec fn ranking(records: Seq<TokenUserData>) -> Seq<TokenUserData> {
    choose|ranked: Seq<TokenUserData>| is_ranking_of(ranked, records)
}

/// The head of the ranking of `records`: its first `MAX_RANKED` holders, or
/// all of them where there are fewer.
pub open spec fn top_ranked(records: Seq<TokenUserData>) -> Seq<TokenUserData> {
    ranking(records).take(min(records.len() as int, MAX_RANKED as int))
}

/// Two sequences that hold the same holders for each balance hold the same
/// holders, each as often as the other: one is a rearrangement of the other.
pub proof fn lemma_ties_in_order_rearranges(a: Seq<TokenUserData>, b: Seq<TokenUserData>)
    requires
        ties_in_order(a, b),
    ensures
        a.to_multiset() == b.to_multiset(),
        a.len() == b.len(),
{
    broadcast use vstd::seq_lib::group_to_multiset_ensures;

    assert forall|x: TokenUserData| a.to_multiset().count(x) == b.to_multiset().count(x) by {
        let keep = with_key(x.amount.key());
        lemma_filter_count(a, keep, x);
        lemma_filter_count(b, keep, x);
    }
    assert(b.len() == b.to_multiset().len());
}

/// A sequence of holders has at most one ranking.
pub proof fn lemma_ranking_unique(
    a: Seq<TokenUserData>,
    b: Seq<TokenUserData>,
    records: Seq<TokenUserData>,
)
    requires
        is_ranking_of(a, records),
        is_ranking_of(b, records),
    ensures
        a == b,
{
    assert forall|k: int| #![trigger with_key(k)] a.filter(with_key(k)) == b.filter(
        with_key(k),
    ) by {
        assert(a.filter(with_key(k)) == records.filter(with_key(k)));
    }
    lemma_descending_with_ties_in_order_equal(a, b);
}

/// Two descending sequences that hold the same holders for each balance, in
/// the same order, are equal.
proof fn lemma_descending_with_ties_in_order_equal(a: Seq<TokenUserData>, b: Seq<TokenUserData>)
    requires
        descending(a),
        descending(b),
        ties_in_order(a, b),
    ensures
        a == b,
    decreases a.len(),
{
    lemma_ties_in_order_rearranges(a, b);
    if a.len() > 0 {
        let ka = a.last().amount.key();
        let kb = b.last().amount.key();
        let a_front = a.drop_last();
        let b_front = b.drop_last();
        assert(a =~= a_front.push(a.last()));
        assert(b =~= b_front.push(b.last()));
        lemma_filter_push(a_front, a.last(), with_key(ka));
        lemma_filter_push(b_front, b.last(), with_key(kb));
        // The balance of the last of `a` occurs in `b`, so the last of `b`
        // has no greater one; and the other way round.
        assert(ka >= kb) by {
            let kept = b.filter(with_key(ka));
            b.lemma_filter_pred(with_key(ka), 0);
            b.lemma_filter_contains_rev(with_key(ka), kept[0]);
            let i = choose|i: int| 0 <= i < b.len() && b[i] == kept[0];
            assert(b[i].amount.key() >= b.last().amount.key());
        }
        assert(kb >= ka) by {
            let kept = a.filter(with_key(kb));
            a.lemma_filter_pred(with_key(kb), 0);
            a.lemma_filter_contains_rev(with_key(kb), kept[0]);
            let i = choose|i: int| 0 <= i < a.len() && a[i] == kept[0];
            assert(a[i].amount.key() >= a.last().amount.key());
        }
        // So both end in the last holder with that balance, and what stands
        // before it is equal by induction.
        assert(a.last() == b.last()) by {
            assert(a.filter(with_key(ka)).last() == a.last());
            assert(b.filter(with_key(ka)).last() == b.last());
        }
        assert forall|k: int| #![trigger with_key(k)] a_front.filter(with_key(k)) == b_front.filter(
            with_key(k),
        ) by {
            lemma_filter_push(a_front, a.last(), with_key(k));
            lemma_filter_push(b_front, b.last(), with_key(k));
            if k == ka {
                assert(a_front.filter(with_key(k)) =~= a.filter(with_key(k)).drop_last());
                assert(b_front.filter(with_key(k)) =~= b.filter(with_key(k)).drop_last());
            }
        }
        lemma_descending_with_ties_in_order_equal(a_front, b_front);
    }
}

/// `ranked` with `record` put behind every holder whose balance is not below
/// its own.
spec fn placed(ranked: Seq<TokenUserData>, record: TokenUserData) -> Seq<TokenUserData>
    decreases ranked.len(),
{
    if ranked.len() == 0 || ranked.last().amount.key() >= record.amount.key() {
        ranked.push(record)
    } else {
        placed(ranked.drop_last(), record).push(ranked.last())
    }
}

/// Placing a holder into a descending sequence gives a descending sequence
/// with that holder added behind those of its own balance.
proof fn lemma_placed(ranked: Seq<TokenUserData>, record: TokenUserData)
    requires
        descending(ranked),
    ensures
        descending(placed(ranked, record)),
        placed(ranked, record).len() == ranked.len() + 1,
        forall|i: int|
            0 <= i < placed(ranked, record).len() ==> placed(ranked, record)[i] == record
                || ranked.contains(#[trigger] placed(ranked, record)[i]),
        forall|k: int|
            #![trigger with_key(k)]
            placed(ranked, record).filter(with_key(k)) == if record.amount.key() == k {
                ranked.filter(with_key(k)).push(record)
            } else {
                ranked.filter(with_key(k))
            },
    decreases ranked.len(),
{
    let out = placed(ranked, record);
    if ranked.len() == 0 || ranked.last().amount.key() >= record.amount.key() {
        assert forall|i: int| 0 <= i < out.len() implies out[i] == record || ranked.contains(
            #[trigger] out[i],
        ) by {
            if i < ranked.len() {
                assert(ranked[i] == out[i]);
            }
        }
        assert forall|k: int| #![trigger with_key(k)] out.filter(with_key(k)) == if record.amount.key()
            == k {
            ranked.filter(with_key(k)).push(record)
        } else {
            ranked.filter(with_key(k))
        } by {
            lemma_filter_push(ranked, record, with_key(k));
        }
    } else {
        let front = ranked.drop_last();
        let last = ranked.last();
        let inner = placed(front, record);
        lemma_placed(front, record);
        assert(ranked =~= front.push(last));
        assert forall|i: int| 0 <= i < out.len() implies out[i] == record || ranked.contains(
            #[trigger] out[i],
        ) by {
            if i == inner.len() {
                assert(ranked[ranked.len() - 1] == out[i]);
            } else if inner[i] != record {
                let at = choose|at: int| 0 <= at < front.len() && front[at] == inner[i];
                assert(ranked[at] == out[i]);
            }
        }
        assert forall|i: int, j: int| 0 <= i <= j < out.len() implies out[i].amount.key()
            >= out[j].amount.key() by {
            if j < inner.len() {
                assert(out[i] == inner[i] && out[j] == inner[j]);
            } else if i < inner.len() && inner[i] != record {
                let at = choose|at: int| 0 <= at < front.len() && front[at] == inner[i];
                assert(ranked[at].amount.key() >= last.amount.key());
            }
        }
        assert forall|k: int| #![trigger with_key(k)] out.filter(with_key(k)) == if record.amount.key()
            == k {
            ranked.filter(with_key(k)).push(record)
        } else {
            ranked.filter(with_key(k))
        } by {
            lemma_filter_push(inner, last, with_key(k));
            lemma_filter_push(front, last, with_key(k));
        }
    }
}

/// The holders of `records`, placed one after the other.
spec fn placed_all(records: Seq<TokenUserData>) -> Seq<TokenUserData>
    decreases records.len(),
{
    if records.len() == 0 {
        records
    } else {
        placed(placed_all(records.drop_last()), records.last())
    }
}

/// Every sequence of holders has a ranking, so `ranking` is one.
pub proof fn lemma_ranking_exists(records: Seq<TokenUserData>)
    ensures
        is_ranking_of(ranking(records), records),
{
    lemma_placed_all(records);
}

proof fn lemma_placed_all(records: Seq<TokenUserData>)
    ensures
        is_ranking_of(placed_all(records), records),
    decreases records.len(),
{
    if records.len() > 0 {
        let front = records.drop_last();
        let last = records.last();
        lemma_placed_all(front);
        lemma_placed(placed_all(front), last);
        assert(records =~= front.push(last));
        assert forall|k: int| #![trigger with_key(k)] placed_all(records).filter(with_key(k))
            == records.filter(with_key(k)) by {
            lemma_filter_push(front, last, with_key(k));
        }
    }
}

/// The ranking of holders is a rearrangement of them, from the greatest
/// balance down.
pub proof fn lemma_ranking(records: Seq<TokenUserData>)
    ensures
        descending(ranking(records)),
        ties_in_order(ranking(records), records),
        ranking(records).to_multiset() == records.to_multiset(),
        ranking(records).len() == records.len(),
{
    lemma_ranking_exists(records);
    lemma_ties_in_order_rearranges(ranking(records), records);
}

/// The head of a ranking is descending, holds `MAX_RANKED` holders or all of
/// them where there are fewer, holds only holders that were ranked, and no
/// holder that it leaves out has a greater balance than one that it keeps: a
/// holder is left out only where the head is full, and then the last of the
/// head has no smaller balance.
pub proof fn lemma_top_ranked(records: Seq<TokenUserData>)
    ensures
        descending(top_ranked(records)),
        top_ranked(records).len() == min(records.len() as int, MAX_RANKED as int),
        forall|i: int|
            0 <= i < top_ranked(records).len() ==> records.contains(
                #[trigger] top_ranked(records)[i],
            ),
        forall|i: int, j: int|
            0 <= i < top_ranked(records).len() <= j < records.len() ==> top_ranked(
                records,
            )[i].amount.key() >= ranking(records)[j].amount.key(),
        forall|i: int|
            0 <= i < records.len() ==> top_ranked(records).contains(#[trigger] records[i]) || (
            top_ranked(records).len() == MAX_RANKED && records[i].amount.key() <= top_ranked(
                records,
            ).last().amount.key()),
{
    broadcast use vstd::seq_lib::group_to_multiset_ensures;

    lemma_ranking(records);
    let all = ranking(records);
    let top = top_ranked(records);
    assert forall|i: int| 0 <= i < records.len() implies top.contains(#[trigger] records[i]) || (
    top.len() == MAX_RANKED && records[i].amount.key() <= top.last().amount.key()) by {
        assert(records.contains(records[i]));
        assert(all.to_multiset().count(records[i]) > 0);
        let at = choose|at: int| 0 <= at < all.len() && all[at] == records[i];
        if at < top.len() {
            assert(top[at] == records[i]);
        } else {
            assert(top.last() == all[top.len() - 1]);
        }
    }
    assert forall|i: int| 0 <= i < top.len() implies records.contains(#[trigger] top[i]) by {
        assert(all.contains(all[i]));
        assert(records.to_multiset().count(all[i]) > 0);
    }
    assert forall|i: int, j: int| 0 <= i <= j < top.len() implies top[i].amount.key()
        >= top[j].amount.key() by {
        assert(top[i] == all[i] && top[j] == all[j]);
    }
}

/// Merges two descending runs into one. Where a holder of `left` and one of
/// `right` have equal balances, the one of `left` comes first.
fn merge(left: &Vec<TokenUserData>, right: &Vec<TokenUserData>) -> (merged: Vec<TokenUserData>)
    requires
        descending(left@),
        descending(right@),
    ensures
        descending(merged@),
        forall|k: int|
            #![trigger with_key(k)]
            merged@.filter(with_key(k)) == left@.filter(with_key(k)) + right@.filter(with_key(k)),
{
    let mut merged: Vec<TokenUserData> = Vec::new();
    let mut i: usize = 0;
    let mut j: usize = 0;
    proof {
        assert forall|k: int| #![trigger with_key(k)] merged@.filter(with_key(k)) == left@.take(
            0,
        ).filter(with_key(k)) + right@.take(0).filter(with_key(k)) by {
            lemma_filter_none(Seq::<TokenUserData>::empty(), with_key(k));
        }
    }
    while i < left.len() || j < right.len()
        invariant
            i <= left.len(),
            j <= right.len(),
            descending(left@),
            descending(right@),
            descending(merged@),
            forall|x: int|
                0 <= x < merged@.len() && i < left.len() ==> merged@[x].amount.key()
                    >= left@[i as int].amount.key(),
            forall|x: int|
                0 <= x < merged@.len() && j < right.len() ==> merged@[x].amount.key()
                    >= right@[j as int].amount.key(),
            forall|y: int|
                0 <= y < j && i < left.len() ==> right@[y].amount.key() > left@[i as int].amount.key(),
            forall|k: int|
                #![trigger with_key(k)]
                merged@.filter(with_key(k)) == left@.take(i as int).filter(with_key(k))
                    + right@.take(j as int).filter(with_key(k)),
        decreases left.len() - i + right.len() - j,
    {
        let from_left = if i >= left.len() {
            false
        } else if j >= right.len() {
            true
        } else {
            left[i].amount.order_key() >= right[j].amount.order_key()
        };
        if from_left {
            let record = left[i];
            proof {
                assert(left@.take(i as int).push(record) =~= left@.take(i + 1));
                assert forall|k: int| #![trigger with_key(k)] merged@.push(record).filter(
                    with_key(k),
                ) == left@.take(i + 1).filter(with_key(k)) + right@.take(j as int).filter(
                    with_key(k),
                ) by {
                    lemma_filter_push(merged@, record, with_key(k));
                    lemma_filter_push(left@.take(i as int), record, with_key(k));
                    if record.amount.key() == k {
                        // What was taken from the right has a greater balance.
                        lemma_filter_none(right@.take(j as int), with_key(k));
                    }
                }
            }
            merged.push(record);
            i += 1;
        } else {
            let record = right[j];
            proof {
                assert(right@.take(j as int).push(record) =~= right@.take(j + 1));
                assert forall|k: int| #![trigger with_key(k)] merged@.push(record).filter(
                    with_key(k),
                ) == left@.take(i as int).filter(with_key(k)) + right@.take(j + 1).filter(
                    with_key(k),
                ) by {
                    lemma_filter_push(merged@, record, with_key(k));
                    lemma_filter_push(right@.take(j as int), record, with_key(k));
                }
            }
            merged.push(record);
            j += 1;
        }
    }
    proof {
        assert(left@.take(left.len() as int) =~= left@);
        assert(right@.take(right.len() as int) =~= right@);
    }
    merged
}

/// Ranks the holders of `records` from `lo` up to `hi`.
fn sort_range(records: &Vec<TokenUserData>, lo: usize, hi: usize) -> (ranked: Vec<TokenUserData>)
    requires
        lo <= hi <= records.len(),
    ensures
        is_ranking_of(ranked@, records@.subrange(lo as int, hi as int)),
    decreases hi - lo,
{
    let ghost part = records@.subrange(lo as int, hi as int);
    if hi - lo <= 1 {
        let mut ranked: Vec<TokenUserData> = Vec::new();
        if hi - lo == 1 {
            ranked.push(records[lo]);
        }
        assert(ranked@ =~= part);
        ranked
    } else {
        let mid = lo + (hi - lo) / 2;
        let left = sort_range(records, lo, mid);
        let right = sort_range(records, mid, hi);
        let ranked = merge(&left, &right);
        proof {
            let left_part = records@.subrange(lo as int, mid as int);
            let right_part = records@.subrange(mid as int, hi as int);
            assert(part =~= left_part + right_part);
            assert forall|k: int| #![trigger with_key(k)] ranked@.filter(with_key(k))
                == part.filter(with_key(k)) by {
                Seq::filter_distributes_over_add(left_part, right_part, with_key(k));
            }
        }
        ranked
    }
}

/// Ranks holders from the greatest balance down. Holders with equal balances
/// keep the order in which they came.
pub fn sort_descending(records: &Vec<TokenUserData>) -> (ranked: Vec<TokenUserData>)
    ensures
        is_ranking_of(ranked@, records@),
        ranked@ == ranking(records@),
        ranked@.to_multiset() == records@.to_multiset(),
        ranked@.len() == records@.len(),
{
    let ranked = sort_range(records, 0, records.len());
    proof {
        assert(records@.subrange(0, records.len() as int) =~= records@);
        lemma_ranking_unique(ranked@, ranking(records@), records@);
        lemma_ties_in_order_rearranges(ranked@, records@);
    }
    ranked
}

/// Ranks holders from the greatest balance down and keeps the first
/// `MAX_RANKED` of them. Holders with equal balances keep the order in which
/// they came.
pub fn rank(records: &Vec<TokenUserData>) -> (top: Vec<TokenUserData>)
    ensures
        top@ == top_ranked(records@),
        top@.len() == min(records@.len() as int, MAX_RANKED as int),
        descending(top@),
{
    let mut top = sort_descending(records);
    top.truncate(MAX_RANKED);
    proof {
        lemma_top_ranked(records@);
    }
    top
}

} // verus!
