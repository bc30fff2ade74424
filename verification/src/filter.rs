//! Which holders are kept.

use vstd::prelude::*;
use crate::model::TokenUserData;
use crate::sequences::lemma_filter_push;
use crate::solana::{on_curve, pubkey_is_on_curve};

verus! {

/// A holder is eligible when its owner is an address on the curve, that is a
/// wallet and no address derived by a program, and its balance is above zero.
pub open spec fn eligible(record: TokenUserData) -> bool {
    on_curve(record.owner.bytes@) && record.amount.above_zero()
}

/// `eligible`, as the predicate of a filter.
pub open spec fn eligibility() -> spec_fn(TokenUserData) -> bool {
    |record: TokenUserData| eligible(record)
}

/// Tests whether a holder is eligible.
pub fn is_eligible(record: &TokenUserData) -> (yes: bool)
    ensures
        yes == eligible(*record),
{
    pubkey_is_on_curve(&record.owner.bytes) && record.amount.is_above_zero()
}

/// Keeps the eligible holders, in the order in which they came.
pub fn filter_eligible(records: &Vec<TokenUserData>) -> (kept: Vec<TokenUserData>)
    ensures
        kept@ == records@.filter(eligibility()),
{
    let mut kept: Vec<TokenUserData> = Vec::new();
    let mut i: usize = 0;
    proof {
        reveal(Seq::filter);
    }
    while i < records.len()
        invariant
            i <= records.len(),
            kept@ == records@.take(i as int).filter(eligibility()),
        decreases records.len() - i,
    {
        let record = records[i];
        proof {
            lemma_filter_push(records@.take(i as int), record, eligibility());
            assert(records@.take(i as int).push(record) =~= records@.take(i + 1));
        }
        if is_eligible(&record) {
            kept.push(record);
        }
        i += 1;
    }
    assert(records@.take(records.len() as int) =~= records@);
    kept
}

} // verus!
