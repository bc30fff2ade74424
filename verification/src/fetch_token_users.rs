//! From the token accounts of a mint to the rows of its table of holders.

use vstd::prelude::*;
use vstd::math::min;
use crate::decode::{decode_convertible, decoded, supports_decimals, DecodeError, RECORD_LEN};
use crate::export::{csv_rows, rows_show};
use crate::filter::{eligibility, eligible, filter_eligible};
use crate::model::{CsvRow, FetchedAccount, TokenUserData};
use crate::rank::{descending, lemma_top_ranked, rank, top_ranked, MAX_RANKED};
use crate::sequences::lemma_filter_none;
use crate::solana::decimals_in_range;

verus! {

/// Why the accounts of a mint gave no table.
#[derive(Clone, Copy, Debug, PartialEq, Eq, Structural)]
pub enum FetchError {
    /// The account at `index` came with a slice that is no record.
    Decode { index: usize, cause: DecodeError },
    /// There are accounts, and the mint has more decimal places than their
    /// balances can be converted with.
    Decimals { decimals: u8 },
}

/// Every account came with a slice of the length that a record has.
pub open spec fn well_formed(accounts: Seq<FetchedAccount>) -> bool {
    forall|i: int| 0 <= i < accounts.len() ==> (#[trigger] accounts[i]).data@.len() == RECORD_LEN
}

/// The holders that the accounts describe, one for each account, in their
/// order.
pub open spec fn decoded_all(accounts: Seq<FetchedAccount>, decimals: u8) -> Seq<TokenUserData> {
    accounts.map_values(|account: FetchedAccount| decoded(account.address, account.data@, decimals))
}

/// The eligible holders among the accounts, ranked, down to the last that
/// the table has room for.
pub open spec fn top_holders(accounts: Seq<FetchedAccount>, decimals: u8) -> Seq<TokenUserData> {
    top_ranked(decoded_all(accounts, decimals).filter(eligibility()))
}

/// The table and the accounts.
///
/// The table is descending and holds `MAX_RANKED` holders, or every eligible
/// one where there are fewer. Each of its holders is eligible and is what
/// one of the accounts decodes to. An eligible account is left out only
/// where the table is full, and then the last holder of the table has no
/// smaller balance. The table is empty only where no account is eligible.
pub proof fn lemma_top_holders(accounts: Seq<FetchedAccount>, decimals: u8)
    ensures
        descending(top_holders(accounts, decimals)),
        top_holders(accounts, decimals).len() == min(
            decoded_all(accounts, decimals).filter(eligibility()).len() as int,
            MAX_RANKED as int,
        ),
        top_holders(accounts, decimals).len() <= accounts.len(),
        forall|r: int|
            0 <= r < top_holders(accounts, decimals).len() ==> eligible(
                #[trigger] top_holders(accounts, decimals)[r],
            ),
        forall|r: int|
            0 <= r < top_holders(accounts, decimals).len() ==> decoded_all(
                accounts,
                decimals,
            ).contains(#[trigger] top_holders(accounts, decimals)[r]),
        forall|i: int|
            0 <= i < accounts.len() && eligible(#[trigger] decoded_all(accounts, decimals)[i])
                ==> top_holders(accounts, decimals).contains(decoded_all(accounts, decimals)[i])
                || (top_holders(accounts, decimals).len() == MAX_RANKED && decoded_all(
                accounts,
                decimals,
            )[i].amount.key() <= top_holders(accounts, decimals).last().amount.key()),
        top_holders(accounts, decimals).len() == 0 <==> forall|i: int|
            0 <= i < accounts.len() ==> !eligible(#[trigger] decoded_all(accounts, decimals)[i]),
{
    let all = decoded_all(accounts, decimals);
    let kept = all.filter(eligibility());
    let top = top_holders(accounts, decimals);
    lemma_top_ranked(kept);
    all.lemma_filter_len(eligibility());
    assert forall|r: int| 0 <= r < top.len() implies eligible(#[trigger] top[r]) && all.contains(
        top[r],
    ) by {
        let at = choose|at: int| 0 <= at < kept.len() && kept[at] == top[r];
        all.lemma_filter_pred(eligibility(), at);
        all.lemma_filter_contains_rev(eligibility(), kept[at]);
    }
    assert forall|i: int| 0 <= i < accounts.len() && eligible(#[trigger] all[i]) implies top.contains(
        all[i],
    ) || (top.len() == MAX_RANKED && all[i].amount.key() <= top.last().amount.key()) by {
        all.lemma_filter_contains(eligibility(), i);
        let at = choose|at: int| 0 <= at < kept.len() && kept[at] == all[i];
        assert(top.contains(kept[at]) || (top.len() == MAX_RANKED && kept[at].amount.key()
            <= top.last().amount.key()));
    }
    if forall|i: int| 0 <= i < accounts.len() ==> !eligible(#[trigger] all[i]) {
        lemma_filter_none(all, eligibility());
    }
    if top.len() == 0 {
        assert forall|i: int| 0 <= i < accounts.len() implies !eligible(#[trigger] all[i]) by {
            if eligible(all[i]) {
                all.lemma_filter_contains(eligibility(), i);
            }
        }
    }
}

/// Decodes every account, in order.
///
/// Fails at the first account whose slice is no record. Where every slice
/// is one, fails if there are accounts and the mint has more decimal places
/// than their balances can be converted with.
pub fn decode_all(accounts: &Vec<FetchedAccount>, decimals: u8) -> (res: Result<
    Vec<TokenUserData>,
    FetchError,
>)
    ensures
        res is Ok <==> well_formed(accounts@) && (accounts@.len() == 0 || decimals_in_range(
            decimals,
        )),
        res matches Ok(records) ==> records@ == decoded_all(accounts@, decimals),
        res matches Err(FetchError::Decode { index, cause }) ==> {
            &&& index < accounts@.len()
            &&& accounts@[index as int].data@.len() != RECORD_LEN
            &&& forall|j: int| 0 <= j < index ==> (#[trigger] accounts@[j]).data@.len() == RECORD_LEN
            &&& cause == (DecodeError::WrongLength { found: accounts@[index as int].data.len() })
        },
        res matches Err(FetchError::Decimals { decimals: refused }) ==> {
            &&& refused == decimals
            &&& !decimals_in_range(decimals)
            &&& accounts@.len() > 0
            &&& well_formed(accounts@)
        },
{
    let convertible = supports_decimals(decimals);
    let mut records: Vec<TokenUserData> = Vec::new();
    let mut i: usize = 0;
    while i < accounts.len()
        invariant
            i <= accounts.len(),
            convertible == decimals_in_range(decimals),
            forall|j: int| 0 <= j < i ==> (#[trigger] accounts@[j]).data@.len() == RECORD_LEN,
            records@.len() == if convertible {
                i
            } else {
                0
            },
            forall|j: int|
                0 <= j < records@.len() ==> records@[j] == decoded(
                    accounts@[j].address,
                    accounts@[j].data@,
                    decimals,
                ),
        decreases accounts.len() - i,
    {
        if convertible {
            match decode_convertible(&accounts[i], decimals) {
                Ok(record) => {
                    records.push(record);
                },
                Err(cause) => {
                    return Err(FetchError::Decode { index: i, cause });
                },
            }
        } else if accounts[i].data.len() != RECORD_LEN {
            let cause = DecodeError::WrongLength { found: accounts[i].data.len() };
            return Err(FetchError::Decode { index: i, cause });
        }
        i += 1;
    }
    if !convertible && accounts.len() > 0 {
        return Err(FetchError::Decimals { decimals });
    }
    Ok(records)
}

/// Makes the rows of the table of a mint's holders from the token accounts
/// that the ledger returned for the mint.
///
/// Each account is decoded; the holders that are a wallet with a balance
/// above zero are kept, ranked from the greatest balance down and cut to the
/// first `MAX_RANKED`; each of these gets a row. One account whose slice is
/// no record fails the whole table, and so do decimal places with which the
/// balances cannot be converted. Without accounts the table is empty,
/// whatever the decimal places. `lemma_top_holders` says how the table
/// stands to the accounts.
pub fn fetch_token_users(accounts: &Vec<FetchedAccount>, mint_decimals: u8) -> (res: Result<
    Vec<CsvRow>,
    FetchError,
>)
    ensures
        res is Ok <==> well_formed(accounts@) && (accounts@.len() == 0 || decimals_in_range(
            mint_decimals,
        )),
        res matches Ok(rows) ==> {
            &&& rows_show(rows@, top_holders(accounts@, mint_decimals))
            &&& rows@.len() == min(
                decoded_all(accounts@, mint_decimals).filter(eligibility()).len() as int,
                MAX_RANKED as int,
            )
            &&& descending(top_holders(accounts@, mint_decimals))
            &&& forall|r: int|
                0 <= r < rows@.len() ==> eligible(
                    #[trigger] top_holders(accounts@, mint_decimals)[r],
                )
        },
        res matches Err(FetchError::Decode { index, cause }) ==> {
            &&& index < accounts@.len()
            &&& accounts@[index as int].data@.len() != RECORD_LEN
            &&& forall|j: int| 0 <= j < index ==> (#[trigger] accounts@[j]).data@.len() == RECORD_LEN
            &&& cause == (DecodeError::WrongLength { found: accounts@[index as int].data.len() })
        },
        res matches Err(FetchError::Decimals { decimals }) ==> {
            &&& decimals == mint_decimals
            &&& !decimals_in_range(mint_decimals)
            &&& accounts@.len() > 0
            &&& well_formed(accounts@)
        },
{
    match decode_all(accounts, mint_decimals) {
        Ok(records) => {
            let kept = filter_eligible(&records);
            let top = rank(&kept);
            proof {
                lemma_top_holders(accounts@, mint_decimals);
            }
            Ok(csv_rows(&top))
        },
        Err(e) => Err(e),
    }
}

} // verus!
