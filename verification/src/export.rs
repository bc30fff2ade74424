//! The rows of the table of holders.

use vstd::prelude::*;
use crate::model::{CsvRow, DisplayAmount, TokenUserData};
use crate::solana::{base58, pubkey_to_string};

verus! {

/// What the row of a holder shows: the account and the owner in Base58, and
/// the balance.
pub open spec fn row_of(record: TokenUserData) -> (Seq<char>, Seq<char>, DisplayAmount) {
    (base58(record.account.bytes@), base58(record.owner.bytes@), record.amount)
}

/// `rows` shows the holders of `records`, one row each, in their order.
pub open spec fn rows_show(rows: Seq<CsvRow>, records: Seq<TokenUserData>) -> bool {
    &&& rows.len() == records.len()
    &&& forall|i: int| 0 <= i < rows.len() ==> (#[trigger] rows[i])@ == row_of(records[i])
}

/// The names of the three columns, in the order of a row's fields.
pub fn header() -> (names: (&'static str, &'static str, &'static str))
    ensures
        names.0@ == "account"@,
        names.1@ == "owner"@,
        names.2@ == "amount"@,
{
    ("account", "owner", "amount")
}

/// Makes the row of one holder.
pub fn csv_row(record: &TokenUserData) -> (row: CsvRow)
    ensures
        row@ == row_of(*record),
{
    CsvRow {
        account: pubkey_to_string(&record.account.bytes),
        owner: pubkey_to_string(&record.owner.bytes),
        amount: record.amount,
    }
}

/// Makes the rows of the holders, in their order.
pub fn csv_rows(records: &Vec<TokenUserData>) -> (rows: Vec<CsvRow>)
    ensures
        rows_show(rows@, records@),
{
    let mut rows: Vec<CsvRow> = Vec::new();
    let mut i: usize = 0;
    while i < records.len()
        invariant
            i <= records.len(),
            rows_show(rows@, records@.take(i as int)),
        decreases records.len() - i,
    {
        let row = csv_row(&records[i]);
        rows.push(row);
        i += 1;
    }
    rows
}

} // verus!
