//! The query that asks the ledger for the token accounts of a mint.

use vstd::prelude::*;
use crate::decode::RECORD_LEN;
use crate::model::Address;
use crate::solana::{token_program_bytes, token_program_id};

verus! {

/// Length of the record of a token account, in bytes.
pub const ACCOUNT_LEN: u64 = 165;

/// Where the record of a token account holds the address of its mint.
pub const MINT_OFFSET: usize = 0;

/// Where the record of a token account holds its owner, followed by its
/// balance.
pub const OWNER_OFFSET: usize = 32;

/// How settled the state is that a query reads.
#[derive(Clone, Copy, Debug, PartialEq, Eq, Structural)]
pub enum Commitment {
    Processed,
    Confirmed,
    Finalized,
}

/// A query for accounts of one program. The ledger does the matching and
/// the slicing: it returns, of each account that matches, `slice_len` bytes
/// of its record from `slice_offset` on.
#[derive(Clone, Copy, Debug)]
pub struct AccountQuery {
    /// The program that owns the accounts.
    pub program: Address,
    /// The length that the record of a matching account has.
    pub account_len: u64,
    /// Where in its record a matching account holds `match_bytes`.
    pub match_offset: usize,
    /// The bytes that a matching account holds at `match_offset`.
    pub match_bytes: Address,
    /// Where the slice that is returned begins.
    pub slice_offset: usize,
    /// The length of the slice that is returned.
    pub slice_len: usize,
    /// The state that is read.
    pub commitment: Commitment,
}

/// The query for the token accounts of `mint`: the accounts of the SPL Token
/// program that are 165 bytes long and begin with the mint's address. Of
/// each, the 40 bytes from offset 32 on are asked for, which hold the owner
/// and the balance, at the commitment `Confirmed`.
pub fn holders_query(mint: Address) -> (query: AccountQuery)
    ensures
        query.program.bytes@ == token_program_bytes(),
        query.account_len == ACCOUNT_LEN,
        query.match_offset == MINT_OFFSET,
        query.match_bytes == mint,
        query.slice_offset == OWNER_OFFSET,
        query.slice_len == RECORD_LEN,
        query.commitment == Commitment::Confirmed,
{
    AccountQuery {
        program: Address { bytes: token_program_id() },
        account_len: ACCOUNT_LEN,
        match_offset: MINT_OFFSET,
        match_bytes: mint,
        slice_offset: OWNER_OFFSET,
        slice_len: RECORD_LEN,
        commitment: Commitment::Confirmed,
    }
}

} // verus!
