//! Decoding of the slice of a token account's record.

use vstd::prelude::*;
use vstd::arithmetic::power::{lemma_pow0, lemma_pow_increases, pow};
use crate::model::{Address, DisplayAmount, FetchedAccount, TokenUserData};
use crate::solana::{amount_to_ui_amount_bits, decimals_in_range, ui_amount_bits};

verus! {

/// Length of the slice of a record that holds the owner and the balance.
pub const RECORD_LEN: usize = 40;

/// Length of the owner's address at the start of the slice.
pub const OWNER_LEN: usize = 32;

/// Why a slice could not be decoded.
#[derive(Clone, Copy, Debug, PartialEq, Eq, Structural)]
pub enum DecodeError {
    /// The slice is not `RECORD_LEN` bytes long.
    WrongLength { found: usize },
    /// The mint has more decimal places than a balance can be converted
    /// with.
    Decimals { decimals: u8 },
}

/// The number that eight bytes spell in little-endian order.
pub open spec fn little_endian(s: Seq<u8>) -> int
    recommends
        s.len() == 8,
{
    s[0]
        + 0x100 * s[1]
        + 0x1_0000 * s[2]
        + 0x100_0000 * s[3]
        + 0x1_0000_0000 * s[4]
        + 0x100_0000_0000 * s[5]
        + 0x1_0000_0000_0000 * s[6]
        + 0x100_0000_0000_0000 * s[7]
}

/// Reads the owner and the raw balance from the slice of a token account.
///
/// The first 32 bytes are the owner's address, the last 8 the balance in the
/// token's smallest unit, in little-endian order. A slice of any other length
/// than 40 is an error.
pub fn decode_slice(data: &[u8]) -> (res: Result<(Address, u64), DecodeError>)
    ensures
        res is Ok <==> data@.len() == RECORD_LEN,
        res matches Ok((owner, raw)) ==> {
            &&& owner.bytes@ == data@.subrange(0, OWNER_LEN as int)
            &&& raw == little_endian(data@.subrange(OWNER_LEN as int, RECORD_LEN as int))
        },
        res matches Err(e) ==> e == (DecodeError::WrongLength { found: data.len() }),
{
    if data.len() != RECORD_LEN {
        return Err(DecodeError::WrongLength { found: data.len() });
    }
    let mut bytes = [0u8; 32];
    let mut i: usize = 0;
    while i < OWNER_LEN
        invariant
            i <= OWNER_LEN,
            data@.len() == RECORD_LEN,
            forall|j: int| 0 <= j < i ==> bytes@[j] == data@[j],
        decreases OWNER_LEN - i,
    {
        bytes[i] = data[i];
        i += 1;
    }
    let raw: u64 = data[32] as u64
        + 0x100 * (data[33] as u64)
        + 0x1_0000 * (data[34] as u64)
        + 0x100_0000 * (data[35] as u64)
        + 0x1_0000_0000 * (data[36] as u64)
        + 0x100_0000_0000 * (data[37] as u64)
        + 0x1_0000_0000_0000 * (data[38] as u64)
        + 0x100_0000_0000_0000 * (data[39] as u64);
    Ok((Address { bytes }, raw))
}

/// The address that is made of the given 32 bytes.
pub open spec fn address_of(bytes: Seq<u8>) -> Address
    recommends
        bytes.len() == OWNER_LEN,
{
    choose|address: Address| address.bytes@ == bytes
}

/// An address is the one that is made of its bytes.
pub proof fn lemma_address_of_its_bytes(address: Address)
    ensures
        address_of(address.bytes@) == address,
{
    let other = address_of(address.bytes@);
    assert(other.bytes =~= address.bytes);
}

/// The raw balance that a slice of 40 bytes holds in its last 8 bytes.
pub open spec fn raw_balance(data: Seq<u8>) -> u64
    recommends
        data.len() == RECORD_LEN,
{
    little_endian(data.subrange(OWNER_LEN as int, RECORD_LEN as int)) as u64
}

/// The balance in whole tokens for a raw balance, given the mint's number of
/// decimal places.
pub open spec fn display_amount_of(raw: u64, decimals: u8) -> DisplayAmount {
    DisplayAmount { bits: ui_amount_bits(raw, decimals) }
}

/// The holder that the slice `data` of the token account at `address`
/// describes.
pub open spec fn decoded(address: Address, data: Seq<u8>, decimals: u8) -> TokenUserData
    recommends
        data.len() == RECORD_LEN,
{
    TokenUserData {
        account: address,
        owner: address_of(data.subrange(0, OWNER_LEN as int)),
        amount: display_amount_of(raw_balance(data), decimals),
    }
}

/// Up to nine decimal places are in range on every machine, up to nineteen
/// where a `usize` has 64 bits, and twenty or more nowhere.
pub proof fn lemma_decimals_in_range(decimals: u8)
    ensures
        decimals <= 9 ==> decimals_in_range(decimals),
        decimals <= 19 && usize::MAX >= u64::MAX ==> decimals_in_range(decimals),
        decimals >= 20 ==> !decimals_in_range(decimals),
{
    reveal_with_fuel(pow, 21);
    assert(pow(10, 9) == 1_000_000_000);
    assert(pow(10, 19) == 10_000_000_000_000_000_000);
    assert(pow(10, 20) == 100_000_000_000_000_000_000);
    if decimals <= 9 {
        lemma_pow_increases(10, decimals as nat, 9);
    }
    if decimals <= 19 {
        lemma_pow_increases(10, decimals as nat, 19);
    }
    if decimals >= 20 {
        lemma_pow_increases(10, 20, decimals as nat);
    }
}

/// Tests whether a mint's number of decimal places is one for which a raw
/// balance can be converted to whole tokens.
pub fn supports_decimals(decimals: u8) -> (yes: bool)
    ensures
        yes == decimals_in_range(decimals),
{
    let mut power: usize = 1;
    let mut done: u8 = 0;
    proof {
        lemma_pow0(10);
    }
    while done < decimals
        invariant
            done <= decimals,
            power == pow(10, done as nat),
        decreases decimals - done,
    {
        proof {
            reveal(pow);
        }
        match power.checked_mul(10) {
            Some(next) => {
                power = next;
                done += 1;
            },
            None => {
                proof {
                    lemma_pow_increases(10, (done + 1) as nat, decimals as nat);
                }
                return false;
            },
        }
    }
    true
}

/// Converts a raw balance to whole tokens: the raw balance divided by ten to
/// the power of the mint's number of decimal places.
pub fn display_amount(raw: u64, decimals: u8) -> (amount: DisplayAmount)
    requires
        decimals_in_range(decimals),
    ensures
        amount == display_amount_of(raw, decimals),
{
    DisplayAmount { bits: amount_to_ui_amount_bits(raw, decimals) }
}

/// Decodes what the ledger returned for one token account into a holder,
/// for a mint whose decimal places are in range.
///
/// Fails where the slice is not 40 bytes long.
pub(crate) fn decode_convertible(account: &FetchedAccount, decimals: u8) -> (res: Result<
    TokenUserData,
    DecodeError,
>)
    requires
        decimals_in_range(decimals),
    ensures
        res is Ok <==> account.data@.len() == RECORD_LEN,
        res matches Ok(record) ==> record == decoded(account.address, account.data@, decimals),
        res matches Err(e) ==> e == (DecodeError::WrongLength { found: account.data.len() }),
{
    match decode_slice(account.data.as_slice()) {
        Ok((owner, raw)) => {
            proof {
                lemma_address_of_its_bytes(owner);
            }
            Ok(TokenUserData { account: account.address, owner, amount: display_amount(raw, decimals) })
        },
        Err(e) => Err(e),
    }
}

/// Decodes what the ledger returned for one token account into a holder.
///
/// Fails where the slice is not 40 bytes long, and else where the mint has
/// more decimal places than a balance can be converted with.
pub fn decode_record(account: &FetchedAccount, decimals: u8) -> (res: Result<
    TokenUserData,
    DecodeError,
>)
    ensures
        res is Ok <==> account.data@.len() == RECORD_LEN && decimals_in_range(decimals),
        res matches Ok(record) ==> record == decoded(account.address, account.data@, decimals),
        res matches Err(e) ==> e == if account.data@.len() != RECORD_LEN {
            DecodeError::WrongLength { found: account.data.len() }
        } else {
            DecodeError::Decimals { decimals }
        },
{
    if account.data.len() != RECORD_LEN {
        Err(DecodeError::WrongLength { found: account.data.len() })
    } else if supports_decimals(decimals) {
        decode_convertible(account, decimals)
    } else {
        Err(DecodeError::Decimals { decimals })
    }
}

} // verus!
