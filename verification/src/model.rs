//! The values that pass through the ranking of a token's holders.

use vstd::prelude::*;

verus! {

/// Bit pattern of positive infinity in IEEE 754 binary64.
pub const POSITIVE_INFINITY_BITS: u64 = 0x7FF0_0000_0000_0000;

/// Bit pattern of negative zero in IEEE 754 binary64: the sign bit alone.
pub const SIGN_BIT: u64 = 0x8000_0000_0000_0000;

/// A 32-byte address: of a token account, of the wallet that owns one, of a
/// mint or of a program.
#[derive(Clone, Copy, Debug)]
pub struct Address {
    pub bytes: [u8; 32],
}

/// A balance in whole tokens, as shown to people.
///
/// The value is an IEEE 754 binary64 number, held as its bit pattern. The
/// library never does arithmetic on it: it only asks whether it is above
/// zero and orders it.
#[derive(Clone, Copy, Debug)]
pub struct DisplayAmount {
    pub bits: u64,
}

impl DisplayAmount {
    /// Whether the number is greater than zero: a positive finite number or
    /// positive infinity. Both zeros, every negative number and every NaN are
    /// not.
    pub open spec fn above_zero(self) -> bool {
        0 < self.bits <= POSITIVE_INFINITY_BITS
    }

    /// Place of the number in the total order of binary64: negative NaNs
    /// first, then negative infinity, the negative numbers, negative zero,
    /// positive zero, the positive numbers, positive infinity and last the
    /// positive NaNs. A greater key is a later place.
    pub open spec fn key(self) -> int {
        if self.bits < SIGN_BIT {
            self.bits as int
        } else {
            SIGN_BIT - 1 - self.bits
        }
    }

    /// Tests `above_zero`.
    pub fn is_above_zero(&self) -> (yes: bool)
        ensures
            yes == self.above_zero(),
    {
        0 < self.bits && self.bits <= POSITIVE_INFINITY_BITS
    }

    /// Computes `key`.
    pub fn order_key(&self) -> (k: i64)
        ensures
            k == self.key(),
    {
        if self.bits < SIGN_BIT {
            self.bits as i64
        } else {
            let magnitude: u64 = self.bits - SIGN_BIT;
            -1 - (magnitude as i64)
        }
    }
}

/// One holder of a token: the token account, the wallet that owns it, and the
/// balance.
#[derive(Clone, Copy, Debug)]
pub struct TokenUserData {
    pub account: Address,
    pub owner: Address,
    pub amount: DisplayAmount,
}

/// One row of the table of holders: both addresses as text, and the balance.
#[derive(Clone, Debug)]
pub struct CsvRow {
    pub account: String,
    pub owner: String,
    pub amount: DisplayAmount,
}

impl View for CsvRow {
    type V = (Seq<char>, Seq<char>, DisplayAmount);

    /// The account's text, the owner's text and the balance.
    open spec fn view(&self) -> (Seq<char>, Seq<char>, DisplayAmount) {
        (self.account@, self.owner@, self.amount)
    }
}

/// What the ledger returned for one token account: its address and the slice
/// of its record that was asked for.
#[derive(Clone, Debug)]
pub struct FetchedAccount {
    pub address: Address,
    pub data: Vec<u8>,
}

} // verus!
