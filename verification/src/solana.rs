//! The calls into the Solana and SPL Token crates.
//!
//! Nothing here is proved. Each function below makes one call, and its
//! contract says what the library takes on trust about that call.

use vstd::prelude::*;
use vstd::arithmetic::power::pow;

verus! {

/// Whether 32 bytes are an address on the Ed25519 curve, as
/// `solana_sdk::pubkey::Pubkey::is_on_curve` decides it: whether they
/// decompress to a point of the curve. An address that is on the curve can be
/// a public key; one that a program derived is not on it.
pub uninterp spec fn on_curve(bytes: Seq<u8>) -> bool;

/// The text of a 32-byte address, as the `Display` impl of
/// `solana_sdk::pubkey::Pubkey` writes it: its Base58 encoding.
pub uninterp spec fn base58(bytes: Seq<u8>) -> Seq<char>;

/// The bit pattern of the binary64 number that
/// `spl_token::amount_to_ui_amount` gives for a raw balance and a mint's
/// number of decimal places: the balance divided by ten to the power of the
/// places.
pub uninterp spec fn ui_amount_bits(raw: u64, decimals: u8) -> u64;

/// The address of the SPL Token program, `spl_token::ID`:
/// `TokenkegQfeZyiNwAJbNbGKPFXCWuBvf9Ss623VQ5DA`.
pub open spec fn token_program_bytes() -> Seq<u8> {
    seq![
        6u8, 221, 246, 225, 215, 101, 161, 147, 217, 203, 225, 70, 206, 235, 121, 172,
        28, 180, 133, 237, 95, 91, 55, 145, 58, 140, 245, 133, 126, 255, 0, 169,
    ]
}

/// Whether the mint's number of decimal places is one that
/// `spl_token::amount_to_ui_amount` can take: it raises ten to that power in
/// a `usize`.
pub open spec fn decimals_in_range(decimals: u8) -> bool {
    pow(10, decimals as nat) <= usize::MAX
}

/// Calls `Pubkey::is_on_curve` on the address made of `bytes`. Trusted: the
/// answer depends on the 32 bytes alone.
#[verifier::external_body]
pub(crate) fn pubkey_is_on_curve(bytes: &[u8; 32]) -> (yes: bool)
    ensures
        yes == on_curve(bytes@),
{
    solana_sdk::pubkey::Pubkey::new_from_array(*bytes).is_on_curve()
}

/// Calls `to_string` on the address made of `bytes`. Trusted: the text
/// depends on the 32 bytes alone.
#[verifier::external_body]
pub(crate) fn pubkey_to_string(bytes: &[u8; 32]) -> (text: String)
    ensures
        text@ == base58(bytes@),
{
    solana_sdk::pubkey::Pubkey::new_from_array(*bytes).to_string()
}

/// Calls `spl_token::amount_to_ui_amount` and hands back the bits of the
/// number it returns. Trusted: the number depends on the two arguments alone.
/// The call overflows where ten to the power of `decimals` does not fit a
/// `usize`, so such a `decimals` is not admitted.
#[verifier::external_body]
pub(crate) fn amount_to_ui_amount_bits(raw: u64, decimals: u8) -> (bits: u64)
    requires
        decimals_in_range(decimals),
    ensures
        bits == ui_amount_bits(raw, decimals),
{
    spl_token::amount_to_ui_amount(raw, decimals).to_bits()
}

/// Reads `spl_token::ID`. Trusted: its 32 bytes are those that the Base58
/// text in the crate's `declare_id!` spells.
#[verifier::external_body]
pub(crate) fn token_program_id() -> (id: [u8; 32])
    ensures
        id@ == token_program_bytes(),
{
    spl_token::ID.to_bytes()
}

} // verus!
