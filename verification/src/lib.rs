//! Ranking of the holders of a token.
//!
//! The accounts that hold a token arrive as fixed-width slices of their
//! on-chain records. This library decodes them, keeps the holders that are
//! real wallets with a positive balance, ranks them by balance and prepares
//! the rows of the table that is written out.
//!
//! - `query`: what to ask the ledger for.
//! - `decode`: from a slice to a holder.
//! - `filter`: which holders are kept.
//! - `rank`: their order, and how many of them stay.
//! - `export`: the rows of the table.
//! - `fetch_token_users`: all of these in a row, for one mint.
//! - `model`: the values that pass between them.
//! - `solana`: the calls into the Solana and SPL Token crates, which are
//!   taken on trust.
//! - `sequences`: facts about filtered sequences that the proofs share.
//!
//! A balance in whole tokens is a binary64 number. The library holds it as
//! its bit pattern and never computes with it, so every contract is a
//! statement about integers, bytes and text.

pub mod model;
pub mod solana;
pub mod sequences;
pub mod query;
pub mod decode;
pub mod filter;
pub mod rank;
pub mod export;
pub mod fetch_token_users;
