use solana_sdk::pubkey::Pubkey;
use solana_sdk::signer::keypair::keypair_from_seed;
use solana_sdk::signer::Signer;
use token_users::decode::DecodeError;
use token_users::fetch_token_users::{decode_all, fetch_token_users, FetchError};
use token_users::model::{Address, FetchedAccount};

fn wallet_bytes(seed: u8) -> [u8; 32] {
    keypair_from_seed(&[seed; 32]).unwrap().pubkey().to_bytes()
}

fn derived_bytes(seed: u8) -> [u8; 32] {
    Pubkey::find_program_address(&[&[seed]], &spl_token::ID).0.to_bytes()
}

fn fetched(address: u8, owner: [u8; 32], raw: u64) -> FetchedAccount {
    let mut data = owner.to_vec();
    data.extend_from_slice(&raw.to_le_bytes());
    FetchedAccount { address: Address { bytes: [address; 32] }, data }
}

#[test]
fn one_of_three_accounts_reaches_the_table() {
    let accounts = vec![
        fetched(1, wallet_bytes(1), 25),
        fetched(2, wallet_bytes(2), 0),
        fetched(3, derived_bytes(3), 70),
    ];
    let decoded = decode_all(&accounts, 1).unwrap();
    let shown: Vec<f64> = decoded.iter().map(|record| f64::from_bits(record.amount.bits)).collect();
    assert_eq!(shown, vec![2.5, 0.0, 7.0]);
    let rows = fetch_token_users(&accounts, 1).unwrap();
    assert_eq!(rows.len(), 1);
    assert_eq!(f64::from_bits(rows[0].amount.bits), 2.5);
    assert_eq!(rows[0].account, Pubkey::new_from_array([1u8; 32]).to_string());
    assert_eq!(rows[0].owner, Pubkey::new_from_array(wallet_bytes(1)).to_string());
}

#[test]
fn table_is_ranked_by_balance() {
    let accounts = vec![
        fetched(1, wallet_bytes(1), 1_000_000),
        fetched(2, wallet_bytes(2), 5_000_000),
        fetched(3, wallet_bytes(3), 0),
        fetched(4, wallet_bytes(4), 3_000_000),
        fetched(5, derived_bytes(5), 9_000_000),
        fetched(6, wallet_bytes(6), 5_000_000),
    ];
    let rows = fetch_token_users(&accounts, 6).unwrap();
    let shown: Vec<f64> = rows.iter().map(|row| f64::from_bits(row.amount.bits)).collect();
    assert_eq!(shown, vec![5.0, 5.0, 3.0, 1.0]);
    let addresses: Vec<String> = rows.iter().map(|row| row.account.clone()).collect();
    let expected: Vec<String> =
        [2u8, 6, 4, 1].iter().map(|a| Pubkey::new_from_array([*a; 32]).to_string()).collect();
    assert_eq!(addresses, expected);
}

#[test]
fn table_has_at_most_two_thousand_rows() {
    let mut accounts = Vec::new();
    for number in 0u64..2100 {
        accounts.push(fetched(7, wallet_bytes(u8::try_from(number % 200).unwrap()), number + 1));
    }
    let rows = fetch_token_users(&accounts, 0).unwrap();
    assert_eq!(rows.len(), 2000);
    assert_eq!(f64::from_bits(rows[0].amount.bits), 2100.0);
    assert_eq!(f64::from_bits(rows[1999].amount.bits), 101.0);
}

#[test]
fn no_accounts_give_an_empty_table() {
    assert!(fetch_token_users(&Vec::new(), 9).unwrap().is_empty());
}

#[test]
fn one_bad_slice_fails_the_table() {
    for len in [0usize, 39, 41, 165] {
        let mut accounts = vec![
            fetched(1, wallet_bytes(1), 25),
            fetched(2, wallet_bytes(2), 50),
            fetched(3, wallet_bytes(3), 75),
        ];
        accounts[1].data = vec![0u8; len];
        let expected =
            FetchError::Decode { index: 1, cause: DecodeError::WrongLength { found: len } };
        assert_eq!(fetch_token_users(&accounts, 1).err(), Some(expected));
        assert_eq!(decode_all(&accounts, 1).err(), Some(expected));
    }
}

#[test]
fn first_bad_slice_is_reported() {
    let mut accounts = vec![
        fetched(1, wallet_bytes(1), 25),
        fetched(2, wallet_bytes(2), 50),
        fetched(3, wallet_bytes(3), 75),
    ];
    accounts[0].data = vec![0u8; 41];
    accounts[2].data = vec![0u8; 39];
    let expected = FetchError::Decode { index: 0, cause: DecodeError::WrongLength { found: 41 } };
    assert_eq!(fetch_token_users(&accounts, 1).err(), Some(expected));
}

#[test]
fn no_accounts_give_an_empty_table_whatever_the_decimals() {
    for decimals in [0u8, 9, 19, 20, 255] {
        assert!(fetch_token_users(&Vec::new(), decimals).unwrap().is_empty());
        assert!(decode_all(&Vec::new(), decimals).unwrap().is_empty());
    }
}

#[test]
fn too_many_decimals_fail_the_table() {
    let accounts = vec![fetched(1, wallet_bytes(1), 25), fetched(2, wallet_bytes(2), 0)];
    for decimals in [20u8, 200, 255] {
        let expected = FetchError::Decimals { decimals };
        assert_eq!(fetch_token_users(&accounts, decimals).err(), Some(expected));
        assert_eq!(decode_all(&accounts, decimals).err(), Some(expected));
    }
    assert_eq!(fetch_token_users(&accounts, 9).unwrap().len(), 1);
}

#[test]
fn bad_slice_comes_before_too_many_decimals() {
    let mut accounts = vec![
        fetched(1, wallet_bytes(1), 25),
        fetched(2, wallet_bytes(2), 50),
        fetched(3, wallet_bytes(3), 75),
    ];
    accounts[2].data = vec![0u8; 39];
    let expected = FetchError::Decode { index: 2, cause: DecodeError::WrongLength { found: 39 } };
    assert_eq!(fetch_token_users(&accounts, 20).err(), Some(expected));
    assert_eq!(fetch_token_users(&accounts, 9).err(), Some(expected));
}

#[test]
fn every_decimal_place_in_range_gives_a_table() {
    let accounts = vec![fetched(1, wallet_bytes(1), 25), fetched(2, wallet_bytes(2), 7)];
    for decimals in 0u8..=255 {
        let fits = 10usize.checked_pow(u32::from(decimals)).is_some();
        let result = fetch_token_users(&accounts, decimals);
        assert_eq!(result.is_ok(), fits);
        if let Ok(rows) = result {
            let expected = spl_token::amount_to_ui_amount(25, decimals);
            assert_eq!(rows.len(), 2);
            assert_eq!(rows[0].amount.bits, expected.to_bits());
        }
    }
}
