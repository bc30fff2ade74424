use solana_sdk::pubkey::Pubkey;
use solana_sdk::signer::keypair::keypair_from_seed;
use solana_sdk::signer::Signer;
use token_users::filter::{filter_eligible, is_eligible};
use token_users::model::{Address, DisplayAmount, TokenUserData};

fn wallet(seed: u8) -> Address {
    let keypair = keypair_from_seed(&[seed; 32]).unwrap();
    Address { bytes: keypair.pubkey().to_bytes() }
}

fn derived(seed: u8) -> Address {
    let (address, _) = Pubkey::find_program_address(&[&[seed]], &spl_token::ID);
    Address { bytes: address.to_bytes() }
}

fn holder(account: u8, owner: Address, amount: f64) -> TokenUserData {
    TokenUserData {
        account: Address { bytes: [account; 32] },
        owner,
        amount: DisplayAmount { bits: amount.to_bits() },
    }
}

#[test]
fn wallet_with_a_balance_is_eligible() {
    assert!(is_eligible(&holder(1, wallet(1), 2.5)));
}

#[test]
fn wallet_without_a_balance_is_not_eligible() {
    assert!(!is_eligible(&holder(1, wallet(1), 0.0)));
}

#[test]
fn derived_owner_is_not_eligible() {
    assert!(!is_eligible(&holder(1, derived(1), 7.0)));
    assert!(!is_eligible(&holder(1, derived(1), 0.0)));
}

#[test]
fn eligibility_follows_the_curve_test_of_the_key() {
    for seed in 0u8..40 {
        for owner in [wallet(seed), derived(seed), Address { bytes: [seed; 32] }] {
            let on_curve = Pubkey::new_from_array(owner.bytes).is_on_curve();
            assert_eq!(is_eligible(&holder(1, owner, 1.0)), on_curve);
        }
    }
}

#[test]
fn mixed_set_keeps_the_wallet_with_a_balance() {
    let records = vec![
        holder(1, wallet(1), 0.0),
        holder(2, derived(2), 7.0),
        holder(3, wallet(3), 2.5),
    ];
    let kept = filter_eligible(&records);
    assert_eq!(kept.len(), 1);
    assert_eq!(kept[0].account.bytes, [3u8; 32]);
    assert_eq!(kept[0].owner.bytes, wallet(3).bytes);
    assert_eq!(f64::from_bits(kept[0].amount.bits), 2.5);
}

#[test]
fn filter_keeps_the_order() {
    let records = vec![
        holder(1, wallet(1), 1.0),
        holder(2, wallet(2), 0.0),
        holder(3, wallet(3), 9.0),
        holder(4, derived(4), 3.0),
        holder(5, wallet(5), 0.5),
        holder(6, wallet(6), -1.0),
        holder(7, wallet(7), f64::NAN),
    ];
    let kept = filter_eligible(&records);
    let accounts: Vec<u8> = kept.iter().map(|record| record.account.bytes[0]).collect();
    assert_eq!(accounts, vec![1, 3, 5]);
}

#[test]
fn filter_of_nothing_is_nothing() {
    assert!(filter_eligible(&Vec::new()).is_empty());
}
