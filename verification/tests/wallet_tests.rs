use token_wallet::account::{account_identifier, create_subaccount, default_subaccount, AccountId,
    Subaccount};
use token_wallet::wallet::{WalletError, WalletState};

fn owner_id() -> AccountId {
    let principal: Vec<u8> = vec![0x01, 0x02, 0x03];
    account_identifier(&principal, &default_subaccount()).unwrap()
}

fn recipient_id() -> AccountId {
    let principal: Vec<u8> = vec![0x01, 0x02, 0x03];
    account_identifier(&principal, &create_subaccount(1)).unwrap()
}

#[test]
fn test_transfer() {
    let default_subaccount = Subaccount::from_bytes([0; 32]);
    let test_subaccount = create_subaccount(1);

    let principal: Vec<u8> = vec![0x01, 0x02, 0x03];
    let sender = account_identifier(&principal, &default_subaccount).unwrap();
    let recipient = account_identifier(&principal, &test_subaccount).unwrap();

    let mut state = WalletState::new(sender);
    state.receive_tokens(200).unwrap();

    let _ = state.transfer(&recipient, 100);

    let sender_balance = state.get_balance(&sender);
    let recipient_balance = state.get_balance(&recipient);

    assert_eq!(sender_balance, 100);
    assert_eq!(recipient_balance, 100);
}

#[test]
fn transfer_success_moves_amount() {
    let owner = owner_id();
    let recipient = recipient_id();
    let mut state = WalletState::new(owner);
    state.receive_tokens(200).unwrap();

    let receipt = state.transfer(&recipient, 100);
    assert_eq!(receipt, Ok(0));
    assert_eq!(state.get_balance(&owner), 100);
    assert_eq!(state.get_balance(&recipient), 100);
}

#[test]
fn transfer_insufficient_balance_is_rejected() {
    let owner = owner_id();
    let recipient = recipient_id();
    let mut state = WalletState::new(owner);
    state.receive_tokens(50).unwrap();

    let receipt = state.transfer(&recipient, 100);
    assert_eq!(receipt, Err(WalletError::InsufficientBalance));
    assert_eq!(state.get_balance(&owner), 50);
    assert_eq!(state.get_balance(&recipient), 0);
}

#[test]
fn receive_credits_owner() {
    let owner = owner_id();
    let mut state = WalletState::new(owner);
    assert_eq!(state.get_balance(&owner), 0);

    state.receive_tokens(300).unwrap();
    assert_eq!(state.get_balance(&owner), 300);
}

#[test]
fn unknown_account_has_zero_balance() {
    let owner = owner_id();
    let stranger = AccountId::from_bytes([0xAB; 32]);
    let mut state = WalletState::new(owner);
    state.receive_tokens(500).unwrap();

    assert_eq!(state.get_balance(&stranger), 0);
}

#[test]
fn self_transfer_is_neutral() {
    let owner = owner_id();
    let mut state = WalletState::new(owner);
    state.receive_tokens(200).unwrap();

    let receipt = state.transfer(&owner, 150);
    assert_eq!(receipt, Ok(0));
    assert_eq!(state.get_balance(&owner), 200);
}

#[test]
fn transfers_conserve_the_total() {
    let owner = owner_id();
    let a = recipient_id();
    let b = AccountId::from_bytes([0x11; 32]);
    let mut state = WalletState::new(owner);
    state.receive_tokens(1_000).unwrap();

    state.transfer(&a, 250).unwrap();
    state.transfer(&b, 400).unwrap();
    state.transfer(&a, 50).unwrap();

    let total = state.get_balance(&owner) + state.get_balance(&a) + state.get_balance(&b);
    assert_eq!(total, 1_000);
    assert_eq!(state.get_balance(&owner), 300);
    assert_eq!(state.get_balance(&a), 300);
    assert_eq!(state.get_balance(&b), 400);
}

#[test]
fn reads_are_idempotent() {
    let owner = owner_id();
    let recipient = recipient_id();
    let mut state = WalletState::new(owner);
    state.receive_tokens(77).unwrap();

    let first = state.get_balance(&owner);
    let second = state.get_balance(&owner);
    assert_eq!(first, second);

    let first_absent = state.get_balance(&recipient);
    let second_absent = state.get_balance(&recipient);
    assert_eq!(first_absent, second_absent);
}

#[test]
fn transfer_overflow_is_rejected_atomically() {
    let owner = owner_id();
    let recipient = recipient_id();
    let mut state = WalletState::new(owner);

    state.receive_tokens(u64::MAX).unwrap();
    state.transfer(&recipient, u64::MAX).unwrap();
    state.receive_tokens(100).unwrap();

    let receipt = state.transfer(&recipient, 100);
    assert_eq!(receipt, Err(WalletError::Overflow));
    assert_eq!(state.get_balance(&owner), 100);
    assert_eq!(state.get_balance(&recipient), u64::MAX);
}

#[test]
fn receive_overflow_is_rejected() {
    let owner = owner_id();
    let mut state = WalletState::new(owner);
    state.receive_tokens(u64::MAX).unwrap();

    let outcome = state.receive_tokens(1);
    assert_eq!(outcome, Err(WalletError::Overflow));
    assert_eq!(state.get_balance(&owner), u64::MAX);
}

#[test]
fn oversized_principal_is_malformed() {
    let principal: Vec<u8> = vec![0x01; 30];
    let outcome = account_identifier(&principal, &default_subaccount());
    assert_eq!(outcome, Err(WalletError::MalformedInput));

    let state = WalletState::for_principal(&principal);
    assert!(matches!(state, Err(WalletError::MalformedInput)));
}

#[test]
fn for_principal_derives_the_default_account() {
    let principal: Vec<u8> = vec![0x01, 0x02, 0x03];
    let state = WalletState::for_principal(&principal).unwrap();

    let expected = account_identifier(&principal, &default_subaccount()).unwrap();
    assert_eq!(state.owner_account(), expected);
    assert_eq!(state.get_balance(&expected), 0);
}

#[test]
fn derivation_matches_the_ledger_crate() {
    let principal_bytes: Vec<u8> = vec![0x01, 0x02, 0x03];
    let sub_bytes: [u8; 32] = [7; 32];

    let ours = account_identifier(&principal_bytes, &Subaccount::from_bytes(sub_bytes)).unwrap();

    let principal = candid::Principal::from_slice(&principal_bytes);
    let theirs = ic_ledger_types::AccountIdentifier::new(
        &principal,
        &ic_ledger_types::Subaccount(sub_bytes),
    );
    assert_eq!(ours.to_bytes(), *theirs.as_bytes());
}

#[test]
fn derivation_depends_on_the_subaccount() {
    let principal: Vec<u8> = vec![0x01, 0x02, 0x03];
    let zero = account_identifier(&principal, &default_subaccount()).unwrap();
    let one = account_identifier(&principal, &create_subaccount(1)).unwrap();

    assert!(zero != one);
    assert_ne!(zero.to_bytes().to_vec(), principal);
}

#[test]
fn create_subaccount_sets_the_first_byte() {
    let sub = create_subaccount(9);
    let bytes = sub.to_bytes();
    assert_eq!(bytes[0], 9);
    for i in 1..32 {
        assert_eq!(bytes[i], 0);
    }
    assert_eq!(default_subaccount().to_bytes(), [0u8; 32]);
}

#[test]
fn snapshot_reflects_every_balance() {
    let owner = owner_id();
    let recipient = recipient_id();
    let mut state = WalletState::new(owner);
    state.receive_tokens(900).unwrap();
    state.transfer(&recipient, 300).unwrap();

    let snapshot = state.snapshot();
    assert_eq!(snapshot.len(), 2);
    for (account, amount) in &snapshot {
        assert_eq!(state.get_balance(account), *amount);
    }
    let total: u64 = snapshot.iter().map(|(_, amount)| *amount).sum();
    assert_eq!(total, 900);
}
