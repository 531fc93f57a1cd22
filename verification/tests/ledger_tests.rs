use token_balance::AccountId;
use token_balance::Error;
use token_balance::TokenBalance;
use token_balance::TokensMinted;
use token_balance::TokensTransferred;

fn acct(id: u64) -> AccountId {
    AccountId { id }
}

#[test]
fn new_ledger_is_empty() {
    let a = acct(1);
    let ledger = TokenBalance::new(a);
    assert_eq!(ledger.total_supply(), 0);
    assert_eq!(ledger.owner(), a);
    assert!(!ledger.is_paused());
    assert_eq!(ledger.balance_of(acct(2)), 0);
    assert_eq!(ledger.allowance(acct(2), acct(3)), 0);
    assert!(!ledger.is_blacklisted(acct(2)));
}

#[test]
fn mint_by_admin_succeeds_and_by_others_fails() {
    let a = acct(1);
    let b = acct(2);
    let c = acct(3);
    let mut ledger = TokenBalance::new(a);
    let minted = ledger.mint(a, b, 100);
    assert_eq!(minted, Ok(TokensMinted { to: b, amount: 100 }));
    assert_eq!(ledger.balance_of(b), 100);
    assert_eq!(ledger.total_supply(), 100);
    let refused = ledger.mint(c, b, 100);
    assert_eq!(refused, Err(Error::NotOwner));
    assert_eq!(ledger.balance_of(b), 100);
    assert_eq!(ledger.total_supply(), 100);
}

#[test]
fn transfer_moves_tokens_and_reports_the_notification() {
    let a = acct(1);
    let b = acct(2);
    let c = acct(3);
    let mut ledger = TokenBalance::new(a);
    ledger.mint(a, b, 100).unwrap();
    let sent = ledger.transfer(b, c, 60);
    assert_eq!(sent, Ok(TokensTransferred { from: b, to: c, amount: 60 }));
    assert_eq!(ledger.balance_of(b), 40);
    assert_eq!(ledger.balance_of(c), 60);
    assert_eq!(ledger.total_supply(), 100);
}

#[test]
fn transfer_without_balance_fails_and_changes_nothing() {
    let a = acct(1);
    let b = acct(2);
    let c = acct(3);
    let mut ledger = TokenBalance::new(a);
    assert_eq!(ledger.transfer(b, c, 1), Err(Error::InsufficientBalance));
    assert_eq!(ledger.balance_of(b), 0);
    assert_eq!(ledger.balance_of(c), 0);
    assert_eq!(ledger.total_supply(), 0);
}

#[test]
fn blacklisted_sender_cannot_transfer() {
    let a = acct(1);
    let b = acct(2);
    let c = acct(3);
    let mut ledger = TokenBalance::new(a);
    ledger.mint(a, b, 10).unwrap();
    ledger.blacklist(a, b).unwrap();
    assert!(ledger.is_blacklisted(b));
    assert_eq!(ledger.transfer(b, c, 1), Err(Error::InvalidAmount));
    assert_eq!(ledger.balance_of(b), 10);
    assert_eq!(ledger.balance_of(c), 0);
}

#[test]
fn blacklisted_recipient_cannot_receive() {
    let a = acct(1);
    let b = acct(2);
    let c = acct(3);
    let mut ledger = TokenBalance::new(a);
    ledger.mint(a, b, 10).unwrap();
    ledger.blacklist(a, c).unwrap();
    assert_eq!(ledger.transfer(b, c, 1), Err(Error::InvalidAmount));
    assert_eq!(ledger.balance_of(c), 0);
}

#[test]
fn pause_blocks_transfers_and_unpause_restores_them() {
    let a = acct(1);
    let b = acct(2);
    let c = acct(3);
    let mut ledger = TokenBalance::new(a);
    ledger.mint(a, b, 10).unwrap();
    ledger.pause(a).unwrap();
    assert!(ledger.is_paused());
    assert_eq!(ledger.transfer(b, c, 1), Err(Error::InvalidAmount));
    ledger.unpause(a).unwrap();
    assert!(!ledger.is_paused());
    assert!(ledger.transfer(b, c, 1).is_ok());
    assert_eq!(ledger.balance_of(c), 1);
}

#[test]
fn privileged_operations_reject_non_admin_callers() {
    let a = acct(1);
    let b = acct(2);
    let mut ledger = TokenBalance::new(a);
    assert_eq!(ledger.pause(b), Err(Error::NotOwner));
    assert_eq!(ledger.unpause(b), Err(Error::NotOwner));
    assert_eq!(ledger.blacklist(b, b), Err(Error::NotOwner));
    assert_eq!(ledger.unblacklist(b, b), Err(Error::NotOwner));
    assert!(!ledger.is_paused());
    assert!(!ledger.is_blacklisted(b));
}

#[test]
fn unpause_twice_is_idempotent() {
    let a = acct(1);
    let b = acct(2);
    let mut ledger = TokenBalance::new(a);
    ledger.mint(a, b, 5).unwrap();
    ledger.pause(a).unwrap();
    ledger.unpause(a).unwrap();
    let paused_once = ledger.is_paused();
    assert_eq!(ledger.unpause(a), Ok(()));
    assert_eq!(ledger.is_paused(), paused_once);
    assert_eq!(ledger.balance_of(b), 5);
    assert_eq!(ledger.total_supply(), 5);
}

#[test]
fn blacklist_twice_is_idempotent() {
    let a = acct(1);
    let b = acct(2);
    let mut ledger = TokenBalance::new(a);
    ledger.blacklist(a, b).unwrap();
    assert!(ledger.is_blacklisted(b));
    assert_eq!(ledger.blacklist(a, b), Ok(()));
    assert!(ledger.is_blacklisted(b));
    assert!(!ledger.is_blacklisted(acct(3)));
    ledger.unblacklist(a, b).unwrap();
    assert!(!ledger.is_blacklisted(b));
}

#[test]
fn approve_overwrites_without_accumulating() {
    let a = acct(1);
    let b = acct(2);
    let s = acct(4);
    let mut ledger = TokenBalance::new(a);
    assert_eq!(ledger.approve(b, s, 50), Ok(()));
    assert_eq!(ledger.allowance(b, s), 50);
    assert_eq!(ledger.approve(b, s, 20), Ok(()));
    assert_eq!(ledger.allowance(b, s), 20);
    assert_eq!(ledger.allowance(s, b), 0);
}

#[test]
fn zero_amounts_are_rejected_everywhere() {
    let a = acct(1);
    let b = acct(2);
    let c = acct(3);
    let mut ledger = TokenBalance::new(a);
    ledger.mint(a, b, 10).unwrap();
    assert_eq!(ledger.mint(a, b, 0), Err(Error::InvalidAmount));
    assert_eq!(ledger.transfer(b, c, 0), Err(Error::InvalidAmount));
    assert_eq!(ledger.burn(b, 0), Err(Error::InvalidAmount));
    assert_eq!(ledger.transfer_from(c, b, c, 0), Err(Error::InvalidAmount));
    assert_eq!(ledger.balance_of(b), 10);
    assert_eq!(ledger.total_supply(), 10);
}

#[test]
fn transfer_to_oneself_is_rejected_even_with_funds() {
    let a = acct(1);
    let b = acct(2);
    let mut ledger = TokenBalance::new(a);
    ledger.mint(a, b, 10).unwrap();
    assert_eq!(ledger.transfer(b, b, 5), Err(Error::TransferToSelf));
    assert_eq!(ledger.balance_of(b), 10);
}

#[test]
fn transfer_from_spends_the_allowance() {
    let a = acct(1);
    let b = acct(2);
    let c = acct(3);
    let s = acct(4);
    let mut ledger = TokenBalance::new(a);
    ledger.mint(a, b, 100).unwrap();
    ledger.approve(b, s, 50).unwrap();
    assert_eq!(ledger.transfer_from(s, b, c, 30), Ok(()));
    assert_eq!(ledger.allowance(b, s), 20);
    assert_eq!(ledger.balance_of(c), 30);
    assert_eq!(ledger.balance_of(b), 70);
    assert_eq!(ledger.transfer_from(s, b, c, 30), Err(Error::InsufficientBalance));
    assert_eq!(ledger.allowance(b, s), 20);
    assert_eq!(ledger.balance_of(c), 30);
}

#[test]
fn transfer_from_needs_the_source_balance_too() {
    let a = acct(1);
    let b = acct(2);
    let c = acct(3);
    let s = acct(4);
    let mut ledger = TokenBalance::new(a);
    ledger.approve(b, s, 50).unwrap();
    assert_eq!(ledger.transfer_from(s, b, c, 30), Err(Error::InsufficientBalance));
    assert_eq!(ledger.balance_of(c), 0);
}

#[test]
fn burn_debits_the_caller_and_the_supply() {
    let a = acct(1);
    let b = acct(2);
    let mut ledger = TokenBalance::new(a);
    ledger.mint(a, b, 100).unwrap();
    assert_eq!(ledger.burn(b, 40), Ok(()));
    assert_eq!(ledger.balance_of(b), 60);
    assert_eq!(ledger.total_supply(), 60);
    assert_eq!(ledger.burn(b, 61), Err(Error::InsufficientBalance));
    assert_eq!(ledger.balance_of(b), 60);
    assert_eq!(ledger.total_supply(), 60);
}

#[test]
fn mint_overflow_is_rejected_atomically() {
    let a = acct(1);
    let b = acct(2);
    let c = acct(3);
    let mut ledger = TokenBalance::new(a);
    ledger.mint(a, b, u128::MAX).unwrap();
    assert_eq!(ledger.total_supply(), u128::MAX);
    assert_eq!(ledger.mint(a, c, 1), Err(Error::InvalidAmount));
    assert_eq!(ledger.balance_of(c), 0);
    assert_eq!(ledger.total_supply(), u128::MAX);
}

#[test]
fn my_balance_reads_the_callers_balance() {
    let a = acct(1);
    let b = acct(2);
    let mut ledger = TokenBalance::new(a);
    ledger.mint(a, b, 7).unwrap();
    assert_eq!(ledger.my_balance(b), 7);
    assert_eq!(ledger.my_balance(a), 0);
}

#[test]
fn self_directed_transfer_from_inflates_the_balance() {
    // The delegated transfer does not reject a source equal to the
    // destination; the destination credit is written last and wins, so the
    // account gains the amount while the supply stays put.
    let a = acct(1);
    let b = acct(2);
    let s = acct(4);
    let mut ledger = TokenBalance::new(a);
    ledger.mint(a, b, 100).unwrap();
    ledger.approve(b, s, 200).unwrap();
    assert_eq!(ledger.transfer_from(s, b, b, 100), Ok(()));
    assert_eq!(ledger.balance_of(b), 200);
    assert_eq!(ledger.total_supply(), 100);
    assert_eq!(ledger.allowance(b, s), 100);
}

#[test]
fn burn_saturates_the_supply_after_a_divergence() {
    // Once the supply counter has fallen behind the combined balances, a
    // large burn debits the balance exactly but clamps the supply at zero
    // instead of wrapping: the checked/saturating asymmetry made visible.
    let a = acct(1);
    let b = acct(2);
    let s = acct(4);
    let mut ledger = TokenBalance::new(a);
    ledger.mint(a, b, 100).unwrap();
    ledger.approve(b, s, 200).unwrap();
    ledger.transfer_from(s, b, b, 100).unwrap();
    assert_eq!(ledger.balance_of(b), 200);
    assert_eq!(ledger.total_supply(), 100);
    assert_eq!(ledger.burn(b, 150), Ok(()));
    assert_eq!(ledger.balance_of(b), 50);
    assert_eq!(ledger.total_supply(), 0);
}
