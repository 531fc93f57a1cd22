use token_balance::AccountId;
use token_balance::Error;
use token_balance::TokenBalance;

fn acct(id: u64) -> AccountId {
    AccountId { id }
}

#[test]
fn batch_transfer_credits_everyone_and_debits_once() {
    let a = acct(1);
    let b = acct(2);
    let x = acct(5);
    let y = acct(6);
    let mut ledger = TokenBalance::new(a);
    ledger.mint(a, b, 100).unwrap();
    assert_eq!(ledger.batch_transfer(b, vec![(x, 40), (y, 30)]), Ok(()));
    assert_eq!(ledger.balance_of(x), 40);
    assert_eq!(ledger.balance_of(y), 30);
    assert_eq!(ledger.balance_of(b), 30);
    assert_eq!(ledger.total_supply(), 100);
}

#[test]
fn batch_transfer_accumulates_repeated_recipients() {
    let a = acct(1);
    let b = acct(2);
    let x = acct(5);
    let mut ledger = TokenBalance::new(a);
    ledger.mint(a, b, 100).unwrap();
    assert_eq!(ledger.batch_transfer(b, vec![(x, 10), (x, 20)]), Ok(()));
    assert_eq!(ledger.balance_of(x), 30);
    assert_eq!(ledger.balance_of(b), 70);
}

#[test]
fn batch_transfer_to_oneself_leaks_the_earlier_credits() {
    // A failure partway through the credits returns at once: the earlier
    // recipients keep their credits and the caller is never debited.
    let a = acct(1);
    let b = acct(2);
    let x = acct(5);
    let mut ledger = TokenBalance::new(a);
    ledger.mint(a, b, 100).unwrap();
    ledger.batch_transfer(b, vec![(x, 40), (x, 30)]).unwrap();
    assert_eq!(ledger.balance_of(b), 30);
    let leaked = ledger.batch_transfer(b, vec![(x, 10), (b, 5)]);
    assert_eq!(leaked, Err(Error::TransferToSelf));
    assert_eq!(ledger.balance_of(x), 80);
    assert_eq!(ledger.balance_of(b), 30);
    assert_eq!(ledger.total_supply(), 100);
}

#[test]
fn batch_transfer_rejects_a_short_balance_up_front() {
    let a = acct(1);
    let b = acct(2);
    let x = acct(5);
    let y = acct(6);
    let mut ledger = TokenBalance::new(a);
    ledger.mint(a, b, 50).unwrap();
    assert_eq!(
        ledger.batch_transfer(b, vec![(x, 40), (y, 30)]),
        Err(Error::InsufficientBalance)
    );
    assert_eq!(ledger.balance_of(x), 0);
    assert_eq!(ledger.balance_of(y), 0);
    assert_eq!(ledger.balance_of(b), 50);
}

#[test]
fn batch_transfer_rejects_a_zero_amount_before_any_credit() {
    let a = acct(1);
    let b = acct(2);
    let x = acct(5);
    let y = acct(6);
    let mut ledger = TokenBalance::new(a);
    ledger.mint(a, b, 50).unwrap();
    assert_eq!(
        ledger.batch_transfer(b, vec![(x, 10), (y, 0)]),
        Err(Error::InvalidAmount)
    );
    assert_eq!(ledger.balance_of(x), 0);
    assert_eq!(ledger.balance_of(b), 50);
}

#[test]
fn batch_transfer_whose_total_overflows_is_insufficient() {
    let a = acct(1);
    let b = acct(2);
    let x = acct(5);
    let y = acct(6);
    let mut ledger = TokenBalance::new(a);
    ledger.mint(a, b, 100).unwrap();
    assert_eq!(
        ledger.batch_transfer(b, vec![(x, u128::MAX), (y, 1)]),
        Err(Error::InsufficientBalance)
    );
    assert_eq!(ledger.balance_of(x), 0);
    assert_eq!(ledger.balance_of(b), 100);
}

#[test]
fn batch_transfer_overflowing_credit_leaks_like_a_self_transfer() {
    // An overflowing credit cannot arise while supply and balances agree,
    // so the ledger is first driven off that invariant through the
    // self-directed delegated transfer, which inflates a balance without
    // touching the supply.
    let a = acct(1);
    let b = acct(2);
    let s = acct(4);
    let x = acct(5);
    let y = acct(6);
    let mut ledger = TokenBalance::new(a);
    ledger.mint(a, y, u128::MAX - 2).unwrap();
    ledger.mint(a, b, 2).unwrap();
    ledger.approve(b, s, u128::MAX).unwrap();
    ledger.transfer_from(s, b, b, 2).unwrap();
    ledger.transfer_from(s, b, b, 4).unwrap();
    assert_eq!(ledger.balance_of(b), 8);
    let leaked = ledger.batch_transfer(b, vec![(x, 2), (y, 3)]);
    assert_eq!(leaked, Err(Error::InvalidAmount));
    assert_eq!(ledger.balance_of(x), 2);
    assert_eq!(ledger.balance_of(y), u128::MAX - 2);
    assert_eq!(ledger.balance_of(b), 8);
}

#[test]
fn empty_batch_transfer_changes_nothing() {
    let a = acct(1);
    let b = acct(2);
    let mut ledger = TokenBalance::new(a);
    ledger.mint(a, b, 10).unwrap();
    assert_eq!(ledger.batch_transfer(b, vec![]), Ok(()));
    assert_eq!(ledger.balance_of(b), 10);
    assert_eq!(ledger.total_supply(), 10);
}
