//! The ledger state machine.
//!
//! `TokenBalance` owns the whole ledger state: the balance table, the global
//! supply counter, the administrator identity, the pause flag, the blacklist
//! and the allowance table.  Every operation is a finite, synchronous state
//! transition; the host serializes invocations, resolves the caller's
//! identity, and delivers the notifications that `mint` and `transfer`
//! return.

use vstd::prelude::*;

use crate::entries::amount_for;
use crate::entries::lemma_amount_for_absent;
use crate::entries::lemma_amount_for_take_step;
use crate::entries::lemma_contains_push;
use crate::entries::lemma_lookup_absent;
use crate::entries::lemma_lookup_found;
use crate::entries::lemma_lookup_le_sum;
use crate::entries::lemma_lookup_push;
use crate::entries::lemma_lookup_update;
use crate::entries::lemma_pair_absent;
use crate::entries::lemma_pair_found;
use crate::entries::lemma_pair_push;
use crate::entries::lemma_pair_update;
use crate::entries::lemma_sum_push;
use crate::entries::lemma_sum_take_le;
use crate::entries::lemma_sum_take_step;
use crate::entries::lemma_sum_update;
use crate::entries::lookup_amount;
use crate::entries::lookup_pair_amount;
use crate::entries::sum_amounts;
use crate::types::AccountId;
use crate::types::Error;
use crate::types::TokensMinted;
use crate::types::TokensTransferred;

verus! {

/// The fungible-token ledger.
pub struct TokenBalance {
    /// Per-account balances; accounts without an entry hold zero.
    balances: Vec<(AccountId, u128)>,
    /// Global supply counter.
    total_supply: u128,
    /// The administrator, fixed at construction.
    owner: AccountId,
    /// Remaining amounts each spender may draw from each owner; pairs
    /// without an entry hold zero.
    allowances: Vec<((AccountId, AccountId), u128)>,
    /// When set, direct transfers are rejected.
    paused: bool,
    /// Accounts barred from taking part in direct transfers.
    blacklisted: Vec<AccountId>,
}

impl TokenBalance {
    /// Balance held by `a`.
    pub closed spec fn spec_balance(self, a: AccountId) -> u128 {
        lookup_amount(self.balances@, a)
    }

    /// The global supply counter.
    pub closed spec fn spec_supply(self) -> u128 {
        self.total_supply
    }

    /// The administrator identity.
    pub closed spec fn spec_admin(self) -> AccountId {
        self.owner
    }

    /// Whether direct transfers are suspended.
    pub closed spec fn spec_paused(self) -> bool {
        self.paused
    }

    /// Whether `a` is barred from direct transfers.
    pub closed spec fn spec_blacklisted(self, a: AccountId) -> bool {
        self.blacklisted@.contains(a)
    }

    /// Remaining amount `spender` may draw from `owner`.
    pub closed spec fn spec_allowance(self, owner: AccountId, spender: AccountId) -> u128 {
        lookup_pair_amount(self.allowances@, (owner, spender))
    }

    /// Combined balance of all accounts.
    pub closed spec fn spec_balance_sum(self) -> int {
        sum_amounts(self.balances@)
    }

    /// The ledger's central accounting invariant: the supply counter equals
    /// the combined balance of all accounts.  Construction establishes it
    /// and every operation preserves it, with two deliberate exceptions
    /// that the operations' contracts state exactly: a delegated transfer
    /// whose source and destination coincide, and a batch transfer that
    /// fails after crediting part of its recipients.
    pub open spec fn supply_consistent(self) -> bool {
        self.spec_balance_sum() == self.spec_supply()
    }
}

/// Both ledgers store the same balance for every account.
pub open spec fn same_balances(pre: TokenBalance, post: TokenBalance) -> bool {
    forall|a: AccountId| post.spec_balance(a) == pre.spec_balance(a)
}

/// Both ledgers store the same allowance for every owner/spender pair.
pub open spec fn same_allowances(pre: TokenBalance, post: TokenBalance) -> bool {
    forall|o: AccountId, sp: AccountId| post.spec_allowance(o, sp) == pre.spec_allowance(o, sp)
}

/// Both ledgers blacklist exactly the same accounts.
pub open spec fn same_blacklist(pre: TokenBalance, post: TokenBalance) -> bool {
    forall|a: AccountId| post.spec_blacklisted(a) == pre.spec_blacklisted(a)
}

/// Both ledgers have the same administrator and the same pause flag.
pub open spec fn same_flags(pre: TokenBalance, post: TokenBalance) -> bool {
    post.spec_admin() == pre.spec_admin() && post.spec_paused() == pre.spec_paused()
}

/// The two ledgers are observably identical.
pub open spec fn same_state(pre: TokenBalance, post: TokenBalance) -> bool {
    &&& same_balances(pre, post)
    &&& same_allowances(pre, post)
    &&& same_blacklist(pre, post)
    &&& same_flags(pre, post)
    &&& post.spec_supply() == pre.spec_supply()
    &&& post.spec_balance_sum() == pre.spec_balance_sum()
}

impl TokenBalance {
    /// Creates a ledger with zero state, administered by `creator`.
    pub fn new(creator: AccountId) -> (s: Self)
        ensures
            s.spec_supply() == 0,
            s.spec_admin() == creator,
            !s.spec_paused(),
            forall|a: AccountId| s.spec_balance(a) == 0,
            forall|a: AccountId| !s.spec_blacklisted(a),
            forall|o: AccountId, sp: AccountId| s.spec_allowance(o, sp) == 0,
            s.supply_consistent(),
    {
        let s = TokenBalance {
            balances: Vec::new(),
            total_supply: 0,
            owner: creator,
            allowances: Vec::new(),
            paused: false,
            blacklisted: Vec::new(),
        };
        proof {
            assert forall|a: AccountId| s.spec_balance(a) == 0 by {
                lemma_lookup_absent(s.balances@, a);
            }
            assert forall|o: AccountId, sp: AccountId| s.spec_allowance(o, sp) == 0 by {
                lemma_pair_absent(s.allowances@, (o, sp));
            }
        }
        s
    }

    /// Index of the first balance entry for `a`, if any.
    fn balance_index(&self, a: AccountId) -> (r: Option<usize>)
        ensures
            (match r {
                Some(i) => {
                    &&& i < self.balances@.len()
                    &&& self.balances@[i as int].0 == a
                    &&& forall|j: int| 0 <= j < i ==> self.balances@[j].0 != a
                },
                None => forall|j: int| 0 <= j < self.balances@.len() ==> self.balances@[j].0 != a,
            }),
    {
        let mut i: usize = 0;
        while i < self.balances.len()
            invariant
                i <= self.balances@.len(),
                forall|j: int| 0 <= j < i ==> self.balances@[j].0 != a,
            decreases self.balances@.len() - i,
        {
            if self.balances[i].0 == a {
                return Some(i);
            }
            i = i + 1;
        }
        None
    }

    /// Balance of an account; zero when the account has no entry.
    pub fn balance_of(&self, account: AccountId) -> (r: u128)
        ensures
            r == self.spec_balance(account),
    {
        match self.balance_index(account) {
            Some(i) => {
                proof {
                    lemma_lookup_found(self.balances@, i as int, account);
                }
                self.balances[i].1
            },
            None => {
                proof {
                    lemma_lookup_absent(self.balances@, account);
                }
                0
            },
        }
    }

    /// The global supply counter.
    pub fn total_supply(&self) -> (r: u128)
        ensures
            r == self.spec_supply(),
    {
        self.total_supply
    }

    /// The administrator identity.
    pub fn owner(&self) -> (r: AccountId)
        ensures
            r == self.spec_admin(),
    {
        self.owner
    }

    /// Balance of the calling account.
    pub fn my_balance(&self, caller: AccountId) -> (r: u128)
        ensures
            r == self.spec_balance(caller),
    {
        self.balance_of(caller)
    }

    /// Whether direct transfers are suspended.
    pub fn is_paused(&self) -> (r: bool)
        ensures
            r == self.spec_paused(),
    {
        self.paused
    }

    /// Whether an account is barred from direct transfers.
    pub fn is_blacklisted(&self, account: AccountId) -> (r: bool)
        ensures
            r == self.spec_blacklisted(account),
    {
        let mut i: usize = 0;
        while i < self.blacklisted.len()
            invariant
                i <= self.blacklisted@.len(),
                forall|j: int| 0 <= j < i ==> self.blacklisted@[j] != account,
            decreases self.blacklisted@.len() - i,
        {
            if self.blacklisted[i] == account {
                assert(self.blacklisted@.contains(account)) by {
                    assert(self.blacklisted@[i as int] == account);
                }
                return true;
            }
            i = i + 1;
        }
        false
    }

    /// Index of the first allowance entry for the pair, if any.
    fn allowance_index(&self, owner: AccountId, spender: AccountId) -> (r: Option<usize>)
        ensures
            (match r {
                Some(i) => {
                    &&& i < self.allowances@.len()
                    &&& self.allowances@[i as int].0 == (owner, spender)
                    &&& forall|j: int| 0 <= j < i ==> self.allowances@[j].0 != (owner, spender)
                },
                None => forall|j: int|
                    0 <= j < self.allowances@.len() ==> self.allowances@[j].0 != (owner, spender),
            }),
    {
        let mut i: usize = 0;
        while i < self.allowances.len()
            invariant
                i <= self.allowances@.len(),
                forall|j: int| 0 <= j < i ==> self.allowances@[j].0 != (owner, spender),
            decreases self.allowances@.len() - i,
        {
            let k = self.allowances[i].0;
            if k.0 == owner && k.1 == spender {
                return Some(i);
            }
            i = i + 1;
        }
        None
    }

    /// Stores `v` as the balance of `a`, leaving every other part of the
    /// state untouched.
    fn set_balance(&mut self, a: AccountId, v: u128)
        ensures
            forall|b: AccountId|
                final(self).spec_balance(b) == (if b == a {
                    v
                } else {
                    old(self).spec_balance(b)
                }),
            final(self).spec_balance_sum() == old(self).spec_balance_sum()
                - old(self).spec_balance(a) + v,
            final(self).spec_supply() == old(self).spec_supply(),
            same_allowances(*old(self), *final(self)),
            same_blacklist(*old(self), *final(self)),
            same_flags(*old(self), *final(self)),
    {
        match self.balance_index(a) {
            Some(i) => {
                proof {
                    let s = self.balances@;
                    lemma_lookup_found(s, i as int, a);
                    lemma_sum_update(s, i as int, (a, v));
                    assert forall|b: AccountId|
                        lookup_amount(s.update(i as int, (a, v)), b) == (if b == a {
                            v
                        } else {
                            lookup_amount(s, b)
                        }) by {
                        lemma_lookup_update(s, i as int, v, b);
                    }
                }
                self.balances.set(i, (a, v));
            },
            None => {
                proof {
                    let s = self.balances@;
                    lemma_lookup_absent(s, a);
                    lemma_sum_push(s, (a, v));
                    assert forall|b: AccountId|
                        lookup_amount(s.push((a, v)), b) == (if b == a {
                            v
                        } else {
                            lookup_amount(s, b)
                        }) by {
                        lemma_lookup_push(s, (a, v), b);
                    }
                }
                self.balances.push((a, v));
            },
        }
    }

    /// Stores `v` as the allowance of the owner/spender pair, leaving every
    /// other part of the state untouched.
    fn set_allowance(&mut self, owner: AccountId, spender: AccountId, v: u128)
        ensures
            forall|o: AccountId, sp: AccountId|
                final(self).spec_allowance(o, sp) == (if o == owner && sp == spender {
                    v
                } else {
                    old(self).spec_allowance(o, sp)
                }),
            same_balances(*old(self), *final(self)),
            final(self).spec_balance_sum() == old(self).spec_balance_sum(),
            final(self).spec_supply() == old(self).spec_supply(),
            same_blacklist(*old(self), *final(self)),
            same_flags(*old(self), *final(self)),
    {
        let k = (owner, spender);
        match self.allowance_index(owner, spender) {
            Some(i) => {
                proof {
                    let s = self.allowances@;
                    assert forall|o: AccountId, sp: AccountId|
                        lookup_pair_amount(s.update(i as int, (k, v)), (o, sp)) == (if o == owner
                            && sp == spender {
                            v
                        } else {
                            lookup_pair_amount(s, (o, sp))
                        }) by {
                        lemma_pair_update(s, i as int, v, (o, sp));
                    }
                }
                self.allowances.set(i, (k, v));
            },
            None => {
                proof {
                    let s = self.allowances@;
                    assert forall|o: AccountId, sp: AccountId|
                        lookup_pair_amount(s.push((k, v)), (o, sp)) == (if o == owner && sp
                            == spender {
                            v
                        } else {
                            lookup_pair_amount(s, (o, sp))
                        }) by {
                        lemma_pair_push(s, (k, v), (o, sp));
                    }
                }
                self.allowances.push((k, v));
            },
        }
    }

    /// Remaining amount `spender` may draw from `owner`; zero when the pair
    /// has no entry.
    pub fn allowance(&self, owner: AccountId, spender: AccountId) -> (r: u128)
        ensures
            r == self.spec_allowance(owner, spender),
    {
        match self.allowance_index(owner, spender) {
            Some(i) => {
                proof {
                    lemma_pair_found(self.allowances@, i as int, (owner, spender));
                }
                self.allowances[i].1
            },
            None => {
                proof {
                    lemma_pair_absent(self.allowances@, (owner, spender));
                }
                0
            },
        }
    }

    /// Suspends direct transfers.  Only the administrator may do so;
    /// suspending an already-paused ledger changes nothing.
    pub fn pause(&mut self, caller: AccountId) -> (r: Result<(), Error>)
        ensures
            caller != old(self).spec_admin() ==> r == Err::<(), Error>(Error::NotOwner)
                && same_state(*old(self), *final(self)),
            caller == old(self).spec_admin() ==> r == Ok::<(), Error>(())
                && final(self).spec_paused()
                && same_balances(*old(self), *final(self))
                && same_allowances(*old(self), *final(self))
                && same_blacklist(*old(self), *final(self))
                && final(self).spec_admin() == old(self).spec_admin()
                && final(self).spec_supply() == old(self).spec_supply()
                && final(self).spec_balance_sum() == old(self).spec_balance_sum(),
            caller == old(self).spec_admin() && old(self).spec_paused()
                ==> same_state(*old(self), *final(self)),
            old(self).supply_consistent() ==> final(self).supply_consistent(),
    {
        if caller != self.owner {
            return Err(Error::NotOwner);
        }
        self.paused = true;
        Ok(())
    }

    /// Resumes direct transfers.  Only the administrator may do so;
    /// resuming an already-active ledger changes nothing.
    pub fn unpause(&mut self, caller: AccountId) -> (r: Result<(), Error>)
        ensures
            caller != old(self).spec_admin() ==> r == Err::<(), Error>(Error::NotOwner)
                && same_state(*old(self), *final(self)),
            caller == old(self).spec_admin() ==> r == Ok::<(), Error>(())
                && !final(self).spec_paused()
                && same_balances(*old(self), *final(self))
                && same_allowances(*old(self), *final(self))
                && same_blacklist(*old(self), *final(self))
                && final(self).spec_admin() == old(self).spec_admin()
                && final(self).spec_supply() == old(self).spec_supply()
                && final(self).spec_balance_sum() == old(self).spec_balance_sum(),
            caller == old(self).spec_admin() && !old(self).spec_paused()
                ==> same_state(*old(self), *final(self)),
            old(self).supply_consistent() ==> final(self).supply_consistent(),
    {
        if caller != self.owner {
            return Err(Error::NotOwner);
        }
        self.paused = false;
        Ok(())
    }

    /// Bars an account from direct transfers.  Only the administrator may
    /// do so; barring an already-barred account changes nothing.
    pub fn blacklist(&mut self, caller: AccountId, account: AccountId) -> (r: Result<(), Error>)
        ensures
            caller != old(self).spec_admin() ==> r == Err::<(), Error>(Error::NotOwner)
                && same_state(*old(self), *final(self)),
            caller == old(self).spec_admin() ==> r == Ok::<(), Error>(())
                && final(self).spec_blacklisted(account)
                && (forall|b: AccountId| b != account
                    ==> final(self).spec_blacklisted(b) == old(self).spec_blacklisted(b))
                && same_balances(*old(self), *final(self))
                && same_allowances(*old(self), *final(self))
                && same_flags(*old(self), *final(self))
                && final(self).spec_supply() == old(self).spec_supply()
                && final(self).spec_balance_sum() == old(self).spec_balance_sum(),
            caller == old(self).spec_admin() && old(self).spec_blacklisted(account)
                ==> same_state(*old(self), *final(self)),
            old(self).supply_consistent() ==> final(self).supply_consistent(),
    {
        if caller != self.owner {
            return Err(Error::NotOwner);
        }
        if !self.is_blacklisted(account) {
            proof {
                assert forall|b: AccountId|
                    self.blacklisted@.push(account).contains(b) <==> (self.blacklisted@.contains(b)
                        || b == account) by {
                    lemma_contains_push(self.blacklisted@, account, b);
                }
            }
            self.blacklisted.push(account);
        }
        Ok(())
    }

    /// Clears an account's bar on direct transfers.  Only the administrator
    /// may do so; clearing an unbarred account changes nothing.
    pub fn unblacklist(&mut self, caller: AccountId, account: AccountId) -> (r: Result<(), Error>)
        ensures
            caller != old(self).spec_admin() ==> r == Err::<(), Error>(Error::NotOwner)
                && same_state(*old(self), *final(self)),
            caller == old(self).spec_admin() ==> r == Ok::<(), Error>(())
                && !final(self).spec_blacklisted(account)
                && (forall|b: AccountId| b != account
                    ==> final(self).spec_blacklisted(b) == old(self).spec_blacklisted(b))
                && same_balances(*old(self), *final(self))
                && same_allowances(*old(self), *final(self))
                && same_flags(*old(self), *final(self))
                && final(self).spec_supply() == old(self).spec_supply()
                && final(self).spec_balance_sum() == old(self).spec_balance_sum(),
            caller == old(self).spec_admin() && !old(self).spec_blacklisted(account)
                ==> same_state(*old(self), *final(self)),
            old(self).supply_consistent() ==> final(self).supply_consistent(),
    {
        if caller != self.owner {
            return Err(Error::NotOwner);
        }
        let ghost orig = self.blacklisted@;
        let mut kept: Vec<AccountId> = Vec::new();
        let mut i: usize = 0;
        while i < self.blacklisted.len()
            invariant
                i <= self.blacklisted@.len(),
                self.blacklisted@ == orig,
                forall|b: AccountId|
                    #[trigger] kept@.contains(b) <==> (orig.take(i as int).contains(b) && b
                        != account),
            decreases orig.len() - i,
        {
            let x = self.blacklisted[i];
            let ghost kept_before = kept@;
            if x != account {
                kept.push(x);
            }
            proof {
                assert(orig.take(i + 1 as int) =~= orig.take(i as int).push(orig[i as int]));
                assert forall|b: AccountId|
                    kept@.contains(b) <==> (orig.take(i + 1 as int).contains(b) && b != account) by {
                    lemma_contains_push(orig.take(i as int), orig[i as int], b);
                    if x != account {
                        lemma_contains_push(kept_before, x, b);
                    }
                }
            }
            i = i + 1;
        }
        proof {
            assert(orig.take(orig.len() as int) =~= orig);
        }
        self.blacklisted = kept;
        Ok(())
    }

    /// Overwrites the allowance `spender` may draw from the caller.  There
    /// is no accumulation: the new amount replaces the old one entirely.
    pub fn approve(&mut self, caller: AccountId, spender: AccountId, amount: u128) -> (r: Result<
        (),
        Error,
    >)
        ensures
            r == Ok::<(), Error>(()),
            final(self).spec_allowance(caller, spender) == amount,
            forall|o: AccountId, sp: AccountId| !(o == caller && sp == spender)
                ==> final(self).spec_allowance(o, sp) == old(self).spec_allowance(o, sp),
            same_balances(*old(self), *final(self)),
            same_blacklist(*old(self), *final(self)),
            same_flags(*old(self), *final(self)),
            final(self).spec_supply() == old(self).spec_supply(),
            final(self).spec_balance_sum() == old(self).spec_balance_sum(),
            old(self).supply_consistent() ==> final(self).supply_consistent(),
    {
        self.set_allowance(caller, spender, amount);
        Ok(())
    }

    /// The first rejection `mint` runs into, in the order the checks are
    /// made; `None` when the mint succeeds.
    pub open spec fn mint_error(self, caller: AccountId, to: AccountId, amount: u128) -> Option<
        Error,
    > {
        if caller != self.spec_admin() {
            Some(Error::NotOwner)
        } else if amount == 0 {
            Some(Error::InvalidAmount)
        } else if self.spec_balance(to) + amount > u128::MAX || self.spec_supply() + amount
            > u128::MAX {
            Some(Error::InvalidAmount)
        } else {
            None
        }
    }

    /// Creates `amount` new tokens for `to` and grows the supply by the
    /// same amount, all-or-nothing.  Only the administrator may mint; a
    /// zero amount and an overflow of either the recipient's balance or
    /// the supply counter are rejected with nothing changed.
    pub fn mint(&mut self, caller: AccountId, to: AccountId, amount: u128) -> (r: Result<
        TokensMinted,
        Error,
    >)
        ensures
            (match old(self).mint_error(caller, to, amount) {
                Some(e) => r == Err::<TokensMinted, Error>(e) && same_state(
                    *old(self),
                    *final(self),
                ),
                None => r == Ok::<TokensMinted, Error>((TokensMinted { to, amount }))
                    && final(self).spec_balance(to) == old(self).spec_balance(to) + amount
                    && (forall|a: AccountId| a != to
                        ==> final(self).spec_balance(a) == old(self).spec_balance(a))
                    && final(self).spec_supply() == old(self).spec_supply() + amount
                    && final(self).spec_balance_sum() == old(self).spec_balance_sum() + amount
                    && same_allowances(*old(self), *final(self))
                    && same_blacklist(*old(self), *final(self))
                    && same_flags(*old(self), *final(self)),
            }),
            old(self).supply_consistent() ==> final(self).supply_consistent(),
    {
        if caller != self.owner {
            return Err(Error::NotOwner);
        }
        if amount == 0 {
            return Err(Error::InvalidAmount);
        }
        let current_balance = self.balance_of(to);
        if amount > u128::MAX - current_balance {
            return Err(Error::InvalidAmount);
        }
        if amount > u128::MAX - self.total_supply {
            return Err(Error::InvalidAmount);
        }
        self.total_supply = self.total_supply + amount;
        self.set_balance(to, current_balance + amount);
        Ok(TokensMinted { to, amount })
    }

    /// The first rejection `burn` runs into; `None` when the burn succeeds.
    pub open spec fn burn_error(self, caller: AccountId, amount: u128) -> Option<Error> {
        if amount == 0 {
            Some(Error::InvalidAmount)
        } else if self.spec_balance(caller) < amount {
            Some(Error::InsufficientBalance)
        } else {
            None
        }
    }

    /// Destroys `amount` tokens of the caller's own balance.  The balance
    /// is debited exactly; the supply counter shrinks by the same amount,
    /// saturating at zero should it ever fall short of the debited balance.
    pub fn burn(&mut self, caller: AccountId, amount: u128) -> (r: Result<(), Error>)
        ensures
            (match old(self).burn_error(caller, amount) {
                Some(e) => r == Err::<(), Error>(e) && same_state(*old(self), *final(self)),
                None => r == Ok::<(), Error>(())
                    && final(self).spec_balance(caller) == old(self).spec_balance(caller) - amount
                    && (forall|a: AccountId| a != caller
                        ==> final(self).spec_balance(a) == old(self).spec_balance(a))
                    && final(self).spec_supply() == (if old(self).spec_supply() >= amount {
                        old(self).spec_supply() - amount
                    } else {
                        0
                    }) && final(self).spec_balance_sum() == old(self).spec_balance_sum() - amount
                    && same_allowances(*old(self), *final(self))
                    && same_blacklist(*old(self), *final(self))
                    && same_flags(*old(self), *final(self)),
            }),
            old(self).supply_consistent() ==> final(self).supply_consistent(),
    {
        let caller_balance = self.balance_of(caller);
        if amount == 0 {
            return Err(Error::InvalidAmount);
        }
        if caller_balance < amount {
            return Err(Error::InsufficientBalance);
        }
        proof {
            lemma_lookup_le_sum(self.balances@, caller);
        }
        self.total_supply = if self.total_supply >= amount {
            self.total_supply - amount
        } else {
            0
        };
        self.set_balance(caller, caller_balance - amount);
        Ok(())
    }

    /// The first rejection `transfer` runs into, in the order the checks
    /// are made; `None` when the transfer succeeds.  The pause flag and the
    /// blacklist are consulted first, then self-transfer, then the zero
    /// amount, then the sender's balance, then overflow of the recipient's
    /// balance.
    pub open spec fn transfer_error(self, caller: AccountId, to: AccountId, amount: u128) -> Option<
        Error,
    > {
        if self.spec_paused() {
            Some(Error::InvalidAmount)
        } else if self.spec_blacklisted(caller) || self.spec_blacklisted(to) {
            Some(Error::InvalidAmount)
        } else if caller == to {
            Some(Error::TransferToSelf)
        } else if amount == 0 {
            Some(Error::InvalidAmount)
        } else if self.spec_balance(caller) < amount {
            Some(Error::InsufficientBalance)
        } else if self.spec_balance(to) + amount > u128::MAX {
            Some(Error::InvalidAmount)
        } else {
            None
        }
    }

    /// Moves `amount` tokens from the caller to `to` and returns the
    /// notification for the host to deliver.  Rejected entirely — nothing
    /// changes — when the ledger is paused, either party is blacklisted,
    /// the recipient is the caller, the amount is zero, the caller's
    /// balance falls short, or the recipient's balance would overflow.
    pub fn transfer(&mut self, caller: AccountId, to: AccountId, amount: u128) -> (r: Result<
        TokensTransferred,
        Error,
    >)
        ensures
            (match old(self).transfer_error(caller, to, amount) {
                Some(e) => r == Err::<TokensTransferred, Error>(e) && same_state(
                    *old(self),
                    *final(self),
                ),
                None => r == Ok::<TokensTransferred, Error>(
                    (TokensTransferred { from: caller, to, amount }),
                )
                    && final(self).spec_balance(caller) == old(self).spec_balance(caller) - amount
                    && final(self).spec_balance(to) == old(self).spec_balance(to) + amount
                    && (forall|a: AccountId| a != caller && a != to
                        ==> final(self).spec_balance(a) == old(self).spec_balance(a))
                    && final(self).spec_supply() == old(self).spec_supply()
                    && final(self).spec_balance_sum() == old(self).spec_balance_sum()
                    && same_allowances(*old(self), *final(self))
                    && same_blacklist(*old(self), *final(self))
                    && same_flags(*old(self), *final(self)),
            }),
            old(self).supply_consistent() ==> final(self).supply_consistent(),
    {
        if self.is_paused() {
            return Err(Error::InvalidAmount);
        }
        if self.is_blacklisted(caller) || self.is_blacklisted(to) {
            return Err(Error::InvalidAmount);
        }
        if caller == to {
            return Err(Error::TransferToSelf);
        }
        if amount == 0 {
            return Err(Error::InvalidAmount);
        }
        let caller_balance = self.balance_of(caller);
        let to_balance = self.balance_of(to);
        if caller_balance < amount {
            return Err(Error::InsufficientBalance);
        }
        if amount > u128::MAX - to_balance {
            return Err(Error::InvalidAmount);
        }
        self.set_balance(caller, caller_balance - amount);
        self.set_balance(to, to_balance + amount);
        Ok(TokensTransferred { from: caller, to, amount })
    }

    /// The first rejection `transfer_from` runs into; `None` when the
    /// delegated transfer succeeds.  Neither the compliance gate nor the
    /// self-transfer check applies here: only the amount, the allowance,
    /// the source balance and overflow of the destination balance are
    /// consulted.
    pub open spec fn transfer_from_error(
        self,
        caller: AccountId,
        from: AccountId,
        to: AccountId,
        amount: u128,
    ) -> Option<Error> {
        if amount == 0 {
            Some(Error::InvalidAmount)
        } else if self.spec_allowance(from, caller) < amount {
            Some(Error::InsufficientBalance)
        } else if self.spec_balance(from) < amount {
            Some(Error::InsufficientBalance)
        } else if self.spec_balance(to) + amount > u128::MAX {
            Some(Error::InvalidAmount)
        } else {
            None
        }
    }

    /// Moves `amount` tokens from `from` to `to`, drawing on the allowance
    /// `from` granted the caller, and decrements that allowance by the same
    /// amount.  When `from` and `to` coincide the destination credit is
    /// written last and wins: the account ends up `amount` richer while the
    /// supply stays put — the one operation that can break the accounting
    /// invariant on its success path.
    pub fn transfer_from(
        &mut self,
        caller: AccountId,
        from: AccountId,
        to: AccountId,
        amount: u128,
    ) -> (r: Result<(), Error>)
        ensures
            (match old(self).transfer_from_error(caller, from, to, amount) {
                Some(e) => r == Err::<(), Error>(e) && same_state(*old(self), *final(self)),
                None => r == Ok::<(), Error>(())
                    && (from != to ==> final(self).spec_balance(from) == old(self).spec_balance(
                    from,
                ) - amount && final(self).spec_balance(to) == old(self).spec_balance(to) + amount
                    && final(self).spec_balance_sum() == old(self).spec_balance_sum())
                    && (from == to ==> final(self).spec_balance(from) == old(self).spec_balance(
                    from,
                ) + amount && final(self).spec_balance_sum() == old(self).spec_balance_sum()
                    + amount)
                    && (forall|a: AccountId| a != from && a != to
                        ==> final(self).spec_balance(a) == old(self).spec_balance(a))
                    && final(self).spec_allowance(from, caller) == old(self).spec_allowance(
                    from,
                    caller,
                ) - amount
                    && (forall|o: AccountId, sp: AccountId| !(o == from && sp == caller)
                        ==> final(self).spec_allowance(o, sp) == old(self).spec_allowance(o, sp))
                    && final(self).spec_supply() == old(self).spec_supply()
                    && same_blacklist(*old(self), *final(self))
                    && same_flags(*old(self), *final(self)),
            }),
            old(self).supply_consistent() && from != to ==> final(self).supply_consistent(),
    {
        let current_allowance = self.allowance(from, caller);
        if amount == 0 {
            return Err(Error::InvalidAmount);
        }
        if current_allowance < amount {
            return Err(Error::InsufficientBalance);
        }
        let from_balance = self.balance_of(from);
        if from_balance < amount {
            return Err(Error::InsufficientBalance);
        }
        let to_balance = self.balance_of(to);
        if amount > u128::MAX - to_balance {
            return Err(Error::InvalidAmount);
        }
        self.set_balance(from, from_balance - amount);
        self.set_balance(to, to_balance + amount);
        self.set_allowance(from, caller, current_allowance - amount);
        Ok(())
    }

    /// Crediting step `i` of a batch goes through: the recipient is not the
    /// caller, and the recipient's balance — the starting balance plus
    /// whatever the earlier steps already credited — takes `s[i].1` more
    /// without overflowing.
    pub open spec fn batch_step_ok(
        self,
        caller: AccountId,
        s: Seq<(AccountId, u128)>,
        i: int,
    ) -> bool {
        &&& s[i].0 != caller
        &&& self.spec_balance(s[i].0) + amount_for(s.take(i), s[i].0) + s[i].1 <= u128::MAX
    }

    /// The first `n` crediting steps of a batch all go through.
    pub open spec fn batch_prefix_ok(
        self,
        caller: AccountId,
        s: Seq<(AccountId, u128)>,
        n: int,
    ) -> bool {
        forall|i: int| 0 <= i < n ==> #[trigger] self.batch_step_ok(caller, s, i)
    }

    /// Fans the caller's balance out to many recipients.  The whole batch
    /// is rejected up front when the caller's balance cannot cover the
    /// batch total or when any single amount is zero.  The credits are then
    /// applied in order, and the caller is debited once at the end; a
    /// failure partway — a recipient equal to the caller, or an overflowing
    /// credit — returns at once and leaves the earlier credits in place
    /// with the caller not yet debited.  The batch is deliberately not
    /// atomic on that path, and its contract states the leak exactly.
    pub fn batch_transfer(&mut self, caller: AccountId, recipients: Vec<(AccountId, u128)>) -> (r:
        Result<(), Error>)
        ensures
            old(self).spec_balance(caller) < sum_amounts(recipients@) ==> r == Err::<(), Error>(
                Error::InsufficientBalance,
            ) && same_state(*old(self), *final(self)),
            old(self).spec_balance(caller) >= sum_amounts(recipients@) && (exists|k: int|
                0 <= k < recipients@.len() && recipients@[k].1 == 0) ==> r == Err::<(), Error>(
                Error::InvalidAmount,
            ) && same_state(*old(self), *final(self)),
            old(self).spec_balance(caller) >= sum_amounts(recipients@) && (forall|k: int|
                0 <= k < recipients@.len() ==> recipients@[k].1 != 0) && old(self).batch_prefix_ok(
                caller,
                recipients@,
                recipients@.len() as int,
            ) ==> r == Ok::<(), Error>(())
                && final(self).spec_balance(caller) == old(self).spec_balance(caller)
                - sum_amounts(recipients@)
                && (forall|a: AccountId| a != caller
                    ==> final(self).spec_balance(a) == old(self).spec_balance(a)
                    + amount_for(recipients@, a))
                && final(self).spec_supply() == old(self).spec_supply()
                && final(self).spec_balance_sum() == old(self).spec_balance_sum()
                && same_allowances(*old(self), *final(self))
                && same_blacklist(*old(self), *final(self))
                && same_flags(*old(self), *final(self)),
            old(self).spec_balance(caller) >= sum_amounts(recipients@) && (forall|k: int|
                0 <= k < recipients@.len() ==> recipients@[k].1 != 0)
                && !old(self).batch_prefix_ok(caller, recipients@, recipients@.len() as int)
                ==> (exists|i: int|
                0 <= i < recipients@.len() && #[trigger] old(self).batch_prefix_ok(
                    caller,
                    recipients@,
                    i,
                ) && !old(self).batch_step_ok(caller, recipients@, i)),
            old(self).spec_balance(caller) >= sum_amounts(recipients@) && (forall|k: int|
                0 <= k < recipients@.len() ==> recipients@[k].1 != 0) ==> (forall|i: int|
                0 <= i < recipients@.len() && #[trigger] old(self).batch_prefix_ok(
                    caller,
                    recipients@,
                    i,
                ) && !old(self).batch_step_ok(caller, recipients@, i) ==> r == Err::<(), Error>(
                    (if recipients@[i].0 == caller {
                        Error::TransferToSelf
                    } else {
                        Error::InvalidAmount
                    }),
                )
                    && (forall|a: AccountId|
                        final(self).spec_balance(a) == old(self).spec_balance(a)
                        + amount_for(recipients@.take(i), a))
                    && final(self).spec_balance_sum() == old(self).spec_balance_sum()
                    + sum_amounts(recipients@.take(i))
                    && final(self).spec_supply() == old(self).spec_supply()
                    && same_allowances(*old(self), *final(self))
                    && same_blacklist(*old(self), *final(self))
                    && same_flags(*old(self), *final(self))),
            old(self).supply_consistent() && r == Ok::<(), Error>(())
                ==> final(self).supply_consistent(),
    {
        let caller_balance = self.balance_of(caller);
        let n = recipients.len();

        let mut total: u128 = 0;
        let mut i: usize = 0;
        while i < n
            invariant
                n == recipients@.len(),
                i <= n,
                *self == *old(self),
                caller_balance == old(self).spec_balance(caller),
                total == sum_amounts(recipients@.take(i as int)),
            decreases n - i,
        {
            let amt = recipients[i].1;
            proof {
                lemma_sum_take_step(recipients@, i as int);
            }
            if amt > u128::MAX - total {
                proof {
                    lemma_sum_take_le(recipients@, i as int + 1);
                }
                return Err(Error::InsufficientBalance);
            }
            total = total + amt;
            i = i + 1;
        }
        proof {
            assert(recipients@.take(n as int) =~= recipients@);
        }
        if caller_balance < total {
            return Err(Error::InsufficientBalance);
        }

        let mut j: usize = 0;
        while j < n
            invariant
                n == recipients@.len(),
                j <= n,
                *self == *old(self),
                caller_balance == old(self).spec_balance(caller),
                caller_balance >= sum_amounts(recipients@),
                forall|k: int| 0 <= k < j ==> recipients@[k].1 != 0,
            decreases n - j,
        {
            if recipients[j].1 == 0 {
                return Err(Error::InvalidAmount);
            }
            j = j + 1;
        }

        let mut i: usize = 0;
        while i < n
            invariant
                n == recipients@.len(),
                i <= n,
                caller_balance == old(self).spec_balance(caller),
                caller_balance >= sum_amounts(recipients@),
                total == sum_amounts(recipients@),
                forall|k: int| 0 <= k < n ==> recipients@[k].1 != 0,
                old(self).batch_prefix_ok(caller, recipients@, i as int),
                forall|a: AccountId|
                    #[trigger] self.spec_balance(a) == old(self).spec_balance(a) + amount_for(
                        recipients@.take(i as int),
                        a,
                    ),
                self.spec_balance_sum() == old(self).spec_balance_sum() + sum_amounts(
                    recipients@.take(i as int),
                ),
                self.spec_supply() == old(self).spec_supply(),
                same_allowances(*old(self), *self),
                same_blacklist(*old(self), *self),
                same_flags(*old(self), *self),
            decreases n - i,
        {
            let to_acct = recipients[i].0;
            let amt = recipients[i].1;
            if to_acct == caller {
                proof {
                    assert(!old(self).batch_step_ok(caller, recipients@, i as int));
                    assert(!old(self).batch_prefix_ok(caller, recipients@, n as int));
                }
                return Err(Error::TransferToSelf);
            }
            let to_balance = self.balance_of(to_acct);
            if amt > u128::MAX - to_balance {
                proof {
                    assert(!old(self).batch_step_ok(caller, recipients@, i as int));
                    assert(!old(self).batch_prefix_ok(caller, recipients@, n as int));
                }
                return Err(Error::InvalidAmount);
            }
            proof {
                lemma_sum_take_step(recipients@, i as int);
                assert forall|a: AccountId|
                    amount_for(recipients@.take(i as int + 1), a) == amount_for(
                        recipients@.take(i as int),
                        a,
                    ) + (if a == to_acct {
                        amt as int
                    } else {
                        0
                    }) by {
                    lemma_amount_for_take_step(recipients@, i as int, a);
                }
            }
            self.set_balance(to_acct, to_balance + amt);
            i = i + 1;
        }
        proof {
            assert(recipients@.take(n as int) =~= recipients@);
            assert forall|k: int| 0 <= k < n implies recipients@[k].0 != caller by {
                assert(old(self).batch_step_ok(caller, recipients@, k));
            }
            lemma_amount_for_absent(recipients@, caller);
        }
        let new_caller_balance = if caller_balance >= total {
            caller_balance - total
        } else {
            0
        };
        self.set_balance(caller, new_caller_balance);
        Ok(())
    }
}

/// In a consistent ledger no single account holds more than the total
/// supply: every balance is a summand of the combined balance, which the
/// supply counter equals.
pub proof fn lemma_balance_bounded(ledger: TokenBalance, a: AccountId)
    requires
        ledger.supply_consistent(),
    ensures
        ledger.spec_balance(a) <= ledger.spec_supply(),
{
    lemma_lookup_le_sum(ledger.balances@, a);
}

} // verus!
