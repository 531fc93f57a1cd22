//! The mathematical model of the ledger's key-value tables.
//!
//! Each table is stored as a vector of key/amount entries.  The spec
//! functions here read such a sequence of entries: `lookup_amount` gives the
//! amount stored for one account (zero when the account is absent),
//! `sum_amounts` gives the combined amount of every entry, and `amount_for`
//! gives the combined amount a sequence of entries assigns to one account.
//! The lemmas relate those readings across updates and pushes.

use vstd::prelude::*;

use crate::types::AccountId;

verus! {

/// Amount stored for `a`: the first entry with key `a` decides, and an
/// absent key holds zero.
pub open spec fn lookup_amount(s: Seq<(AccountId, u128)>, a: AccountId) -> u128
    decreases s.len(),
{
    if s.len() == 0 {
        0u128
    } else if s[0].0 == a {
        s[0].1
    } else {
        lookup_amount(s.drop_first(), a)
    }
}

/// Combined amount of every entry, keys disregarded.
pub open spec fn sum_amounts(s: Seq<(AccountId, u128)>) -> int
    decreases s.len(),
{
    if s.len() == 0 {
        0
    } else {
        s[0].1 + sum_amounts(s.drop_first())
    }
}

/// Combined amount the entries assign to the single account `a`.
pub open spec fn amount_for(s: Seq<(AccountId, u128)>, a: AccountId) -> int
    decreases s.len(),
{
    if s.len() == 0 {
        0
    } else {
        (if s[0].0 == a {
            s[0].1 as int
        } else {
            0
        }) + amount_for(s.drop_first(), a)
    }
}

/// Amount stored for the owner/spender pair `k`: the first entry with key
/// `k` decides, and an absent key holds zero.
pub open spec fn lookup_pair_amount(
    s: Seq<((AccountId, AccountId), u128)>,
    k: (AccountId, AccountId),
) -> u128
    decreases s.len(),
{
    if s.len() == 0 {
        0u128
    } else if s[0].0 == k {
        s[0].1
    } else {
        lookup_pair_amount(s.drop_first(), k)
    }
}

/// An entry found at the first occurrence of its key gives the lookup.
pub proof fn lemma_lookup_found(s: Seq<(AccountId, u128)>, i: int, a: AccountId)
    requires
        0 <= i < s.len(),
        s[i].0 == a,
        forall|j: int| 0 <= j < i ==> s[j].0 != a,
    ensures
        lookup_amount(s, a) == s[i].1,
    decreases i,
{
    if i > 0 {
        lemma_lookup_found(s.drop_first(), i - 1, a);
    }
}

/// A key that occurs nowhere looks up to zero.
pub proof fn lemma_lookup_absent(s: Seq<(AccountId, u128)>, a: AccountId)
    requires
        forall|j: int| 0 <= j < s.len() ==> s[j].0 != a,
    ensures
        lookup_amount(s, a) == 0,
    decreases s.len(),
{
    if s.len() > 0 {
        lemma_lookup_absent(s.drop_first(), a);
    }
}

/// Overwriting the first occurrence of a key changes that key's lookup and
/// no other.
pub proof fn lemma_lookup_update(s: Seq<(AccountId, u128)>, i: int, v: u128, b: AccountId)
    requires
        0 <= i < s.len(),
        forall|j: int| 0 <= j < i ==> s[j].0 != s[i].0,
    ensures
        lookup_amount(s.update(i, (s[i].0, v)), b) == (if b == s[i].0 {
            v
        } else {
            lookup_amount(s, b)
        }),
    decreases i,
{
    let t = s.update(i, (s[i].0, v));
    if i == 0 {
        assert(t.drop_first() =~= s.drop_first());
    } else {
        assert(t.drop_first() =~= s.drop_first().update(i - 1, (s[i].0, v)));
        lemma_lookup_update(s.drop_first(), i - 1, v, b);
    }
}

/// Appending an entry whose key occurs nowhere defines that key's lookup
/// and changes no other.
pub proof fn lemma_lookup_push(s: Seq<(AccountId, u128)>, e: (AccountId, u128), b: AccountId)
    requires
        forall|j: int| 0 <= j < s.len() ==> s[j].0 != e.0,
    ensures
        lookup_amount(s.push(e), b) == (if b == e.0 {
            e.1
        } else {
            lookup_amount(s, b)
        }),
    decreases s.len(),
{
    if s.len() == 0 {
        assert(s.push(e)[0] == e);
        assert(s.push(e).drop_first() =~= Seq::<(AccountId, u128)>::empty());
    } else {
        assert(s.push(e)[0] == s[0]);
        assert(s.push(e).drop_first() =~= s.drop_first().push(e));
        lemma_lookup_push(s.drop_first(), e, b);
    }
    assert(lookup_amount(s.push(e), b) == (if s.push(e)[0].0 == b {
        s.push(e)[0].1
    } else {
        lookup_amount(s.push(e).drop_first(), b)
    }));
}

/// Overwriting one entry moves the sum by the difference of the amounts.
pub proof fn lemma_sum_update(s: Seq<(AccountId, u128)>, i: int, e: (AccountId, u128))
    requires
        0 <= i < s.len(),
    ensures
        sum_amounts(s.update(i, e)) == sum_amounts(s) - s[i].1 + e.1,
    decreases i,
{
    if i == 0 {
        assert(s.update(0, e).drop_first() =~= s.drop_first());
    } else {
        assert(s.update(i, e).drop_first() =~= s.drop_first().update(i - 1, e));
        lemma_sum_update(s.drop_first(), i - 1, e);
    }
}

/// Appending an entry adds its amount to the sum.
pub proof fn lemma_sum_push(s: Seq<(AccountId, u128)>, e: (AccountId, u128))
    ensures
        sum_amounts(s.push(e)) == sum_amounts(s) + e.1,
    decreases s.len(),
{
    if s.len() == 0 {
        assert(s.push(e)[0] == e);
        assert(s.push(e).drop_first() =~= Seq::<(AccountId, u128)>::empty());
    } else {
        assert(s.push(e)[0] == s[0]);
        assert(s.push(e).drop_first() =~= s.drop_first().push(e));
        lemma_sum_push(s.drop_first(), e);
    }
    assert(sum_amounts(s.push(e)) == s.push(e)[0].1 + sum_amounts(s.push(e).drop_first()));
}

/// The sum of unsigned amounts is never negative.
pub proof fn lemma_sum_nonneg(s: Seq<(AccountId, u128)>)
    ensures
        sum_amounts(s) >= 0,
    decreases s.len(),
{
    if s.len() > 0 {
        lemma_sum_nonneg(s.drop_first());
    }
}

/// No single stored amount exceeds the sum of all of them.
pub proof fn lemma_lookup_le_sum(s: Seq<(AccountId, u128)>, a: AccountId)
    ensures
        lookup_amount(s, a) <= sum_amounts(s),
    decreases s.len(),
{
    if s.len() > 0 {
        if s[0].0 == a {
            lemma_sum_nonneg(s.drop_first());
        } else {
            lemma_lookup_le_sum(s.drop_first(), a);
        }
    }
}

/// Extending a prefix by one entry adds that entry's amount to the
/// prefix sum.
pub proof fn lemma_sum_take_step(s: Seq<(AccountId, u128)>, i: int)
    requires
        0 <= i < s.len(),
    ensures
        sum_amounts(s.take(i + 1)) == sum_amounts(s.take(i)) + s[i].1,
{
    assert(s.take(i + 1) =~= s.take(i).push(s[i]));
    lemma_sum_push(s.take(i), s[i]);
}

/// A prefix sum never exceeds the full sum.
pub proof fn lemma_sum_take_le(s: Seq<(AccountId, u128)>, n: int)
    requires
        0 <= n <= s.len(),
    ensures
        sum_amounts(s.take(n)) <= sum_amounts(s),
    decreases s.len() - n,
{
    if n == s.len() {
        assert(s.take(n) =~= s);
    } else {
        lemma_sum_take_step(s, n);
        lemma_sum_take_le(s, n + 1);
    }
}

/// Appending an entry adds its amount to the entries' combined amount for
/// its own key and leaves every other key's combined amount unchanged.
pub proof fn lemma_amount_for_push(s: Seq<(AccountId, u128)>, e: (AccountId, u128), b: AccountId)
    ensures
        amount_for(s.push(e), b) == amount_for(s, b) + (if b == e.0 {
            e.1 as int
        } else {
            0
        }),
    decreases s.len(),
{
    if s.len() == 0 {
        assert(s.push(e)[0] == e);
        assert(s.push(e).drop_first() =~= Seq::<(AccountId, u128)>::empty());
    } else {
        assert(s.push(e)[0] == s[0]);
        assert(s.push(e).drop_first() =~= s.drop_first().push(e));
        lemma_amount_for_push(s.drop_first(), e, b);
    }
    assert(amount_for(s.push(e), b) == (if s.push(e)[0].0 == b {
        s.push(e)[0].1 as int
    } else {
        0
    }) + amount_for(s.push(e).drop_first(), b));
}

/// Extending a prefix by one entry adds that entry's amount to the combined
/// amount of the entry's own key.
pub proof fn lemma_amount_for_take_step(s: Seq<(AccountId, u128)>, i: int, b: AccountId)
    requires
        0 <= i < s.len(),
    ensures
        amount_for(s.take(i + 1), b) == amount_for(s.take(i), b) + (if b == s[i].0 {
            s[i].1 as int
        } else {
            0
        }),
{
    assert(s.take(i + 1) =~= s.take(i).push(s[i]));
    lemma_amount_for_push(s.take(i), s[i], b);
}

/// A key that occurs nowhere is assigned nothing.
pub proof fn lemma_amount_for_absent(s: Seq<(AccountId, u128)>, a: AccountId)
    requires
        forall|j: int| 0 <= j < s.len() ==> s[j].0 != a,
    ensures
        amount_for(s, a) == 0,
    decreases s.len(),
{
    if s.len() > 0 {
        lemma_amount_for_absent(s.drop_first(), a);
    }
}

/// Pair-keyed variant of `lemma_lookup_found`.
pub proof fn lemma_pair_found(
    s: Seq<((AccountId, AccountId), u128)>,
    i: int,
    k: (AccountId, AccountId),
)
    requires
        0 <= i < s.len(),
        s[i].0 == k,
        forall|j: int| 0 <= j < i ==> s[j].0 != k,
    ensures
        lookup_pair_amount(s, k) == s[i].1,
    decreases i,
{
    if i > 0 {
        lemma_pair_found(s.drop_first(), i - 1, k);
    }
}

/// Pair-keyed variant of `lemma_lookup_absent`.
pub proof fn lemma_pair_absent(s: Seq<((AccountId, AccountId), u128)>, k: (AccountId, AccountId))
    requires
        forall|j: int| 0 <= j < s.len() ==> s[j].0 != k,
    ensures
        lookup_pair_amount(s, k) == 0,
    decreases s.len(),
{
    if s.len() > 0 {
        lemma_pair_absent(s.drop_first(), k);
    }
}

/// Pair-keyed variant of `lemma_lookup_update`.
pub proof fn lemma_pair_update(
    s: Seq<((AccountId, AccountId), u128)>,
    i: int,
    v: u128,
    b: (AccountId, AccountId),
)
    requires
        0 <= i < s.len(),
        forall|j: int| 0 <= j < i ==> s[j].0 != s[i].0,
    ensures
        lookup_pair_amount(s.update(i, (s[i].0, v)), b) == (if b == s[i].0 {
            v
        } else {
            lookup_pair_amount(s, b)
        }),
    decreases i,
{
    let t = s.update(i, (s[i].0, v));
    if i == 0 {
        assert(t.drop_first() =~= s.drop_first());
    } else {
        assert(t.drop_first() =~= s.drop_first().update(i - 1, (s[i].0, v)));
        lemma_pair_update(s.drop_first(), i - 1, v, b);
    }
}

/// Pair-keyed variant of `lemma_lookup_push`.
pub proof fn lemma_pair_push(
    s: Seq<((AccountId, AccountId), u128)>,
    e: ((AccountId, AccountId), u128),
    b: (AccountId, AccountId),
)
    requires
        forall|j: int| 0 <= j < s.len() ==> s[j].0 != e.0,
    ensures
        lookup_pair_amount(s.push(e), b) == (if b == e.0 {
            e.1
        } else {
            lookup_pair_amount(s, b)
        }),
    decreases s.len(),
{
    if s.len() == 0 {
        assert(s.push(e)[0] == e);
        assert(s.push(e).drop_first() =~= Seq::<((AccountId, AccountId), u128)>::empty());
    } else {
        assert(s.push(e)[0] == s[0]);
        assert(s.push(e).drop_first() =~= s.drop_first().push(e));
        lemma_pair_push(s.drop_first(), e, b);
    }
    assert(lookup_pair_amount(s.push(e), b) == (if s.push(e)[0].0 == b {
        s.push(e)[0].1
    } else {
        lookup_pair_amount(s.push(e).drop_first(), b)
    }));
}

/// Appending an element to a sequence of accounts adds exactly that element
/// to its membership.
pub proof fn lemma_contains_push(s: Seq<AccountId>, e: AccountId, b: AccountId)
    ensures
        s.push(e).contains(b) <==> (s.contains(b) || b == e),
{
    if b == e {
        assert(s.push(e)[s.len() as int] == e);
    }
    if s.contains(b) {
        let j = choose|j: int| 0 <= j < s.len() && s[j] == b;
        assert(s.push(e)[j] == b);
    }
    if s.push(e).contains(b) {
        let j = choose|j: int| 0 <= j < s.push(e).len() && s.push(e)[j] == b;
        if j < s.len() {
            assert(s[j] == b);
        }
    }
}

} // verus!
