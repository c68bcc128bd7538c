//! A flat ledger of per-user, per-asset balances with unique keys, the
//! shared substrate for both collateral and debt bookkeeping.

use vstd::prelude::*;

use crate::types::{Asset, BALANCE_CAP};

verus! {

/// One balance: how much of `asset` the position of `user` holds.
#[derive(Clone, Copy, PartialEq, Eq, Structural, Debug)]
pub struct BalanceEntry {
    pub user: u64,
    pub asset: Asset,
    pub amount: i128,
}

/// No two entries share a (user, asset) key.
pub open spec fn unique_keys(s: Seq<BalanceEntry>) -> bool {
    forall|i: int, j: int|
        0 <= i < j < s.len() ==> !(#[trigger] s[i].user == #[trigger] s[j].user
            && s[i].asset == s[j].asset)
}

/// Some entry carries the (user, asset) key.
pub open spec fn has_key(s: Seq<BalanceEntry>, user: u64, asset: Asset) -> bool {
    exists|i: int| 0 <= i < s.len() && (#[trigger] s[i]).user == user && s[i].asset == asset
}

/// The balance recorded for (user, asset); zero when no entry exists.
pub open spec fn amount_of(s: Seq<BalanceEntry>, user: u64, asset: Asset) -> int
    decreases s.len(),
{
    if s.len() == 0 {
        0
    } else if s.last().user == user && s.last().asset == asset {
        s.last().amount as int
    } else {
        amount_of(s.drop_last(), user, asset)
    }
}

/// Every entry's amount lies in [0, BALANCE_CAP].
pub open spec fn amounts_bounded(s: Seq<BalanceEntry>) -> bool {
    forall|i: int| 0 <= i < s.len() ==> 0 <= (#[trigger] s[i]).amount <= BALANCE_CAP
}

pub proof fn lemma_amount_of_absent(s: Seq<BalanceEntry>, user: u64, asset: Asset)
    requires
        !has_key(s, user, asset),
    ensures
        amount_of(s, user, asset) == 0,
    decreases s.len(),
{
    if s.len() > 0 {
        assert(!(s.last().user == user && s.last().asset == asset)) by {
            assert(s[s.len() - 1] == s.last());
        }
        assert(!has_key(s.drop_last(), user, asset)) by {
            assert(forall|i: int|
                0 <= i < s.drop_last().len() ==> #[trigger] s.drop_last()[i] == s[i]);
        }
        lemma_amount_of_absent(s.drop_last(), user, asset);
    }
}

pub proof fn lemma_amount_of_at(s: Seq<BalanceEntry>, i: int)
    requires
        unique_keys(s),
        0 <= i < s.len(),
    ensures
        amount_of(s, s[i].user, s[i].asset) == s[i].amount,
    decreases s.len(),
{
    if i == s.len() - 1 {
        assert(s.last() == s[i]);
    } else {
        assert(!(s.last().user == s[i].user && s.last().asset == s[i].asset)) by {
            assert(s[s.len() - 1] == s.last());
        }
        assert(unique_keys(s.drop_last()) && s.drop_last()[i] == s[i]) by {
            assert(forall|k: int|
                0 <= k < s.drop_last().len() ==> #[trigger] s.drop_last()[k] == s[k]);
        }
        lemma_amount_of_at(s.drop_last(), i);
    }
}

pub proof fn lemma_amount_of_bounded(s: Seq<BalanceEntry>, user: u64, asset: Asset)
    requires
        amounts_bounded(s),
    ensures
        0 <= amount_of(s, user, asset) <= BALANCE_CAP,
    decreases s.len(),
{
    if s.len() > 0 {
        assert(0 <= s[s.len() - 1].amount <= BALANCE_CAP);
        assert(forall|k: int|
            0 <= k < s.drop_last().len() ==> #[trigger] s.drop_last()[k] == s[k]);
        lemma_amount_of_bounded(s.drop_last(), user, asset);
    }
}

/// Replacing the entry at `i` with one carrying the same key changes the
/// recorded balance at that key and no other.
pub proof fn lemma_amount_of_update(s: Seq<BalanceEntry>, i: int, e: BalanceEntry)
    requires
        unique_keys(s),
        0 <= i < s.len(),
        e.user == s[i].user,
        e.asset == s[i].asset,
    ensures
        forall|u: u64, a: Asset|
            #[trigger] amount_of(s.update(i, e), u, a) == if u == e.user && a == e.asset {
                e.amount as int
            } else {
                amount_of(s, u, a)
            },
    decreases s.len(),
{
    let t = s.update(i, e);
    assert forall|u: u64, a: Asset|
        #[trigger] amount_of(t, u, a) == if u == e.user && a == e.asset {
            e.amount as int
        } else {
            amount_of(s, u, a)
        } by {
        lemma_amount_of_update_one(s, i, e, u, a);
    }
}

proof fn lemma_amount_of_update_one(s: Seq<BalanceEntry>, i: int, e: BalanceEntry, u: u64, a: Asset)
    requires
        unique_keys(s),
        0 <= i < s.len(),
        e.user == s[i].user,
        e.asset == s[i].asset,
    ensures
        amount_of(s.update(i, e), u, a) == if u == e.user && a == e.asset {
            e.amount as int
        } else {
            amount_of(s, u, a)
        },
    decreases s.len(),
{
    let t = s.update(i, e);
    assert(t.len() == s.len());
    if i == s.len() - 1 {
        assert(t.last() == e);
        assert(t.drop_last() =~= s.drop_last());
        assert(s.last() == s[i]);
        if !(u == e.user && a == e.asset) {
            if s.last().user == u && s.last().asset == a {
                assert(false);
            }
        }
    } else {
        assert(t.last() == s[s.len() - 1]);
        assert(s.last() == s[s.len() - 1]);
        assert(t.drop_last() =~= s.drop_last().update(i, e));
        assert(unique_keys(s.drop_last()) && s.drop_last()[i] == s[i]) by {
            assert(forall|k: int|
                0 <= k < s.drop_last().len() ==> #[trigger] s.drop_last()[k] == s[k]);
        }
        lemma_amount_of_update_one(s.drop_last(), i, e, u, a);
        if s.last().user == u && s.last().asset == a {
            // the key sits at the last entry, which the update left alone;
            // uniqueness says it is not also the key at i
            assert(!(u == e.user && a == e.asset));
        }
    }
}

pub proof fn lemma_amount_of_push(s: Seq<BalanceEntry>, e: BalanceEntry)
    ensures
        forall|u: u64, a: Asset|
            #[trigger] amount_of(s.push(e), u, a) == if u == e.user && a == e.asset {
                e.amount as int
            } else {
                amount_of(s, u, a)
            },
{
    assert forall|u: u64, a: Asset|
        #[trigger] amount_of(s.push(e), u, a) == if u == e.user && a == e.asset {
            e.amount as int
        } else {
            amount_of(s, u, a)
        } by {
        let t = s.push(e);
        assert(t.last() == e);
        assert(t.drop_last() =~= s);
    }
}

/// The recorded balance for (user, asset), by linear scan.
pub fn balance_lookup(s: &Vec<BalanceEntry>, user: u64, asset: Asset) -> (r: i128)
    requires
        unique_keys(s@),
    ensures
        r == amount_of(s@, user, asset),
{
    let n = s.len();
    let mut i: usize = 0;
    while i < n
        invariant
            n == s@.len(),
            i <= n,
            unique_keys(s@),
            forall|k: int| 0 <= k < i ==> !((#[trigger] s@[k]).user == user && s@[k].asset == asset),
        decreases n - i,
    {
        if s[i].user == user && s[i].asset == asset {
            proof {
                lemma_amount_of_at(s@, i as int);
            }
            return s[i].amount;
        }
        i += 1;
    }
    proof {
        lemma_amount_of_absent(s@, user, asset);
    }
    0
}

/// Sets the balance for (user, asset) to `new_amount`, adding an entry
/// when the key is new.
pub fn balance_set(s: &mut Vec<BalanceEntry>, user: u64, asset: Asset, new_amount: i128)
    requires
        unique_keys(old(s)@),
        amounts_bounded(old(s)@),
        0 <= new_amount <= BALANCE_CAP,
    ensures
        unique_keys(final(s)@),
        amounts_bounded(final(s)@),
        forall|u: u64, a: Asset|
            #[trigger] amount_of(final(s)@, u, a) == if u == user && a == asset {
                new_amount as int
            } else {
                amount_of(old(s)@, u, a)
            },
        forall|k: int|
            0 <= k < final(s)@.len() ==> has_key(old(s)@, (#[trigger] final(s)@[k]).user,
                final(s)@[k].asset) || (final(s)@[k].user == user && final(s)@[k].asset == asset),
{
    let n = s.len();
    let mut i: usize = 0;
    while i < n
        invariant
            s@ == old(s)@,
            n == s@.len(),
            i <= n,
            unique_keys(s@),
            amounts_bounded(s@),
            0 <= new_amount <= BALANCE_CAP,
            forall|k: int| 0 <= k < i ==> !((#[trigger] s@[k]).user == user && s@[k].asset == asset),
        decreases n - i,
    {
        if s[i].user == user && s[i].asset == asset {
            let e = BalanceEntry { user: user, asset: asset, amount: new_amount };
            let ghost pre = s@;
            proof {
                lemma_amount_of_update(pre, i as int, e);
            }
            s[i] = e;
            proof {
                assert(s@ == pre.update(i as int, e));
                assert(forall|k: int|
                    0 <= k < s@.len() && k != i ==> #[trigger] s@[k] == pre[k]);
                assert(s@[i as int] == e);
                assert forall|k: int| 0 <= k < s@.len() implies has_key(pre, (#[trigger] s@[k]).user,
                    s@[k].asset) || (s@[k].user == user && s@[k].asset == asset) by {
                    if k != i {
                        assert(pre[k] == s@[k]);
                    }
                }
            }
            return;
        }
        i += 1;
    }
    let e = BalanceEntry { user: user, asset: asset, amount: new_amount };
    proof {
        lemma_amount_of_push(s@, e);
        assert(!has_key(s@, user, asset));
    }
    let ghost pre = s@;
    s.push(e);
    proof {
        assert(s@ == pre.push(e));
        assert forall|k: int| 0 <= k < s@.len() implies has_key(pre, (#[trigger] s@[k]).user,
            s@[k].asset) || (s@[k].user == user && s@[k].asset == asset) by {
            if k < pre.len() {
                assert(s@[k] == pre[k]);
            }
        }
        assert forall|i2: int, j2: int| 0 <= i2 < j2 < s@.len() implies !(#[trigger] s@[i2].user
            == #[trigger] s@[j2].user && s@[i2].asset == s@[j2].asset) by {
            if j2 == s@.len() - 1 {
                assert(s@[i2] == pre[i2]);
                if s@[i2].user == user && s@[i2].asset == asset {
                    assert(has_key(pre, user, asset));
                }
            } else {
                assert(s@[i2] == pre[i2] && s@[j2] == pre[j2]);
            }
        }
    }
}

} // verus!
