//! The registry of per-asset reserves: configuration, oracle price, and
//! the protocol's aggregate holding of each asset.

use vstd::prelude::*;

use crate::types::{Asset, PRICE_CAP, RESERVE_CAP};

verus! {

/// Admin-supplied configuration of one reserve, in basis points.
#[derive(Clone, Copy, PartialEq, Eq, Structural, Debug)]
pub struct ReserveConfig {
    pub collateral_factor: u32,
    pub liquidation_bonus: u32,
    pub is_active: bool,
    pub can_be_collateral: bool,
}

/// One registered reserve: its configuration, current oracle price
/// (fixed-point, seven decimals) and aggregate asset held.
#[derive(Clone, Copy, PartialEq, Eq, Structural, Debug)]
pub struct ReserveEntry {
    pub asset: Asset,
    pub config: ReserveConfig,
    pub price: i128,
    pub total_reserve: i128,
}

/// No two reserves share an asset.
pub open spec fn unique_assets(s: Seq<ReserveEntry>) -> bool {
    forall|i: int, j: int| 0 <= i < j < s.len() ==> (#[trigger] s[i]).asset != (#[trigger] s[j]).asset
}

/// Every reserve's numeric fields lie in their admissible ranges.
pub open spec fn reserves_bounded(s: Seq<ReserveEntry>) -> bool {
    forall|i: int| 0 <= i < s.len() ==> reserve_ok(#[trigger] s[i])
}

pub open spec fn reserve_ok(r: ReserveEntry) -> bool {
    &&& 0 < r.price <= PRICE_CAP
    &&& r.config.collateral_factor <= 10_000
    &&& r.config.liquidation_bonus <= 10_000
    &&& 0 <= r.total_reserve <= RESERVE_CAP
}

/// The reserve registered for `asset`, if any.
pub open spec fn find_reserve(s: Seq<ReserveEntry>, asset: Asset) -> Option<ReserveEntry>
    decreases s.len(),
{
    if s.len() == 0 {
        Option::None
    } else if s.last().asset == asset {
        Option::Some(s.last())
    } else {
        find_reserve(s.drop_last(), asset)
    }
}

pub open spec fn has_reserve(s: Seq<ReserveEntry>, asset: Asset) -> bool {
    find_reserve(s, asset) is Some
}

/// Aggregate reserve held for `asset`; zero when unregistered.
pub open spec fn total_reserve_of(s: Seq<ReserveEntry>, asset: Asset) -> int {
    match find_reserve(s, asset) {
        Option::Some(r) => r.total_reserve as int,
        Option::None => 0,
    }
}

/// Oracle price of `asset`; zero when unregistered.
pub open spec fn price_of(s: Seq<ReserveEntry>, asset: Asset) -> int {
    match find_reserve(s, asset) {
        Option::Some(r) => r.price as int,
        Option::None => 0,
    }
}

/// Collateral factor of `asset`, in basis points; zero when unregistered.
pub open spec fn collateral_factor_of(s: Seq<ReserveEntry>, asset: Asset) -> int {
    match find_reserve(s, asset) {
        Option::Some(r) => r.config.collateral_factor as int,
        Option::None => 0,
    }
}

/// Liquidation bonus of `asset`, in basis points; zero when unregistered.
pub open spec fn liquidation_bonus_of(s: Seq<ReserveEntry>, asset: Asset) -> int {
    match find_reserve(s, asset) {
        Option::Some(r) => r.config.liquidation_bonus as int,
        Option::None => 0,
    }
}

pub proof fn lemma_find_reserve_at(s: Seq<ReserveEntry>, i: int)
    requires
        unique_assets(s),
        0 <= i < s.len(),
    ensures
        find_reserve(s, s[i].asset) == Option::Some(s[i]),
    decreases s.len(),
{
    if i == s.len() - 1 {
        assert(s.last() == s[i]);
    } else {
        assert(s[s.len() - 1] == s.last());
        assert(unique_assets(s.drop_last()) && s.drop_last()[i] == s[i]) by {
            assert(forall|k: int|
                0 <= k < s.drop_last().len() ==> #[trigger] s.drop_last()[k] == s[k]);
        }
        lemma_find_reserve_at(s.drop_last(), i);
    }
}

pub proof fn lemma_find_reserve_absent(s: Seq<ReserveEntry>, asset: Asset)
    requires
        forall|i: int| 0 <= i < s.len() ==> (#[trigger] s[i]).asset != asset,
    ensures
        find_reserve(s, asset) is None,
    decreases s.len(),
{
    if s.len() > 0 {
        assert(s[s.len() - 1] == s.last());
        assert(forall|k: int|
            0 <= k < s.drop_last().len() ==> #[trigger] s.drop_last()[k] == s[k]);
        lemma_find_reserve_absent(s.drop_last(), asset);
    }
}

/// Replacing the entry at `i` with one for the same asset re-registers
/// that asset and no other.
pub proof fn lemma_find_reserve_update(s: Seq<ReserveEntry>, i: int, e: ReserveEntry)
    requires
        unique_assets(s),
        0 <= i < s.len(),
        e.asset == s[i].asset,
    ensures
        forall|a: Asset|
            #[trigger] find_reserve(s.update(i, e), a) == if a == e.asset {
                Option::Some(e)
            } else {
                find_reserve(s, a)
            },
{
    assert forall|a: Asset|
        #[trigger] find_reserve(s.update(i, e), a) == if a == e.asset {
            Option::Some(e)
        } else {
            find_reserve(s, a)
        } by {
        lemma_find_reserve_update_one(s, i, e, a);
    }
}

proof fn lemma_find_reserve_update_one(s: Seq<ReserveEntry>, i: int, e: ReserveEntry, a: Asset)
    requires
        unique_assets(s),
        0 <= i < s.len(),
        e.asset == s[i].asset,
    ensures
        find_reserve(s.update(i, e), a) == if a == e.asset {
            Option::Some(e)
        } else {
            find_reserve(s, a)
        },
    decreases s.len(),
{
    let t = s.update(i, e);
    assert(t.len() == s.len());
    assert(s[s.len() - 1] == s.last());
    if i == s.len() - 1 {
        assert(t.last() == e);
        assert(t.drop_last() =~= s.drop_last());
        assert(s.last() == s[i]);
    } else {
        assert(t.last() == s[s.len() - 1]);
        assert(t.drop_last() =~= s.drop_last().update(i, e));
        assert(unique_assets(s.drop_last()) && s.drop_last()[i] == s[i]) by {
            assert(forall|k: int|
                0 <= k < s.drop_last().len() ==> #[trigger] s.drop_last()[k] == s[k]);
        }
        lemma_find_reserve_update_one(s.drop_last(), i, e, a);
    }
}

pub proof fn lemma_find_reserve_push(s: Seq<ReserveEntry>, e: ReserveEntry)
    ensures
        forall|a: Asset|
            #[trigger] find_reserve(s.push(e), a) == if a == e.asset {
                Option::Some(e)
            } else {
                find_reserve(s, a)
            },
{
    assert forall|a: Asset|
        #[trigger] find_reserve(s.push(e), a) == if a == e.asset {
            Option::Some(e)
        } else {
            find_reserve(s, a)
        } by {
        let t = s.push(e);
        assert(t.last() == e);
        assert(t.drop_last() =~= s);
    }
}

/// The index of the reserve registered for `asset`, by linear scan.
pub fn reserve_index(s: &Vec<ReserveEntry>, asset: Asset) -> (r: Option<usize>)
    requires
        unique_assets(s@),
    ensures
        match r {
            Option::Some(i) => i < s@.len() && s@[i as int].asset == asset && find_reserve(s@, asset)
                == Option::Some(s@[i as int]),
            Option::None => find_reserve(s@, asset) is None,
        },
{
    let n = s.len();
    let mut i: usize = 0;
    while i < n
        invariant
            n == s@.len(),
            i <= n,
            unique_assets(s@),
            forall|k: int| 0 <= k < i ==> (#[trigger] s@[k]).asset != asset,
        decreases n - i,
    {
        if s[i].asset == asset {
            proof {
                lemma_find_reserve_at(s@, i as int);
            }
            return Option::Some(i);
        }
        i += 1;
    }
    proof {
        lemma_find_reserve_absent(s@, asset);
    }
    Option::None
}

/// Replaces the reserve at `i` with one for the same asset.
pub fn reserve_replace(s: &mut Vec<ReserveEntry>, i: usize, e: ReserveEntry)
    requires
        unique_assets(old(s)@),
        i < old(s)@.len(),
        e.asset == old(s)@[i as int].asset,
    ensures
        unique_assets(final(s)@),
        final(s)@.len() == old(s)@.len(),
        final(s)@ == old(s)@.update(i as int, e),
        forall|a: Asset|
            #[trigger] find_reserve(final(s)@, a) == if a == e.asset {
                Option::Some(e)
            } else {
                find_reserve(old(s)@, a)
            },
{
    proof {
        lemma_find_reserve_update(s@, i as int, e);
    }
    let ghost pre = s@;
    s[i] = e;
    proof {
        assert(s@ == pre.update(i as int, e));
        assert(forall|k: int| 0 <= k < s@.len() && k != i ==> #[trigger] s@[k] == pre[k]);
        assert(s@[i as int] == e);
    }
}

} // verus!
