//! The swap router and its surroundings: the AMM protocol registry,
//! admin-owned settings, slippage policy, per-user swap history, and
//! replay-protected callback validation.

use vstd::prelude::*;

use crate::math::{expected_output, spec_swap_output};
use crate::types::{Asset, ProtocolError, SWAP_AMOUNT_CAP};

verus! {

/// A token pair supported by a registered protocol, together with the
/// venue's pool identifier.
#[derive(Clone, Copy, PartialEq, Eq, Structural, Debug)]
pub struct TokenPair {
    pub token_a: Asset,
    pub token_b: Asset,
    pub pool_address: u64,
}

/// Registration of one external AMM protocol.
#[derive(Clone, Debug)]
pub struct AmmProtocolConfig {
    pub protocol_address: u64,
    pub protocol_name: String,
    pub enabled: bool,
    pub fee_tier: u32,
    pub min_swap_amount: i128,
    pub max_swap_amount: i128,
    pub supported_pairs: Vec<TokenPair>,
}

/// Admin-owned settings, visible to the very next call after a change.
#[derive(Clone, Copy, PartialEq, Eq, Structural, Debug)]
pub struct AmmSettings {
    pub default_slippage: u32,
    pub max_slippage: u32,
    pub swap_enabled: bool,
    pub liquidity_enabled: bool,
    pub auto_swap_threshold: i128,
}

/// Parameters of one explicit swap request.
#[derive(Clone, Copy, PartialEq, Eq, Structural, Debug)]
pub struct SwapParams {
    pub protocol: u64,
    pub token_in: Asset,
    pub token_out: Asset,
    pub amount_in: i128,
    pub min_amount_out: i128,
    pub slippage_tolerance: u32,
    pub deadline: u64,
}

/// One executed swap, appended to the history log.
#[derive(Clone, Copy, PartialEq, Eq, Structural, Debug)]
pub struct SwapRecord {
    pub user: u64,
    pub amount_in: i128,
    pub amount_out: i128,
    pub protocol: u64,
    pub timestamp: u64,
}

/// A callback payload presented by an external protocol.
#[derive(Clone, Debug)]
pub struct AmmCallbackData {
    pub nonce: u64,
    pub operation: String,
    pub user: u64,
    pub expected_amounts: Vec<i128>,
    pub deadline: u64,
}

/// The per-protocol callback nonce counter: the next nonce the
/// validator will accept.
#[derive(Clone, Copy, PartialEq, Eq, Structural, Debug)]
pub struct NonceEntry {
    pub protocol: u64,
    pub next_nonce: u64,
}

/// The router store: admin, settings, protocol registry, nonce counters
/// and the append-only swap history.
pub struct AmmContract {
    pub admin: Option<u64>,
    pub settings: Option<AmmSettings>,
    pub protocols: Vec<AmmProtocolConfig>,
    pub nonces: Vec<NonceEntry>,
    pub history: Vec<SwapRecord>,
}

/// Admissible settings: the default tolerance within the maximum, the
/// maximum strictly below one whole (a full-slippage swap would pay
/// nothing), the threshold within the swap cap.
pub open spec fn settings_ok(s: AmmSettings) -> bool {
    &&& s.default_slippage <= s.max_slippage
    &&& s.max_slippage < 10_000
    &&& 0 <= s.auto_swap_threshold <= SWAP_AMOUNT_CAP
}

/// Admissible protocol configuration.
pub open spec fn config_ok(c: AmmProtocolConfig) -> bool {
    &&& 0 <= c.min_swap_amount <= c.max_swap_amount <= SWAP_AMOUNT_CAP
    &&& c.fee_tier <= 10_000
}

pub open spec fn unique_protocols(s: Seq<AmmProtocolConfig>) -> bool {
    forall|i: int, j: int|
        0 <= i < j < s.len() ==> (#[trigger] s[i]).protocol_address != (
        #[trigger] s[j]).protocol_address
}

pub open spec fn unique_nonce_entries(s: Seq<NonceEntry>) -> bool {
    forall|i: int, j: int|
        0 <= i < j < s.len() ==> (#[trigger] s[i]).protocol != (#[trigger] s[j]).protocol
}

impl AmmContract {
    pub open spec fn wf(&self) -> bool {
        &&& unique_protocols(self.protocols@)
        &&& forall|i: int|
            0 <= i < self.protocols@.len() ==> config_ok(#[trigger] self.protocols@[i])
        &&& unique_nonce_entries(self.nonces@)
        &&& match self.settings {
            Option::Some(s) => settings_ok(s),
            Option::None => true,
        }
    }
}

/// The registration for `addr`, if any.
pub open spec fn find_protocol(s: Seq<AmmProtocolConfig>, addr: u64) -> Option<AmmProtocolConfig>
    decreases s.len(),
{
    if s.len() == 0 {
        Option::None
    } else if s.last().protocol_address == addr {
        Option::Some(s.last())
    } else {
        find_protocol(s.drop_last(), addr)
    }
}

/// Some supported pair covers the two assets, in either orientation.
pub open spec fn pair_supported(pairs: Seq<TokenPair>, token_in: Asset, token_out: Asset) -> bool {
    exists|i: int|
        0 <= i < pairs.len() && (((#[trigger] pairs[i]).token_a == token_in && pairs[i].token_b
            == token_out) || (pairs[i].token_a == token_out && pairs[i].token_b == token_in))
}

/// The first registered, enabled protocol supporting the pair, in
/// registration order.
pub open spec fn resolve_protocol(s: Seq<AmmProtocolConfig>, token_in: Asset, token_out: Asset)
    -> Option<AmmProtocolConfig>
    decreases s.len(),
{
    if s.len() == 0 {
        Option::None
    } else if s[0].enabled && pair_supported(s[0].supported_pairs@, token_in, token_out) {
        Option::Some(s[0])
    } else {
        resolve_protocol(s.skip(1), token_in, token_out)
    }
}

/// The next nonce the validator accepts for `protocol`; zero before any
/// callback was consumed.
pub open spec fn next_nonce_of(s: Seq<NonceEntry>, protocol: u64) -> int
    decreases s.len(),
{
    if s.len() == 0 {
        0
    } else if s.last().protocol == protocol {
        s.last().next_nonce as int
    } else {
        next_nonce_of(s.drop_last(), protocol)
    }
}

pub proof fn lemma_find_protocol_at(s: Seq<AmmProtocolConfig>, i: int)
    requires
        unique_protocols(s),
        0 <= i < s.len(),
    ensures
        find_protocol(s, s[i].protocol_address) == Option::Some(s[i]),
    decreases s.len(),
{
    if i == s.len() - 1 {
        assert(s.last() == s[i]);
    } else {
        assert(s[s.len() - 1] == s.last());
        assert(unique_protocols(s.drop_last()) && s.drop_last()[i] == s[i]) by {
            assert(forall|k: int|
                0 <= k < s.drop_last().len() ==> #[trigger] s.drop_last()[k] == s[k]);
        }
        lemma_find_protocol_at(s.drop_last(), i);
    }
}

pub proof fn lemma_find_protocol_absent(s: Seq<AmmProtocolConfig>, addr: u64)
    requires
        forall|i: int| 0 <= i < s.len() ==> (#[trigger] s[i]).protocol_address != addr,
    ensures
        find_protocol(s, addr) is None,
    decreases s.len(),
{
    if s.len() > 0 {
        assert(s[s.len() - 1] == s.last());
        assert(forall|k: int|
            0 <= k < s.drop_last().len() ==> #[trigger] s.drop_last()[k] == s[k]);
        lemma_find_protocol_absent(s.drop_last(), addr);
    }
}

pub proof fn lemma_find_protocol_update(s: Seq<AmmProtocolConfig>, i: int, e: AmmProtocolConfig)
    requires
        unique_protocols(s),
        0 <= i < s.len(),
        e.protocol_address == s[i].protocol_address,
    ensures
        forall|a: u64|
            #[trigger] find_protocol(s.update(i, e), a) == if a == e.protocol_address {
                Option::Some(e)
            } else {
                find_protocol(s, a)
            },
{
    assert forall|a: u64|
        #[trigger] find_protocol(s.update(i, e), a) == if a == e.protocol_address {
            Option::Some(e)
        } else {
            find_protocol(s, a)
        } by {
        lemma_find_protocol_update_one(s, i, e, a);
    }
}

proof fn lemma_find_protocol_update_one(
    s: Seq<AmmProtocolConfig>,
    i: int,
    e: AmmProtocolConfig,
    a: u64,
)
    requires
        unique_protocols(s),
        0 <= i < s.len(),
        e.protocol_address == s[i].protocol_address,
    ensures
        find_protocol(s.update(i, e), a) == if a == e.protocol_address {
            Option::Some(e)
        } else {
            find_protocol(s, a)
        },
    decreases s.len(),
{
    let t = s.update(i, e);
    assert(t.len() == s.len());
    assert(s[s.len() - 1] == s.last());
    if i == s.len() - 1 {
        assert(t.last() == e);
        assert(t.drop_last() =~= s.drop_last());
        assert(s.last() == s[i]);
    } else {
        assert(t.last() == s[s.len() - 1]);
        assert(t.drop_last() =~= s.drop_last().update(i, e));
        assert(unique_protocols(s.drop_last()) && s.drop_last()[i] == s[i]) by {
            assert(forall|k: int|
                0 <= k < s.drop_last().len() ==> #[trigger] s.drop_last()[k] == s[k]);
        }
        lemma_find_protocol_update_one(s.drop_last(), i, e, a);
    }
}

pub proof fn lemma_find_protocol_push(s: Seq<AmmProtocolConfig>, e: AmmProtocolConfig)
    ensures
        forall|a: u64|
            #[trigger] find_protocol(s.push(e), a) == if a == e.protocol_address {
                Option::Some(e)
            } else {
                find_protocol(s, a)
            },
{
    assert forall|a: u64|
        #[trigger] find_protocol(s.push(e), a) == if a == e.protocol_address {
            Option::Some(e)
        } else {
            find_protocol(s, a)
        } by {
        let t = s.push(e);
        assert(t.last() == e);
        assert(t.drop_last() =~= s);
    }
}

pub proof fn lemma_next_nonce_at(s: Seq<NonceEntry>, i: int)
    requires
        unique_nonce_entries(s),
        0 <= i < s.len(),
    ensures
        next_nonce_of(s, s[i].protocol) == s[i].next_nonce,
    decreases s.len(),
{
    if i == s.len() - 1 {
        assert(s.last() == s[i]);
    } else {
        assert(s[s.len() - 1] == s.last());
        assert(unique_nonce_entries(s.drop_last()) && s.drop_last()[i] == s[i]) by {
            assert(forall|k: int|
                0 <= k < s.drop_last().len() ==> #[trigger] s.drop_last()[k] == s[k]);
        }
        lemma_next_nonce_at(s.drop_last(), i);
    }
}

pub proof fn lemma_next_nonce_absent(s: Seq<NonceEntry>, protocol: u64)
    requires
        forall|i: int| 0 <= i < s.len() ==> (#[trigger] s[i]).protocol != protocol,
    ensures
        next_nonce_of(s, protocol) == 0,
    decreases s.len(),
{
    if s.len() > 0 {
        assert(s[s.len() - 1] == s.last());
        assert(forall|k: int|
            0 <= k < s.drop_last().len() ==> #[trigger] s.drop_last()[k] == s[k]);
        lemma_next_nonce_absent(s.drop_last(), protocol);
    }
}

proof fn lemma_next_nonce_update_one(s: Seq<NonceEntry>, i: int, e: NonceEntry, p: u64)
    requires
        unique_nonce_entries(s),
        0 <= i < s.len(),
        e.protocol == s[i].protocol,
    ensures
        next_nonce_of(s.update(i, e), p) == if p == e.protocol {
            e.next_nonce as int
        } else {
            next_nonce_of(s, p)
        },
    decreases s.len(),
{
    let t = s.update(i, e);
    assert(t.len() == s.len());
    assert(s[s.len() - 1] == s.last());
    if i == s.len() - 1 {
        assert(t.last() == e);
        assert(t.drop_last() =~= s.drop_last());
        assert(s.last() == s[i]);
    } else {
        assert(t.last() == s[s.len() - 1]);
        assert(t.drop_last() =~= s.drop_last().update(i, e));
        assert(unique_nonce_entries(s.drop_last()) && s.drop_last()[i] == s[i]) by {
            assert(forall|k: int|
                0 <= k < s.drop_last().len() ==> #[trigger] s.drop_last()[k] == s[k]);
        }
        lemma_next_nonce_update_one(s.drop_last(), i, e, p);
    }
}

proof fn lemma_next_nonce_push(s: Seq<NonceEntry>, e: NonceEntry)
    ensures
        forall|p: u64|
            #[trigger] next_nonce_of(s.push(e), p) == if p == e.protocol {
                e.next_nonce as int
            } else {
                next_nonce_of(s, p)
            },
{
    assert forall|p: u64|
        #[trigger] next_nonce_of(s.push(e), p) == if p == e.protocol {
            e.next_nonce as int
        } else {
            next_nonce_of(s, p)
        } by {
        let t = s.push(e);
        assert(t.last() == e);
        assert(t.drop_last() =~= s);
    }
}

/// The index of the registration for `addr`, by linear scan.
fn protocol_index(s: &Vec<AmmProtocolConfig>, addr: u64) -> (r: Option<usize>)
    requires
        unique_protocols(s@),
    ensures
        match r {
            Option::Some(i) => i < s@.len() && s@[i as int].protocol_address == addr
                && find_protocol(s@, addr) == Option::Some(s@[i as int]),
            Option::None => find_protocol(s@, addr) is None,
        },
{
    let n = s.len();
    let mut i: usize = 0;
    while i < n
        invariant
            n == s@.len(),
            i <= n,
            unique_protocols(s@),
            forall|k: int| 0 <= k < i ==> (#[trigger] s@[k]).protocol_address != addr,
        decreases n - i,
    {
        if s[i].protocol_address == addr {
            proof {
                lemma_find_protocol_at(s@, i as int);
            }
            return Option::Some(i);
        }
        i += 1;
    }
    proof {
        lemma_find_protocol_absent(s@, addr);
    }
    Option::None
}

/// Whether some supported pair covers the two assets.
fn pair_supported_exec(pairs: &Vec<TokenPair>, token_in: Asset, token_out: Asset) -> (r: bool)
    ensures
        r == pair_supported(pairs@, token_in, token_out),
{
    let n = pairs.len();
    let mut i: usize = 0;
    while i < n
        invariant
            n == pairs@.len(),
            i <= n,
            forall|k: int|
                0 <= k < i ==> !(((#[trigger] pairs@[k]).token_a == token_in && pairs@[k].token_b
                    == token_out) || (pairs@[k].token_a == token_out && pairs@[k].token_b
                    == token_in)),
        decreases n - i,
    {
        let p = pairs[i];
        if (p.token_a == token_in && p.token_b == token_out) || (p.token_a == token_out
            && p.token_b == token_in) {
            return true;
        }
        i += 1;
    }
    false
}

/// The index of the first registered, enabled protocol supporting the
/// pair, in registration order.
fn resolve_protocol_exec(s: &Vec<AmmProtocolConfig>, token_in: Asset, token_out: Asset) -> (r:
    Option<usize>)
    ensures
        match r {
            Option::Some(i) => i < s@.len() && resolve_protocol(s@, token_in, token_out)
                == Option::Some(s@[i as int]),
            Option::None => resolve_protocol(s@, token_in, token_out) is None,
        },
{
    let n = s.len();
    let mut i: usize = 0;
    proof {
        assert(s@.skip(0) =~= s@);
    }
    while i < n
        invariant
            n == s@.len(),
            i <= n,
            resolve_protocol(s@, token_in, token_out) == resolve_protocol(
                s@.skip(i as int),
                token_in,
                token_out,
            ),
        decreases n - i,
    {
        proof {
            assert(s@.skip(i as int).len() == n - i);
            assert(s@.skip(i as int)[0] == s@[i as int]);
        }
        let enabled = s[i].enabled;
        let supported = pair_supported_exec(&s[i].supported_pairs, token_in, token_out);
        if enabled && supported {
            return Option::Some(i);
        }
        proof {
            assert(s@.skip(i as int).skip(1) =~= s@.skip(i as int + 1));
        }
        i += 1;
    }
    proof {
        assert(s@.skip(n as int).len() == 0);
    }
    Option::None
}

/// The first reason to reject `initialize_amm_settings`, if any.
pub open spec fn init_settings_rejection(
    c: AmmContract,
    default_slippage: u32,
    max_slippage: u32,
    auto_swap_threshold: i128,
) -> Option<ProtocolError> {
    if c.admin is Some || c.settings is Some {
        Option::Some(ProtocolError::AlreadyInitialized)
    } else if !(default_slippage <= max_slippage && max_slippage < 10_000 && 0
        <= auto_swap_threshold <= SWAP_AMOUNT_CAP) {
        Option::Some(ProtocolError::InvalidConfig)
    } else {
        Option::None
    }
}

/// The first reason to reject `update_amm_settings`, if any.
pub open spec fn update_settings_rejection(
    c: AmmContract,
    caller: u64,
    settings: AmmSettings,
) -> Option<ProtocolError> {
    if c.admin != Option::Some(caller) {
        Option::Some(ProtocolError::Unauthorized)
    } else if !settings_ok(settings) {
        Option::Some(ProtocolError::InvalidConfig)
    } else {
        Option::None
    }
}

/// The first reason to reject `add_amm_protocol`, if any.
pub open spec fn add_protocol_rejection(
    c: AmmContract,
    caller: u64,
    config: AmmProtocolConfig,
) -> Option<ProtocolError> {
    if c.admin != Option::Some(caller) {
        Option::Some(ProtocolError::Unauthorized)
    } else if !config_ok(config) {
        Option::Some(ProtocolError::InvalidConfig)
    } else {
        Option::None
    }
}

/// The first reason to reject `auto_swap_for_collateral`, checked in
/// the router's order: amount, settings, threshold, pair resolution,
/// protocol limits.
pub open spec fn auto_swap_rejection(c: AmmContract, target_asset: Asset, amount_in: i128)
    -> Option<ProtocolError> {
    if amount_in <= 0 {
        Option::Some(ProtocolError::InvalidAmount)
    } else {
        match c.settings {
            Option::None => Option::Some(ProtocolError::NotInitialized),
            Option::Some(st) => if !st.swap_enabled {
                Option::Some(ProtocolError::SwapsDisabled)
            } else if amount_in < st.auto_swap_threshold {
                Option::Some(ProtocolError::BelowThreshold)
            } else {
                match resolve_protocol(c.protocols@, Asset::Native, target_asset) {
                    Option::None => Option::Some(ProtocolError::UnsupportedPair),
                    Option::Some(p) => if amount_in < p.min_swap_amount || amount_in
                        > p.max_swap_amount {
                        Option::Some(ProtocolError::AmountOutOfRange)
                    } else if spec_swap_output(amount_in as int, st.default_slippage as int)
                        <= 0 {
                        Option::Some(ProtocolError::InsufficientOutput)
                    } else {
                        Option::None
                    },
                }
            },
        }
    }
}

/// The first reason to reject `execute_swap`, checked in the router's
/// order: amount, settings, slippage policy, deadline, protocol,
/// pair, limits, minimum output.
pub open spec fn execute_swap_rejection(c: AmmContract, params: SwapParams, now: u64) -> Option<
    ProtocolError,
> {
    if params.amount_in <= 0 {
        Option::Some(ProtocolError::InvalidAmount)
    } else {
        match c.settings {
            Option::None => Option::Some(ProtocolError::NotInitialized),
            Option::Some(st) => if !st.swap_enabled {
                Option::Some(ProtocolError::SwapsDisabled)
            } else if params.slippage_tolerance > st.max_slippage {
                Option::Some(ProtocolError::SlippageTooHigh)
            } else if params.deadline < now {
                Option::Some(ProtocolError::DeadlineExpired)
            } else {
                match find_protocol(c.protocols@, params.protocol) {
                    Option::None => Option::Some(ProtocolError::UnknownProtocol),
                    Option::Some(p) => if !p.enabled {
                        Option::Some(ProtocolError::ProtocolDisabled)
                    } else if !pair_supported(
                        p.supported_pairs@,
                        params.token_in,
                        params.token_out,
                    ) {
                        Option::Some(ProtocolError::UnsupportedPair)
                    } else if params.amount_in < p.min_swap_amount || params.amount_in
                        > p.max_swap_amount {
                        Option::Some(ProtocolError::AmountOutOfRange)
                    } else if spec_swap_output(
                        params.amount_in as int,
                        params.slippage_tolerance as int,
                    ) < params.min_amount_out || spec_swap_output(
                        params.amount_in as int,
                        params.slippage_tolerance as int,
                    ) <= 0 {
                        Option::Some(ProtocolError::InsufficientOutput)
                    } else {
                        Option::None
                    },
                }
            },
        }
    }
}

/// The first reason to reject `validate_amm_callback`: the caller must
/// be a registered, enabled protocol; the nonce must be exactly the
/// next one for that protocol (the final nonce value is reserved so the
/// counter cannot wrap); the deadline must not have passed.
pub open spec fn callback_rejection(
    c: AmmContract,
    protocol: u64,
    nonce: u64,
    deadline: u64,
    now: u64,
) -> Option<ProtocolError> {
    match find_protocol(c.protocols@, protocol) {
        Option::None => Option::Some(ProtocolError::Unauthorized),
        Option::Some(p) => if !p.enabled {
            Option::Some(ProtocolError::Unauthorized)
        } else if nonce != next_nonce_of(c.nonces@, protocol) || nonce == u64::MAX {
            Option::Some(ProtocolError::NonceReplay)
        } else if deadline < now {
            Option::Some(ProtocolError::DeadlineExpired)
        } else {
            Option::None
        },
    }
}

/// Records matching the filter, in insertion order.
pub open spec fn filtered_history(s: Seq<SwapRecord>, filter: Option<u64>) -> Seq<SwapRecord>
    decreases s.len(),
{
    if s.len() == 0 {
        Seq::empty()
    } else {
        let rest = filtered_history(s.drop_last(), filter);
        if record_matches(s.last(), filter) {
            rest.push(s.last())
        } else {
            rest
        }
    }
}

pub open spec fn record_matches(r: SwapRecord, filter: Option<u64>) -> bool {
    match filter {
        Option::None => true,
        Option::Some(u) => r.user == u,
    }
}

impl AmmContract {
    /// A fresh, uninitialized router store.
    pub fn new() -> (r: AmmContract)
        ensures
            r.wf(),
            r.admin is None,
            r.settings is None,
            r.protocols@.len() == 0,
            r.nonces@.len() == 0,
            r.history@.len() == 0,
    {
        AmmContract {
            admin: Option::None,
            settings: Option::None,
            protocols: Vec::new(),
            nonces: Vec::new(),
            history: Vec::new(),
        }
    }

    /// True when `caller` is the recorded admin.
    fn is_admin(&self, caller: u64) -> (r: bool)
        ensures
            r == (self.admin == Option::Some(caller)),
    {
        match self.admin {
            Option::Some(a) => a == caller,
            Option::None => false,
        }
    }

    /// Records the admin and the initial settings; swaps and liquidity
    /// start enabled. Only a store that was never initialized accepts.
    pub fn initialize_amm_settings(
        &mut self,
        admin: u64,
        default_slippage: u32,
        max_slippage: u32,
        auto_swap_threshold: i128,
    ) -> (r: Result<(), ProtocolError>)
        requires
            old(self).wf(),
        ensures
            final(self).wf(),
            match r {
                Result::Ok(_) => {
                    &&& init_settings_rejection(
                        *old(self),
                        default_slippage,
                        max_slippage,
                        auto_swap_threshold,
                    ) is None
                    &&& final(self).admin == Option::Some(admin)
                    &&& final(self).settings == Option::Some(
                        AmmSettings {
                            default_slippage: default_slippage,
                            max_slippage: max_slippage,
                            swap_enabled: true,
                            liquidity_enabled: true,
                            auto_swap_threshold: auto_swap_threshold,
                        },
                    )
                    &&& final(self).protocols@ == old(self).protocols@
                    &&& final(self).nonces@ == old(self).nonces@
                    &&& final(self).history@ == old(self).history@
                },
                Result::Err(e) => Option::Some(e) == init_settings_rejection(
                    *old(self),
                    default_slippage,
                    max_slippage,
                    auto_swap_threshold,
                ) && *final(self) == *old(self),
            },
    {
        let taken = match self.admin {
            Option::Some(_) => true,
            Option::None => match self.settings {
                Option::Some(_) => true,
                Option::None => false,
            },
        };
        if taken {
            return Result::Err(ProtocolError::AlreadyInitialized);
        }
        if !(default_slippage <= max_slippage && max_slippage < 10_000 && 0 <= auto_swap_threshold
            && auto_swap_threshold <= SWAP_AMOUNT_CAP) {
            return Result::Err(ProtocolError::InvalidConfig);
        }
        self.admin = Option::Some(admin);
        self.settings = Option::Some(
            AmmSettings {
                default_slippage: default_slippage,
                max_slippage: max_slippage,
                swap_enabled: true,
                liquidity_enabled: true,
                auto_swap_threshold: auto_swap_threshold,
            },
        );
        Result::Ok(())
    }

    /// Replaces the settings wholesale. Admin only; the new values are
    /// visible to the very next call.
    pub fn update_amm_settings(&mut self, caller: u64, settings: AmmSettings) -> (r: Result<
        (),
        ProtocolError,
    >)
        requires
            old(self).wf(),
        ensures
            final(self).wf(),
            match r {
                Result::Ok(_) => {
                    &&& update_settings_rejection(*old(self), caller, settings) is None
                    &&& final(self).settings == Option::Some(settings)
                    &&& final(self).admin == old(self).admin
                    &&& final(self).protocols@ == old(self).protocols@
                    &&& final(self).nonces@ == old(self).nonces@
                    &&& final(self).history@ == old(self).history@
                },
                Result::Err(e) => Option::Some(e) == update_settings_rejection(
                    *old(self),
                    caller,
                    settings,
                ) && *final(self) == *old(self),
            },
    {
        if !self.is_admin(caller) {
            return Result::Err(ProtocolError::Unauthorized);
        }
        if !(settings.default_slippage <= settings.max_slippage && settings.max_slippage < 10_000
            && 0 <= settings.auto_swap_threshold && settings.auto_swap_threshold
            <= SWAP_AMOUNT_CAP) {
            return Result::Err(ProtocolError::InvalidConfig);
        }
        self.settings = Option::Some(settings);
        Result::Ok(())
    }

    /// The checked surface of `update_amm_settings`.
    pub fn try_update_amm_settings(&mut self, caller: u64, settings: AmmSettings) -> (r: Result<
        (),
        ProtocolError,
    >)
        requires
            old(self).wf(),
        ensures
            final(self).wf(),
            match r {
                Result::Ok(_) => update_settings_rejection(*old(self), caller, settings) is None
                    && final(self).settings == Option::Some(settings) && final(self).admin == old(
                    self,
                ).admin && final(self).protocols@ == old(self).protocols@ && final(self).nonces@
                    == old(self).nonces@ && final(self).history@ == old(self).history@,
                Result::Err(e) => Option::Some(e) == update_settings_rejection(
                    *old(self),
                    caller,
                    settings,
                ) && *final(self) == *old(self),
            },
    {
        self.update_amm_settings(caller, settings)
    }

    /// The current settings.
    pub fn get_amm_settings(&self) -> (r: Option<AmmSettings>)
        ensures
            r == self.settings,
    {
        match self.settings {
            Option::Some(s) => Option::Some(s),
            Option::None => Option::None,
        }
    }

    /// Registers a protocol, or replaces the registration carrying the
    /// same address. Admin only. Consumed nonces survive
    /// re-registration, so replay protection is never reset.
    pub fn add_amm_protocol(&mut self, caller: u64, config: AmmProtocolConfig) -> (r: Result<
        (),
        ProtocolError,
    >)
        requires
            old(self).wf(),
        ensures
            final(self).wf(),
            match r {
                Result::Ok(_) => {
                    &&& add_protocol_rejection(*old(self), caller, config) is None
                    &&& forall|a: u64|
                        #[trigger] find_protocol(final(self).protocols@, a) == if a
                            == config.protocol_address {
                            Option::Some(config)
                        } else {
                            find_protocol(old(self).protocols@, a)
                        }
                    &&& (find_protocol(old(self).protocols@, config.protocol_address)
                        is Some ==> final(self).protocols@.len() == old(self).protocols@.len()
                        && (forall|k: int|
                        0 <= k < old(self).protocols@.len() ==> (
                        #[trigger] final(self).protocols@[k]).protocol_address
                            == old(self).protocols@[k].protocol_address
                            && (old(self).protocols@[k].protocol_address
                            != config.protocol_address ==> final(self).protocols@[k]
                            == old(self).protocols@[k])))
                    &&& (find_protocol(old(self).protocols@, config.protocol_address)
                        is None ==> final(self).protocols@ == old(self).protocols@.push(config))
                    &&& final(self).admin == old(self).admin
                    &&& final(self).settings == old(self).settings
                    &&& final(self).nonces@ == old(self).nonces@
                    &&& final(self).history@ == old(self).history@
                },
                Result::Err(e) => Option::Some(e) == add_protocol_rejection(
                    *old(self),
                    caller,
                    config,
                ) && *final(self) == *old(self),
            },
    {
        if !self.is_admin(caller) {
            return Result::Err(ProtocolError::Unauthorized);
        }
        if !(0 <= config.min_swap_amount && config.min_swap_amount <= config.max_swap_amount
            && config.max_swap_amount <= SWAP_AMOUNT_CAP && config.fee_tier <= 10_000) {
            return Result::Err(ProtocolError::InvalidConfig);
        }
        let addr = config.protocol_address;
        match protocol_index(&self.protocols, addr) {
            Option::Some(i) => {
                proof {
                    lemma_find_protocol_update(self.protocols@, i as int, config);
                }
                let ghost pre = self.protocols@;
                self.protocols[i] = config;
                proof {
                    assert(self.protocols@ == pre.update(i as int, config));
                    assert(forall|k: int|
                        0 <= k < self.protocols@.len() && k != i ==> #[trigger] self.protocols@[k]
                            == pre[k]);
                    assert(self.protocols@[i as int] == config);
                }
                Result::Ok(())
            },
            Option::None => {
                proof {
                    lemma_find_protocol_push(self.protocols@, config);
                }
                let ghost pre = self.protocols@;
                self.protocols.push(config);
                proof {
                    assert(self.protocols@ == pre.push(self.protocols@.last()));
                    assert(forall|k: int|
                        0 <= k < pre.len() ==> #[trigger] self.protocols@[k] == pre[k]);
                    assert forall|i2: int, j2: int|
                        0 <= i2 < j2 < self.protocols@.len() implies (
                    #[trigger] self.protocols@[i2]).protocol_address != (
                    #[trigger] self.protocols@[j2]).protocol_address by {
                        if j2 == self.protocols@.len() - 1 {
                            assert(self.protocols@[i2] == pre[i2]);
                            if pre[i2].protocol_address == addr {
                                lemma_find_protocol_at(pre, i2);
                            }
                        }
                    }
                }
                Result::Ok(())
            },
        }
    }
}

impl AmmContract {
    /// Routes `amount_in` of the native asset toward `target_asset`
    /// through the first registered, enabled protocol supporting the
    /// pair, under the current settings' threshold and the default
    /// slippage; on success appends one history record for `caller` and
    /// returns the output amount.
    pub fn auto_swap_for_collateral(
        &mut self,
        caller: u64,
        target_asset: Asset,
        amount_in: i128,
        now: u64,
    ) -> (r: Result<i128, ProtocolError>)
        requires
            old(self).wf(),
        ensures
            final(self).wf(),
            match r {
                Result::Err(e) => Option::Some(e) == auto_swap_rejection(
                    *old(self),
                    target_asset,
                    amount_in,
                ) && *final(self) == *old(self),
                Result::Ok(out) => {
                    &&& auto_swap_rejection(*old(self), target_asset, amount_in) is None
                    &&& out == spec_swap_output(
                        amount_in as int,
                        old(self).settings.unwrap().default_slippage as int,
                    )
                    &&& out > 0
                    &&& final(self).history@ == old(self).history@.push(
                        SwapRecord {
                            user: caller,
                            amount_in: amount_in,
                            amount_out: out,
                            protocol: resolve_protocol(
                                old(self).protocols@,
                                Asset::Native,
                                target_asset,
                            ).unwrap().protocol_address,
                            timestamp: now,
                        },
                    )
                    &&& final(self).admin == old(self).admin
                    &&& final(self).settings == old(self).settings
                    &&& final(self).protocols@ == old(self).protocols@
                    &&& final(self).nonces@ == old(self).nonces@
                },
            },
    {
        if amount_in <= 0 {
            return Result::Err(ProtocolError::InvalidAmount);
        }
        let st = match self.settings {
            Option::None => {
                return Result::Err(ProtocolError::NotInitialized);
            },
            Option::Some(st) => st,
        };
        if !st.swap_enabled {
            return Result::Err(ProtocolError::SwapsDisabled);
        }
        if amount_in < st.auto_swap_threshold {
            return Result::Err(ProtocolError::BelowThreshold);
        }
        let pi = match resolve_protocol_exec(&self.protocols, Asset::Native, target_asset) {
            Option::None => {
                return Result::Err(ProtocolError::UnsupportedPair);
            },
            Option::Some(i) => i,
        };
        proof {
            assert(config_ok(self.protocols@[pi as int]));
        }
        let min_amount = self.protocols[pi].min_swap_amount;
        let max_amount = self.protocols[pi].max_swap_amount;
        if amount_in < min_amount || amount_in > max_amount {
            return Result::Err(ProtocolError::AmountOutOfRange);
        }
        let out = expected_output(amount_in, st.default_slippage);
        if out <= 0 {
            return Result::Err(ProtocolError::InsufficientOutput);
        }
        let record = SwapRecord {
            user: caller,
            amount_in: amount_in,
            amount_out: out,
            protocol: self.protocols[pi].protocol_address,
            timestamp: now,
        };
        self.history.push(record);
        Result::Ok(out)
    }

    /// The checked surface of `auto_swap_for_collateral`: same
    /// validations, same effects, same result.
    pub fn try_auto_swap_for_collateral(
        &mut self,
        caller: u64,
        target_asset: Asset,
        amount_in: i128,
        now: u64,
    ) -> (r: Result<i128, ProtocolError>)
        requires
            old(self).wf(),
        ensures
            final(self).wf(),
            match r {
                Result::Err(e) => Option::Some(e) == auto_swap_rejection(
                    *old(self),
                    target_asset,
                    amount_in,
                ) && *final(self) == *old(self),
                Result::Ok(out) => {
                    &&& auto_swap_rejection(*old(self), target_asset, amount_in) is None
                    &&& out == spec_swap_output(
                        amount_in as int,
                        old(self).settings.unwrap().default_slippage as int,
                    )
                    &&& out > 0
                    &&& final(self).history@ == old(self).history@.push(
                        SwapRecord {
                            user: caller,
                            amount_in: amount_in,
                            amount_out: out,
                            protocol: resolve_protocol(
                                old(self).protocols@,
                                Asset::Native,
                                target_asset,
                            ).unwrap().protocol_address,
                            timestamp: now,
                        },
                    )
                    &&& final(self).admin == old(self).admin
                    &&& final(self).settings == old(self).settings
                    &&& final(self).protocols@ == old(self).protocols@
                    &&& final(self).nonces@ == old(self).nonces@
                },
            },
    {
        self.auto_swap_for_collateral(caller, target_asset, amount_in, now)
    }

    /// Executes an explicit swap request under the caller's own
    /// slippage tolerance, the settings' maximum, the request's deadline
    /// and the protocol's limits; on success appends one history record
    /// for `caller` and returns the output amount.
    pub fn execute_swap(&mut self, caller: u64, params: SwapParams, now: u64) -> (r: Result<
        i128,
        ProtocolError,
    >)
        requires
            old(self).wf(),
        ensures
            final(self).wf(),
            match r {
                Result::Err(e) => Option::Some(e) == execute_swap_rejection(
                    *old(self),
                    params,
                    now,
                ) && *final(self) == *old(self),
                Result::Ok(out) => {
                    &&& execute_swap_rejection(*old(self), params, now) is None
                    &&& out == spec_swap_output(
                        params.amount_in as int,
                        params.slippage_tolerance as int,
                    )
                    &&& out > 0
                    &&& final(self).history@ == old(self).history@.push(
                        SwapRecord {
                            user: caller,
                            amount_in: params.amount_in,
                            amount_out: out,
                            protocol: params.protocol,
                            timestamp: now,
                        },
                    )
                    &&& final(self).admin == old(self).admin
                    &&& final(self).settings == old(self).settings
                    &&& final(self).protocols@ == old(self).protocols@
                    &&& final(self).nonces@ == old(self).nonces@
                },
            },
    {
        if params.amount_in <= 0 {
            return Result::Err(ProtocolError::InvalidAmount);
        }
        let st = match self.settings {
            Option::None => {
                return Result::Err(ProtocolError::NotInitialized);
            },
            Option::Some(st) => st,
        };
        if !st.swap_enabled {
            return Result::Err(ProtocolError::SwapsDisabled);
        }
        if params.slippage_tolerance > st.max_slippage {
            return Result::Err(ProtocolError::SlippageTooHigh);
        }
        if params.deadline < now {
            return Result::Err(ProtocolError::DeadlineExpired);
        }
        let pi = match protocol_index(&self.protocols, params.protocol) {
            Option::None => {
                return Result::Err(ProtocolError::UnknownProtocol);
            },
            Option::Some(i) => i,
        };
        proof {
            assert(config_ok(self.protocols@[pi as int]));
        }
        if !self.protocols[pi].enabled {
            return Result::Err(ProtocolError::ProtocolDisabled);
        }
        if !pair_supported_exec(&self.protocols[pi].supported_pairs, params.token_in,
            params.token_out) {
            return Result::Err(ProtocolError::UnsupportedPair);
        }
        if params.amount_in < self.protocols[pi].min_swap_amount || params.amount_in
            > self.protocols[pi].max_swap_amount {
            return Result::Err(ProtocolError::AmountOutOfRange);
        }
        let out = expected_output(params.amount_in, params.slippage_tolerance);
        if out < params.min_amount_out || out <= 0 {
            return Result::Err(ProtocolError::InsufficientOutput);
        }
        let record = SwapRecord {
            user: caller,
            amount_in: params.amount_in,
            amount_out: out,
            protocol: params.protocol,
            timestamp: now,
        };
        self.history.push(record);
        Result::Ok(out)
    }

    /// The checked surface of `execute_swap`: same validations, same
    /// effects, same result.
    pub fn try_execute_swap(&mut self, caller: u64, params: SwapParams, now: u64) -> (r: Result<
        i128,
        ProtocolError,
    >)
        requires
            old(self).wf(),
        ensures
            final(self).wf(),
            match r {
                Result::Err(e) => Option::Some(e) == execute_swap_rejection(
                    *old(self),
                    params,
                    now,
                ) && *final(self) == *old(self),
                Result::Ok(out) => {
                    &&& execute_swap_rejection(*old(self), params, now) is None
                    &&& out == spec_swap_output(
                        params.amount_in as int,
                        params.slippage_tolerance as int,
                    )
                    &&& out > 0
                    &&& final(self).history@ == old(self).history@.push(
                        SwapRecord {
                            user: caller,
                            amount_in: params.amount_in,
                            amount_out: out,
                            protocol: params.protocol,
                            timestamp: now,
                        },
                    )
                    &&& final(self).admin == old(self).admin
                    &&& final(self).settings == old(self).settings
                    &&& final(self).protocols@ == old(self).protocols@
                    &&& final(self).nonces@ == old(self).nonces@
                },
            },
    {
        self.execute_swap(caller, params, now)
    }

    /// Authenticates a protocol callback: registered and enabled caller,
    /// exactly the next nonce, live deadline. Acceptance consumes the
    /// nonce for good; rejection changes nothing.
    pub fn validate_amm_callback(&mut self, protocol: u64, data: &AmmCallbackData, now: u64) -> (r:
        Result<(), ProtocolError>)
        requires
            old(self).wf(),
        ensures
            final(self).wf(),
            match r {
                Result::Err(e) => Option::Some(e) == callback_rejection(
                    *old(self),
                    protocol,
                    data.nonce,
                    data.deadline,
                    now,
                ) && *final(self) == *old(self),
                Result::Ok(_) => {
                    &&& callback_rejection(*old(self), protocol, data.nonce, data.deadline, now)
                        is None
                    &&& forall|p: u64|
                        #[trigger] next_nonce_of(final(self).nonces@, p) == if p == protocol {
                            data.nonce + 1
                        } else {
                            next_nonce_of(old(self).nonces@, p)
                        }
                    &&& final(self).admin == old(self).admin
                    &&& final(self).settings == old(self).settings
                    &&& final(self).protocols@ == old(self).protocols@
                    &&& final(self).history@ == old(self).history@
                },
            },
    {
        let pi = match protocol_index(&self.protocols, protocol) {
            Option::None => {
                return Result::Err(ProtocolError::Unauthorized);
            },
            Option::Some(i) => i,
        };
        if !self.protocols[pi].enabled {
            return Result::Err(ProtocolError::Unauthorized);
        }
        let expected = self.nonce_lookup(protocol);
        if data.nonce != expected || data.nonce == u64::MAX {
            return Result::Err(ProtocolError::NonceReplay);
        }
        if data.deadline < now {
            return Result::Err(ProtocolError::DeadlineExpired);
        }
        self.nonce_set(protocol, data.nonce + 1);
        Result::Ok(())
    }

    /// The checked surface of `validate_amm_callback`: same
    /// validations, same effects, same result.
    pub fn try_validate_amm_callback(
        &mut self,
        protocol: u64,
        data: &AmmCallbackData,
        now: u64,
    ) -> (r: Result<(), ProtocolError>)
        requires
            old(self).wf(),
        ensures
            final(self).wf(),
            match r {
                Result::Err(e) => Option::Some(e) == callback_rejection(
                    *old(self),
                    protocol,
                    data.nonce,
                    data.deadline,
                    now,
                ) && *final(self) == *old(self),
                Result::Ok(_) => {
                    &&& callback_rejection(*old(self), protocol, data.nonce, data.deadline, now)
                        is None
                    &&& forall|p: u64|
                        #[trigger] next_nonce_of(final(self).nonces@, p) == if p == protocol {
                            data.nonce + 1
                        } else {
                            next_nonce_of(old(self).nonces@, p)
                        }
                    &&& final(self).admin == old(self).admin
                    &&& final(self).settings == old(self).settings
                    &&& final(self).protocols@ == old(self).protocols@
                    &&& final(self).history@ == old(self).history@
                },
            },
    {
        self.validate_amm_callback(protocol, data, now)
    }

    /// The accepted nonce counter for `protocol`.
    fn nonce_lookup(&self, protocol: u64) -> (r: u64)
        requires
            self.wf(),
        ensures
            r == next_nonce_of(self.nonces@, protocol),
    {
        let n = self.nonces.len();
        let mut i: usize = 0;
        while i < n
            invariant
                n == self.nonces@.len(),
                i <= n,
                unique_nonce_entries(self.nonces@),
                forall|k: int| 0 <= k < i ==> (#[trigger] self.nonces@[k]).protocol != protocol,
            decreases n - i,
        {
            if self.nonces[i].protocol == protocol {
                proof {
                    lemma_next_nonce_at(self.nonces@, i as int);
                }
                return self.nonces[i].next_nonce;
            }
            i += 1;
        }
        proof {
            lemma_next_nonce_absent(self.nonces@, protocol);
        }
        0
    }

    /// Sets the accepted nonce counter for `protocol`.
    fn nonce_set(&mut self, protocol: u64, next: u64)
        requires
            old(self).wf(),
        ensures
            final(self).wf(),
            forall|p: u64|
                #[trigger] next_nonce_of(final(self).nonces@, p) == if p == protocol {
                    next as int
                } else {
                    next_nonce_of(old(self).nonces@, p)
                },
            final(self).admin == old(self).admin,
            final(self).settings == old(self).settings,
            final(self).protocols@ == old(self).protocols@,
            final(self).history@ == old(self).history@,
    {
        let e = NonceEntry { protocol: protocol, next_nonce: next };
        let n = self.nonces.len();
        let mut i: usize = 0;
        while i < n
            invariant
                *self == *old(self),
                self.wf(),
                n == self.nonces@.len(),
                i <= n,
                forall|k: int| 0 <= k < i ==> (#[trigger] self.nonces@[k]).protocol != protocol,
            decreases n - i,
        {
            if self.nonces[i].protocol == protocol {
                let e2 = NonceEntry { protocol: protocol, next_nonce: next };
                let ghost pre = self.nonces@;
                proof {
                    assert forall|p: u64|
                        #[trigger] next_nonce_of(pre.update(i as int, e2), p) == if p == protocol {
                            next as int
                        } else {
                            next_nonce_of(pre, p)
                        } by {
                        lemma_next_nonce_update_one(pre, i as int, e2, p);
                    }
                }
                self.nonces[i] = e2;
                proof {
                    assert(self.nonces@ == pre.update(i as int, e2));
                    assert(forall|k: int|
                        0 <= k < self.nonces@.len() && k != i ==> #[trigger] self.nonces@[k]
                            == pre[k]);
                    assert(self.nonces@[i as int] == e2);
                    assert forall|i2: int, j2: int|
                        0 <= i2 < j2 < self.nonces@.len() implies (
                    #[trigger] self.nonces@[i2]).protocol != (
                    #[trigger] self.nonces@[j2]).protocol by {
                        assert(pre[i2].protocol != pre[j2].protocol);
                    }
                }
                return;
            }
            i += 1;
        }
        proof {
            lemma_next_nonce_push(self.nonces@, e);
        }
        let ghost pre = self.nonces@;
        self.nonces.push(e);
        proof {
            assert(self.nonces@ == pre.push(e));
            assert(forall|k: int| 0 <= k < pre.len() ==> #[trigger] self.nonces@[k] == pre[k]);
            assert forall|i2: int, j2: int|
                0 <= i2 < j2 < self.nonces@.len() implies (#[trigger] self.nonces@[i2]).protocol
                != (#[trigger] self.nonces@[j2]).protocol by {
                if j2 == self.nonces@.len() - 1 {
                    assert(self.nonces@[i2] == pre[i2]);
                }
            }
        }
    }

    /// The swap history, most recent first: records for `user_filter`
    /// when present, otherwise all, capped at `limit`.
    pub fn get_swap_history(&self, user_filter: Option<u64>, limit: u32) -> (r: Result<
        Vec<SwapRecord>,
        ProtocolError,
    >)
        ensures
            match r {
                Result::Ok(v) => {
                    let f = filtered_history(self.history@, user_filter);
                    &&& v@.len() == if limit as int <= f.len() {
                        limit as int
                    } else {
                        f.len() as int
                    }
                    &&& forall|k: int| 0 <= k < v@.len() ==> #[trigger] v@[k] == f[f.len() - 1 - k]
                },
                Result::Err(_) => false,
            },
    {
        let n = self.history.len();
        let mut all: Vec<SwapRecord> = Vec::new();
        let mut i: usize = 0;
        proof {
            assert(self.history@.take(0) =~= Seq::<SwapRecord>::empty());
        }
        while i < n
            invariant
                n == self.history@.len(),
                i <= n,
                all@ == filtered_history(self.history@.take(i as int), user_filter),
            decreases n - i,
        {
            proof {
                assert(self.history@.take(i + 1 as int).drop_last() =~= self.history@.take(
                    i as int,
                ));
                assert(self.history@.take(i + 1 as int).last() == self.history@[i as int]);
            }
            let rec = self.history[i];
            let keep = match user_filter {
                Option::None => true,
                Option::Some(u) => rec.user == u,
            };
            if keep {
                all.push(rec);
            }
            i += 1;
        }
        proof {
            assert(self.history@.take(n as int) =~= self.history@);
        }
        let ghost f = filtered_history(self.history@, user_filter);
        let m = all.len();
        let cap = if (limit as usize) < m {
            limit as usize
        } else {
            m
        };
        let mut out: Vec<SwapRecord> = Vec::new();
        let mut k: usize = 0;
        while k < cap
            invariant
                cap <= m,
                m == all@.len(),
                all@ == f,
                k <= cap,
                out@.len() == k,
                forall|j: int| 0 <= j < k ==> #[trigger] out@[j] == f[f.len() - 1 - j],
            decreases cap - k,
        {
            out.push(all[m - 1 - k]);
            k += 1;
        }
        Result::Ok(out)
    }
}

} // verus!
