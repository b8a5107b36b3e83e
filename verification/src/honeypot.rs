//! Honeypot / transfer-tax filter.
//!
//! Every candidate token sharing a pool with a safe anchor token is
//! classified by a seeded round-trip swap: buy the candidate with the
//! anchor, measure how far the delivered amount falls short of the
//! constant-product claim, then sell the proceeds back. A shortfall of
//! 10% or more in either leg, or a reverting leg, marks the token a
//! honeypot; otherwise it joins the verified set. Verdicts are
//! idempotent: a token already classified is never probed again.

use vstd::prelude::*;

use crate::maps::{AddrMap, AddrPair};
use crate::math::{measure_tax_bps, pow10, pow10_u128, tax_rate_bps_spec};
use crate::simulator::{
    spec_simulator_address, swap_outcome, token_tax_bps, DbView, EvmSimulator, TokenMeta,
};
use crate::types::{Address, Pool, Token, U112_MAX};

verus! {

/// A measured tax at or above this many basis points (10%) is a honeypot.
pub const TAX_CRITERIA_BPS: u64 = 1000;

/// The well-known anchor tokens of the target chain.
#[derive(Clone, Copy, Debug, PartialEq, Eq, Structural)]
pub struct SafeTokens {
    pub weth: Address,
    pub usdt: Address,
    pub usdc: Address,
    pub dai: Address,
}

pub open spec fn spec_safe_tokens() -> SafeTokens {
    SafeTokens {
        usdt: Address { hi: 0xdAC17F958D2ee523, mid: 0xa2206206994597C1, lo: 0x3D831ec7 },
        weth: Address { hi: 0xC02aaA39b223FE8D, mid: 0x0A0e5C4F27eAD908, lo: 0x3C756Cc2 },
        usdc: Address { hi: 0xA0b86991c6218b36, mid: 0xc1d19D4a2e9Eb0cE, lo: 0x3606eB48 },
        dai: Address { hi: 0x6B175474E89094C4, mid: 0x4Da98b954EedeAC4, lo: 0x95271d0F },
    }
}

impl SafeTokens {
    pub fn new() -> (r: Self)
        ensures
            r == spec_safe_tokens(),
    {
        SafeTokens {
            usdt: Address { hi: 0xdAC17F958D2ee523, mid: 0xa2206206994597C1, lo: 0x3D831ec7 },
            weth: Address { hi: 0xC02aaA39b223FE8D, mid: 0x0A0e5C4F27eAD908, lo: 0x3C756Cc2 },
            usdc: Address { hi: 0xA0b86991c6218b36, mid: 0xc1d19D4a2e9Eb0cE, lo: 0x3606eB48 },
            dai: Address { hi: 0x6B175474E89094C4, mid: 0x4Da98b954EedeAC4, lo: 0x95271d0F },
        }
    }
}

/// How one pool's candidate token fared.
#[derive(Clone, Copy, Debug, PartialEq, Eq, Structural)]
pub enum PoolVerdict {
    /// Both legs safe, or no safe leg: nothing to test.
    Skipped,
    /// The candidate already has a verdict; it is not probed again.
    AlreadyClassified,
    /// The buy leg reverted.
    BuyFailed,
    /// The buy leg lost 10% or more to the candidate's transfer logic.
    BuyTaxed,
    /// The sell leg reverted.
    SellFailed,
    /// The sell leg lost 10% or more.
    SellTaxed,
    /// The round trip stayed within tolerance; the candidate is admitted.
    Admitted,
}

impl PoolVerdict {
    /// The verdicts that mark the candidate a honeypot.
    pub open spec fn is_honeypot_verdict(self) -> bool {
        self == PoolVerdict::BuyFailed || self == PoolVerdict::BuyTaxed || self
            == PoolVerdict::SellFailed || self == PoolVerdict::SellTaxed
    }
}

/// Classifies candidate tokens against the safe anchors; tax rates are in
/// basis points.
pub struct HoneypotFilter {
    pub simulator: EvmSimulator,
    pub safe_tokens: SafeTokens,
    pub token_info: AddrMap<Token>,
    pub safe_token_info: AddrMap<Token>,
    pub balance_slots: AddrMap<u32>,
    pub honeypot: AddrMap<bool>,
    pub buy_tax: u64,
    pub sell_tax: u64,
}

impl HoneypotFilter {
    pub open spec fn wf(&self) -> bool {
        &&& self.simulator.wf()
        &&& self.token_info.wf()
        &&& self.safe_token_info.wf()
        &&& self.balance_slots.wf()
        &&& self.honeypot.wf()
        &&& forall|t: Address| #[trigger]
            self.safe_token_info@.contains_key(t) ==> self.balance_slots@.contains_key(t)
                && self.safe_token_info@[t].decimals <= 18
    }

    pub fn new(block_number: u64) -> (r: Self)
        ensures
            r.wf(),
            r.safe_tokens == spec_safe_tokens(),
            r.simulator.block_number == block_number,
            r.simulator.db@ == crate::simulator::empty_db(),
            r.token_info@ == Map::<Address, Token>::empty(),
            r.safe_token_info@ == Map::<Address, Token>::empty(),
            r.balance_slots@ == Map::<Address, u32>::empty(),
            r.honeypot@ == Map::<Address, bool>::empty(),
            r.buy_tax == 0 && r.sell_tax == 0,
    {
        HoneypotFilter {
            simulator: EvmSimulator::new(crate::simulator::default_owner(), block_number),
            safe_tokens: SafeTokens::new(),
            token_info: AddrMap::new(),
            safe_token_info: AddrMap::new(),
            balance_slots: AddrMap::new(),
            honeypot: AddrMap::new(),
            buy_tax: 0,
            sell_tax: 0,
        }
    }

    /// Records a resolved safe anchor: its balance slot and metadata.
    /// Anchors already present keep their entry untouched.
    pub fn register_safe_token(&mut self, token: Address, slot: u32, info: Token)
        requires
            old(self).wf(),
            info.decimals <= 18,
        ensures
            final(self).wf(),
            final(self).simulator == old(self).simulator,
            final(self).safe_tokens == old(self).safe_tokens,
            final(self).token_info@ == old(self).token_info@,
            final(self).honeypot@ == old(self).honeypot@,
            final(self).buy_tax == old(self).buy_tax,
            final(self).sell_tax == old(self).sell_tax,
            old(self).safe_token_info@.contains_key(token) ==> final(self).safe_token_info@ == old(
                self,
            ).safe_token_info@ && final(self).balance_slots@ == old(self).balance_slots@,
            !old(self).safe_token_info@.contains_key(token) ==> final(self).safe_token_info@ == old(
                self,
            ).safe_token_info@.insert(token, info) && final(self).balance_slots@ == old(
                self,
            ).balance_slots@.insert(token, slot),
    {
        if self.safe_token_info.contains_key(&token) {
            return;
        }
        self.balance_slots.insert(token, slot);
        self.safe_token_info.insert(token, info);
    }

    /// Installs the resolved safe anchors in bulk: each entry carries a
    /// token, its discovered balance slot and its metadata, as the
    /// remote resolution produced them. Anchors already present keep
    /// their entries; every listed anchor is registered afterwards.
    pub fn setup(&mut self, resolved: Vec<(Address, u32, Token)>)
        requires
            old(self).wf(),
            forall|i: int|
                0 <= i < resolved@.len() ==> (#[trigger] resolved@[i]).2.decimals <= 18,
        ensures
            final(self).wf(),
            final(self).simulator == old(self).simulator,
            final(self).safe_tokens == old(self).safe_tokens,
            final(self).token_info@ == old(self).token_info@,
            final(self).honeypot@ == old(self).honeypot@,
            forall|t: Address| #[trigger]
                old(self).safe_token_info@.contains_key(t)
                    ==> final(self).safe_token_info@.contains_key(t)
                    && final(self).safe_token_info@[t] == old(self).safe_token_info@[t],
            forall|i: int|
                0 <= i < resolved@.len() ==> final(self).safe_token_info@.contains_key(
                    (#[trigger] resolved@[i]).0,
                ) && final(self).balance_slots@.contains_key(resolved@[i].0),
            forall|t: Address| #[trigger]
                final(self).safe_token_info@.contains_key(t) ==> old(
                    self,
                ).safe_token_info@.contains_key(t) || exists|i: int|
                    0 <= i < resolved@.len() && (#[trigger] resolved@[i]).0 == t,
    {
        let n = resolved.len();
        let mut i: usize = 0;
        while i < n
            invariant
                i <= n,
                n == resolved@.len(),
                self.wf(),
                self.simulator == old(self).simulator,
                self.safe_tokens == old(self).safe_tokens,
                self.token_info@ == old(self).token_info@,
                self.honeypot@ == old(self).honeypot@,
                forall|k: int|
                    0 <= k < n ==> (#[trigger] resolved@[k]).2.decimals <= 18,
                forall|t: Address| #[trigger]
                    old(self).safe_token_info@.contains_key(t) ==> self.safe_token_info@.contains_key(
                        t,
                    ) && self.safe_token_info@[t] == old(self).safe_token_info@[t],
                forall|k: int|
                    0 <= k < i ==> self.safe_token_info@.contains_key((#[trigger] resolved@[k]).0)
                        && self.balance_slots@.contains_key(resolved@[k].0),
                forall|t: Address| #[trigger]
                    self.safe_token_info@.contains_key(t) ==> old(
                        self,
                    ).safe_token_info@.contains_key(t) || exists|k: int|
                        0 <= k < i && (#[trigger] resolved@[k]).0 == t,
            decreases n - i,
        {
            let entry = &resolved[i];
            let info = entry.2.duplicate();
            self.register_safe_token(entry.0, entry.1, info);
            i = i + 1;
        }
    }

    /// The safe anchor and the candidate of a pool, when the pool has
    /// exactly one safe leg.
    pub open spec fn spec_safe_leg(&self, pool: Pool) -> Option<(Address, Address)> {
        let s0 = self.safe_token_info@.contains_key(pool.token0);
        let s1 = self.safe_token_info@.contains_key(pool.token1);
        if s0 && s1 {
            None
        } else if s0 {
            Some((pool.token0, pool.token1))
        } else if s1 {
            Some((pool.token1, pool.token0))
        } else {
            None
        }
    }

    /// Units of the anchor the simulator is seeded with: 10,000 of a
    /// stable anchor, 1 of anything else (one whole WETH).
    pub open spec fn spec_seed_units(&self, safe: Address) -> u32 {
        if safe == self.safe_tokens.usdt || safe == self.safe_tokens.usdc || safe
            == self.safe_tokens.dai {
            10000
        } else {
            1
        }
    }

    /// The buy notional in atomic units: 0.1 WETH, or the full seed of a
    /// stable anchor.
    pub open spec fn spec_notional(&self, safe: Address) -> u128 {
        if safe == self.safe_tokens.weth {
            pow10(17) as u128
        } else {
            (self.spec_seed_units(safe) * pow10(self.safe_token_info@[safe].decimals as nat)) as u128
        }
    }

    /// The cache after seeding the simulator contract with the anchor.
    pub open spec fn spec_seeded_db(&self, safe: Address, slot: u32) -> DbView {
        let db = self.simulator.db@;
        let dec = self.safe_token_info@[safe].decimals;
        let units = self.spec_seed_units(safe);
        DbView {
            tokens: db.tokens.insert(
                safe,
                TokenMeta { tax_bps: token_tax_bps(db, safe) as u16, balance_slot: slot },
            ),
            balances: db.balances.insert(
                AddrPair { token: safe, owner: spec_simulator_address() },
                (units * pow10(dec as nat)) as u128,
            ),
            ..db
        }
    }

    /// The verdict, resulting cache and updated tax readings of probing
    /// one pool.
    pub open spec fn spec_check_pool(&self, pool: Pool) -> (PoolVerdict, DbView, u64, u64) {
        let db = self.simulator.db@;
        match self.spec_safe_leg(pool) {
            None => (PoolVerdict::Skipped, db, self.buy_tax, self.sell_tax),
            Some((safe, test)) => {
                if self.token_info@.contains_key(test) || self.honeypot@.contains_key(test) {
                    (PoolVerdict::AlreadyClassified, db, self.buy_tax, self.sell_tax)
                } else {
                    let slot = self.balance_slots@[safe];
                    let db1 = self.spec_seeded_db(safe, slot);
                    let amount_in = self.spec_notional(safe);
                    match swap_outcome(db1, amount_in, pool.address, safe, test) {
                        Err(_) => (PoolVerdict::BuyFailed, db1, self.buy_tax, self.sell_tax),
                        Ok(((e, a), db2)) => {
                            let bt = tax_rate_bps_spec(e as nat, a as nat) as u64;
                            if bt >= TAX_CRITERIA_BPS {
                                (PoolVerdict::BuyTaxed, db2, bt, self.sell_tax)
                            } else {
                                match swap_outcome(db2, a, pool.address, test, safe) {
                                    Err(_) => (PoolVerdict::SellFailed, db2, bt, self.sell_tax),
                                    Ok(((e2, a2), db3)) => {
                                        let st = tax_rate_bps_spec(e2 as nat, a2 as nat) as u64;
                                        if st >= TAX_CRITERIA_BPS {
                                            (PoolVerdict::SellTaxed, db3, bt, st)
                                        } else {
                                            (PoolVerdict::Admitted, db3, bt, st)
                                        }
                                    },
                                }
                            }
                        },
                    }
                }
            },
        }
    }

    /// Probes one pool's candidate token with a seeded round-trip swap
    /// and records the verdict.
    #[verifier::rlimit(100)]
    pub fn check_pool(&mut self, pool: &Pool) -> (v: PoolVerdict)
        requires
            old(self).wf(),
        ensures
            final(self).wf(),
            ({
                let (verdict, dbv, bt, st) = old(self).spec_check_pool(*pool);
                let leg = old(self).spec_safe_leg(*pool);
                &&& v == verdict
                &&& final(self).simulator.db@ == dbv
                &&& final(self).simulator.same_env(&old(self).simulator)
                &&& final(self).buy_tax == bt
                &&& final(self).sell_tax == st
                &&& final(self).safe_tokens == old(self).safe_tokens
                &&& final(self).safe_token_info@ == old(self).safe_token_info@
                &&& final(self).balance_slots@ == old(self).balance_slots@
                &&& (verdict == PoolVerdict::Skipped || verdict == PoolVerdict::AlreadyClassified)
                    ==> final(self).token_info@ == old(self).token_info@ && final(self).honeypot@
                    == old(self).honeypot@
                &&& verdict.is_honeypot_verdict() ==> final(self).honeypot@ == old(
                    self,
                ).honeypot@.insert((leg->0).1, true) && final(self).token_info@ == old(
                    self,
                ).token_info@
                &&& verdict == PoolVerdict::Admitted ==> {
                    let test = (leg->0).1;
                    &&& final(self).honeypot@ == old(self).honeypot@
                    &&& final(self).token_info@ == old(self).token_info@.insert(
                        test,
                        final(self).token_info@[test],
                    )
                    &&& final(self).token_info@[test].address == test
                    &&& final(self).token_info@[test].implementation is None
                }
            }),
    {
        let token0_is_safe = self.safe_token_info.contains_key(&pool.token0);
        let token1_is_safe = self.safe_token_info.contains_key(&pool.token1);
        if token0_is_safe && token1_is_safe {
            return PoolVerdict::Skipped;
        }
        if !token0_is_safe && !token1_is_safe {
            return PoolVerdict::Skipped;
        }
        let (safe_token, test_token) = if token0_is_safe {
            (pool.token0, pool.token1)
        } else {
            (pool.token1, pool.token0)
        };
        if self.token_info.contains_key(&test_token) || self.honeypot.contains_key(&test_token) {
            return PoolVerdict::AlreadyClassified;
        }
        let info_decimals: u8 = match self.safe_token_info.get(&safe_token) {
            Some(info) => info.decimals,
            None => 0,
        };
        let slot: u32 = match self.balance_slots.get(&safe_token) {
            Some(s) => *s,
            None => 0,
        };
        let seed_units: u32 = if safe_token == self.safe_tokens.usdt || safe_token
            == self.safe_tokens.usdc || safe_token == self.safe_tokens.dai {
            10000
        } else {
            1
        };
        proof {
            crate::math::lemma_pow10_increases(info_decimals as nat, 18);
            assert(pow10(18) == 1_000_000_000_000_000_000) by {
                reveal_with_fuel(pow10, 19);
            }
            assert(seed_units as nat * pow10(info_decimals as nat) <= u128::MAX)
                by (nonlinear_arith)
                requires
                    seed_units <= 10000,
                    pow10(info_decimals as nat) <= 1_000_000_000_000_000_000,
            ;
        }
        self.simulator.set_token_balance(
            self.simulator.simulator_address,
            safe_token,
            info_decimals,
            slot,
            seed_units,
        );
        let amount_in: u128 = if safe_token == self.safe_tokens.weth {
            pow10_u128(17)
        } else {
            let unit = pow10_u128(info_decimals);
            proof {
                assert((seed_units as u128) as nat * (unit as nat) == seed_units as nat * pow10(
                    info_decimals as nat,
                )) by (nonlinear_arith)
                    requires
                        unit == pow10(info_decimals as nat),
                ;
            }
            (seed_units as u128) * unit
        };
        let buy = self.simulator.v2_simulate_swap(
            amount_in,
            pool.address,
            safe_token,
            test_token,
            true,
        );
        let (buy_expected, buy_actual) = match buy {
            Ok(out) => out,
            Err(_) => {
                self.honeypot.insert(test_token, true);
                return PoolVerdict::BuyFailed;
            },
        };
        proof {
            lemma_swap_quote_bounds(
                old(self).spec_seeded_db(safe_token, slot),
                amount_in,
                pool.address,
                safe_token,
                test_token,
            );
        }
        let buy_tax_rate = measure_tax_bps(buy_expected, buy_actual);
        self.buy_tax = buy_tax_rate;
        if buy_tax_rate >= TAX_CRITERIA_BPS {
            self.honeypot.insert(test_token, true);
            return PoolVerdict::BuyTaxed;
        }
        let ghost db2 = self.simulator.db@;
        let sell = self.simulator.v2_simulate_swap(
            buy_actual,
            pool.address,
            test_token,
            safe_token,
            true,
        );
        let (sell_expected, sell_actual) = match sell {
            Ok(out) => out,
            Err(_) => {
                self.honeypot.insert(test_token, true);
                return PoolVerdict::SellFailed;
            },
        };
        proof {
            lemma_swap_quote_bounds(db2, buy_actual, pool.address, test_token, safe_token);
        }
        let sell_tax_rate = measure_tax_bps(sell_expected, sell_actual);
        self.sell_tax = sell_tax_rate;
        if sell_tax_rate >= TAX_CRITERIA_BPS {
            self.honeypot.insert(test_token, true);
            return PoolVerdict::SellTaxed;
        }
        let stub = Token {
            address: test_token,
            implementation: None,
            name: String::new(),
            symbol: String::new(),
            decimals: 0,
        };
        self.token_info.insert(test_token, stub);
        PoolVerdict::Admitted
    }
}

impl HoneypotFilter {
    /// Deploys the simulator contract and probes every pool of the
    /// universe in order. Existing verdicts are kept word for word and
    /// their tokens are never probed again; afterwards every candidate
    /// token that shares a pool with exactly one safe anchor holds a
    /// verdict.
    pub fn filter_tokens(&mut self, pools: &Vec<Pool>)
        requires
            old(self).wf(),
        ensures
            final(self).wf(),
            final(self).safe_tokens == old(self).safe_tokens,
            final(self).safe_token_info@ == old(self).safe_token_info@,
            final(self).balance_slots@ == old(self).balance_slots@,
            final(self).simulator.same_env(&old(self).simulator),
            forall|t: Address| #[trigger]
                old(self).token_info@.contains_key(t) ==> final(self).token_info@.contains_key(t)
                    && final(self).token_info@[t] == old(self).token_info@[t],
            forall|t: Address| #[trigger]
                old(self).honeypot@.contains_key(t) ==> final(self).honeypot@.contains_key(t)
                    && final(self).honeypot@[t] == old(self).honeypot@[t],
            forall|i: int|
                0 <= i < pools@.len() && old(self).spec_safe_leg(#[trigger] pools@[i]) is Some
                    ==> final(self).token_info@.contains_key(
                    (old(self).spec_safe_leg(pools@[i])->0).1,
                ) || final(self).honeypot@.contains_key((old(self).spec_safe_leg(pools@[i])->0).1),
            forall|t: Address| #[trigger]
                final(self).token_info@.contains_key(t) ==> old(self).token_info@.contains_key(t)
                    || exists|i: int|
                    0 <= i < pools@.len() && (old(self).spec_safe_leg(#[trigger] pools@[i])
                        matches Some(leg) && leg.1 == t),
            forall|t: Address| #[trigger]
                final(self).honeypot@.contains_key(t) ==> old(self).honeypot@.contains_key(t)
                    || exists|i: int|
                    0 <= i < pools@.len() && (old(self).spec_safe_leg(#[trigger] pools@[i])
                        matches Some(leg) && leg.1 == t),
    {
        self.simulator.deploy_simulator();
        let n = pools.len();
        let mut idx: usize = 0;
        while idx < n
            invariant
                n == pools@.len(),
                idx <= n,
                self.wf(),
                self.safe_tokens == old(self).safe_tokens,
                self.safe_token_info@ == old(self).safe_token_info@,
                self.balance_slots@ == old(self).balance_slots@,
                self.simulator.same_env(&old(self).simulator),
                forall|t: Address| #[trigger]
                    old(self).token_info@.contains_key(t) ==> self.token_info@.contains_key(t)
                        && self.token_info@[t] == old(self).token_info@[t],
                forall|t: Address| #[trigger]
                    old(self).honeypot@.contains_key(t) ==> self.honeypot@.contains_key(t)
                        && self.honeypot@[t] == old(self).honeypot@[t],
                forall|i: int|
                    0 <= i < idx && old(self).spec_safe_leg(#[trigger] pools@[i]) is Some
                        ==> self.token_info@.contains_key((old(self).spec_safe_leg(pools@[i])->0).1)
                        || self.honeypot@.contains_key((old(self).spec_safe_leg(pools@[i])->0).1),
                forall|t: Address| #[trigger]
                    self.token_info@.contains_key(t) ==> old(self).token_info@.contains_key(t)
                        || exists|i: int|
                        0 <= i < idx && (old(self).spec_safe_leg(#[trigger] pools@[i])
                            matches Some(leg) && leg.1 == t),
                forall|t: Address| #[trigger]
                    self.honeypot@.contains_key(t) ==> old(self).honeypot@.contains_key(t)
                        || exists|i: int|
                        0 <= i < idx && (old(self).spec_safe_leg(#[trigger] pools@[i])
                            matches Some(leg) && leg.1 == t),
            decreases n - idx,
        {
            let pool = &pools[idx];
            let ghost before = *self;
            let verdict = self.check_pool(pool);
            proof {
                assert(before.spec_safe_leg(*pool) == old(self).spec_safe_leg(*pool));
                if before.spec_safe_leg(*pool) is Some {
                    let test = (before.spec_safe_leg(*pool)->0).1;
                    if verdict == PoolVerdict::AlreadyClassified {
                        assert(before.token_info@.contains_key(test)
                            || before.honeypot@.contains_key(test));
                    }
                }
            }
            idx = idx + 1;
        }
    }

    pub fn get_tax_rate(&self) -> (r: (u64, u64))
        ensures
            r.0 == self.buy_tax,
            r.1 == self.sell_tax,
    {
        (self.buy_tax, self.sell_tax)
    }

    pub fn is_honeypot(&self, token: Address) -> (r: bool)
        requires
            self.wf(),
        ensures
            r == self.honeypot@.contains_key(token),
    {
        self.honeypot.contains_key(&token)
    }
}

/// Measuring a successful buy of a taxed token recovers the token's
/// transfer-tax rate to within one basis point, as soon as the
/// constant-product claim spans at least one whole basis-point unit.
pub proof fn lemma_buy_reveals_transfer_tax(
    db: DbView,
    amount_in: u128,
    pool: Address,
    token_in: Address,
    token_out: Address,
)
    requires
        swap_outcome(db, amount_in, pool, token_in, token_out) is Ok,
        token_tax_bps(db, token_out) <= 10000,
        (swap_outcome(db, amount_in, pool, token_in, token_out)->Ok_0).0.0 >= 10000,
    ensures
        ({
            let (quote, dbx) = swap_outcome(db, amount_in, pool, token_in, token_out)->Ok_0;
            let p = token_tax_bps(db, token_out);
            let measured = tax_rate_bps_spec(quote.0 as nat, quote.1 as nat);
            measured <= p && measured + 1 >= p
        }),
{
    let (quote, dbx) = swap_outcome(db, amount_in, pool, token_in, token_out)->Ok_0;
    let p = token_tax_bps(db, token_out);
    crate::math::lemma_tax_le(quote.0 as nat, p);
    crate::math::lemma_tax_rate_recovered(quote.0 as nat, p);
}

/// A successful swap's claim stays within a `uint112` reserve, and what
/// arrives never exceeds the claim.
pub proof fn lemma_swap_quote_bounds(
    db: DbView,
    amount_in: u128,
    pool: Address,
    token_in: Address,
    token_out: Address,
)
    requires
        swap_outcome(db, amount_in, pool, token_in, token_out) is Ok,
        db.pools.contains_key(pool) ==> db.pools[pool].wf(),
        token_tax_bps(db, token_in) <= 10000,
        token_tax_bps(db, token_out) <= 10000,
    ensures
        ({
            let (quote, dbx) = swap_outcome(db, amount_in, pool, token_in, token_out)->Ok_0;
            quote.1 <= quote.0 <= U112_MAX
        }),
{
    let p = db.pools[pool];
    let r_in = if token_in == p.token0 {
        p.reserve0
    } else {
        p.reserve1
    };
    let r_out = if token_in == p.token0 {
        p.reserve1
    } else {
        p.reserve0
    };
    let received = (amount_in - crate::math::tax_amount_spec(
        amount_in as nat,
        token_tax_bps(db, token_in),
    )) as u128;
    crate::simulator::lemma_amount_out_lt_reserve(received as nat, r_in as nat, r_out as nat);
    crate::math::lemma_tax_le(
        crate::math::amount_out_spec(received as nat, r_in as nat, r_out as nat),
        token_tax_bps(db, token_out),
    );
}

} // verus!
