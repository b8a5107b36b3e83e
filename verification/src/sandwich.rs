//! Sandwich bundle profit simulation.
//!
//! A candidate bundle is frontrun, victim, backrun on one pool: buy the
//! non-safe token with the anchor, replay the victim's transaction, then
//! sell everything the frontrun received. The profit is what the backrun
//! returns minus the frontrun notional, in the anchor token's atomic
//! units. Each bundle runs from its own cache so candidates never
//! contaminate each other.

use vstd::prelude::*;

use crate::honeypot::HoneypotFilter;
use crate::maps::{AddrMap, AddrPair};
use crate::math::pow10;
use crate::simulator::{
    db_wf, empty_db, lemma_pending_preserves_wf, lemma_swap_ok_bounds, pending_outcome,
    spec_simulator_address, swap_outcome, CacheDb, DbView, EvmSimulator, PoolState, TokenMeta,
};
use crate::types::{Address, EvmError, PendingTx, Pool, Token};

verus! {

/// One sandwich candidate: the bundle notional, the anchor token and its
/// balance slot, the pool under attack and the victim transaction.
pub struct Sandwich {
    pub amount_in: u128,
    pub balance_slot: u32,
    pub target_token: Token,
    pub target_pool: Pool,
    pub meat_tx: PendingTx,
}

impl Sandwich {
    /// The swap direction of the frontrun: anchor in, other token out.
    pub open spec fn spec_direction(&self) -> (Address, Address) {
        if self.target_pool.token0 == self.target_token.address {
            (self.target_pool.token0, self.target_pool.token1)
        } else {
            (self.target_pool.token1, self.target_pool.token0)
        }
    }
}

/// The profit of running frontrun, victim, backrun from cache `db0`: the
/// frontrun buys with `amount_in` of the anchor, the victim transaction
/// is replayed and tolerated to fail, and the backrun sells the
/// frontrun's proceeds. A reverting frontrun or backrun fails the whole
/// bundle.
pub open spec fn bundle_outcome(db0: DbView, s: Sandwich) -> Result<i128, EvmError> {
    let (input_token, output_token) = s.spec_direction();
    match swap_outcome(db0, s.amount_in, s.target_pool.address, input_token, output_token) {
        Err(e) => Err(e),
        Ok((front, db1)) => {
            let db2 = match pending_outcome(db1, s.meat_tx) {
                Ok((out, d)) => d,
                Err(_) => db1,
            };
            match swap_outcome(db2, front.1, s.target_pool.address, output_token, input_token) {
                Err(e) => Err(e),
                Ok((back, db3)) => Ok((back.1 as i128 - s.amount_in as i128) as i128),
            }
        },
    }
}

/// The cache a bundle starts from when no snapshot is injected: a fresh
/// harness funded with ether, the simulator deployed, and the simulator
/// seeded with 10,000 units of the anchor token.
pub open spec fn fresh_bundle_db(owner: Address, s: Sandwich) -> DbView {
    DbView {
        eth: Map::<Address, u128>::empty().insert(owner, (10000 * pow10(18)) as u128),
        tokens: Map::<Address, TokenMeta>::empty().insert(
            s.target_token.address,
            TokenMeta { tax_bps: 0, balance_slot: s.balance_slot },
        ),
        balances: Map::<AddrPair, u128>::empty().insert(
            AddrPair { token: s.target_token.address, owner: spec_simulator_address() },
            (10000 * pow10(s.target_token.decimals as nat)) as u128,
        ),
        pools: Map::<Address, PoolState>::empty(),
        simulator_deployed: true,
    }
}

/// Simulates one sandwich bundle from an injected snapshot or from a
/// fresh seeded harness, exact against [`bundle_outcome`]. The anchor
/// token is a blue-chip with at most 18 decimals, so the fresh seed of
/// 10,000 whole units fits the model's 128-bit amounts.
pub fn simulate_sandwich_bundle(
    sandwich: &Sandwich,
    owner: Address,
    block_number: u64,
    fork_db: Option<CacheDb>,
) -> (r: Result<i128, EvmError>)
    requires
        sandwich.target_token.decimals <= 18,
        match fork_db {
            Some(db) => db.wf(),
            None => true,
        },
    ensures
        ({
            let db0 = match fork_db {
                Some(db) => db@,
                None => fresh_bundle_db(owner, *sandwich),
            };
            r == bundle_outcome(db0, *sandwich)
        }),
{
    let amount_in = sandwich.amount_in;
    let (input_token, output_token) = if sandwich.target_pool.token0
        == sandwich.target_token.address {
        (sandwich.target_pool.token0, sandwich.target_pool.token1)
    } else {
        (sandwich.target_pool.token1, sandwich.target_pool.token0)
    };
    let mut simulator = EvmSimulator::new(owner, block_number);
    let simulator_addr = simulator.simulator_address;
    match fork_db {
        Some(db) => {
            proof {
                assert(db_wf(db@));
            }
            simulator.inject_db(db);
        },
        None => {
            simulator.set_eth_balance(10000);
            simulator.deploy_simulator();
            proof {
                crate::math::lemma_pow10_increases(sandwich.target_token.decimals as nat, 18);
                assert(pow10(18) == 1_000_000_000_000_000_000) by {
                    reveal_with_fuel(pow10, 19);
                }
                assert(10000nat * pow10(sandwich.target_token.decimals as nat) <= u128::MAX)
                    by (nonlinear_arith)
                    requires
                        pow10(sandwich.target_token.decimals as nat)
                            <= 1_000_000_000_000_000_000,
                ;
            }
            simulator.set_token_balance(
                simulator_addr,
                sandwich.target_token.address,
                sandwich.target_token.decimals,
                sandwich.balance_slot,
                10000,
            );
        },
    }
    let ghost db0 = simulator.db@;
    proof {
        assert forall|x: Address| #[trigger] db0.tokens.contains_key(x) implies db0.tokens[x].wf()
            by {}
        assert forall|x: Address| #[trigger] db0.pools.contains_key(x) implies db0.pools[x].wf()
            by {}
    }
    let front = match simulator.v2_simulate_swap(
        amount_in,
        sandwich.target_pool.address,
        input_token,
        output_token,
        true,
    ) {
        Ok(out) => out,
        Err(e) => {
            return Err(e);
        },
    };
    // the victim transaction is replayed verbatim; its failure is
    // tolerated, its success moves the cache
    let _meat = simulator.run_pending_tx(&sandwich.meat_tx);
    let ghost db2 = simulator.db@;
    let back = match simulator.v2_simulate_swap(
        front.1,
        sandwich.target_pool.address,
        output_token,
        input_token,
        true,
    ) {
        Ok(out) => out,
        Err(e) => {
            return Err(e);
        },
    };
    proof {
        // the cast to a signed profit is safe: both legs succeeded, so
        // amounts stay within the pool's uint112 reserves
        lemma_swap_ok_bounds(
            db0,
            amount_in,
            sandwich.target_pool.address,
            input_token,
            output_token,
        );
        let db1 = (swap_outcome(
            db0,
            amount_in,
            sandwich.target_pool.address,
            input_token,
            output_token,
        )->Ok_0).1;
        lemma_pending_preserves_wf(db1, sandwich.meat_tx);
        lemma_swap_ok_bounds(
            db2,
            front.1,
            sandwich.target_pool.address,
            output_token,
            input_token,
        );
    }
    Ok((back.1 as i128) - (amount_in as i128))
}

/// A committed mempool transaction acts through its target and calldata
/// alone.
pub proof fn lemma_pending_outcome_congruence(db: DbView, a: PendingTx, b: PendingTx)
    requires
        a.to == b.to,
        a.input@ == b.input@,
    ensures
        pending_outcome(db, a) == pending_outcome(db, b),
{
}

/// A bundle's outcome reads the victim transaction through its target
/// and calldata alone.
pub proof fn lemma_bundle_outcome_congruence(db0: DbView, a: Sandwich, b: Sandwich)
    requires
        a.amount_in == b.amount_in,
        a.balance_slot == b.balance_slot,
        a.target_token.address == b.target_token.address,
        a.target_pool == b.target_pool,
        a.meat_tx.to == b.meat_tx.to,
        a.meat_tx.input@ == b.meat_tx.input@,
    ensures
        bundle_outcome(db0, a) == bundle_outcome(db0, b),
{
    let (input_token, output_token) = a.spec_direction();
    assert(b.spec_direction() == (input_token, output_token));
    match swap_outcome(db0, a.amount_in, a.target_pool.address, input_token, output_token) {
        Err(_) => {},
        Ok((front, db1)) => {
            lemma_pending_outcome_congruence(db1, a.meat_tx, b.meat_tx);
        },
    }
}

/// Runs sandwich bundles for every candidate a state-diff scan produced.
pub struct SandwichSimulator {
    pub simulator: EvmSimulator,
}

impl SandwichSimulator {
    pub fn new(owner: Address, block_number: u64) -> (r: Self)
        ensures
            r.simulator.wf(),
            r.simulator.owner == owner,
            r.simulator.block_number == block_number,
            r.simulator.db@ == empty_db(),
    {
        SandwichSimulator { simulator: EvmSimulator::new(owner, block_number) }
    }

    /// A detached copy of the harness cache.
    pub fn db_snapshot(&self) -> (r: CacheDb)
        ensures
            r@ == self.simulator.db@,
            r.wf() == self.simulator.db.wf(),
    {
        self.simulator.db_snapshot()
    }

    /// Seeds the harness for every sandwichable pool, snapshots it, and
    /// prices each candidate bundle from its own copy of the snapshot.
    /// Each returned entry carries the pool, the anchor token, and the
    /// bundle's outcome under the common post-seeding cache.
    pub fn simulate(
        &mut self,
        tx: &PendingTx,
        sandwichable_pools: &AddrMap<Option<Address>>,
        verified_pools_map: &AddrMap<Pool>,
        honeypot_filter: &HoneypotFilter,
    ) -> (r: Vec<((Address, Address), Result<i128, EvmError>)>)
        requires
            old(self).simulator.wf(),
            sandwichable_pools.wf(),
            verified_pools_map.wf(),
            honeypot_filter.wf(),
        ensures
            final(self).simulator.wf(),
            final(self).simulator.same_env(&old(self).simulator),
            r@.len() <= sandwichable_pools.pairs().len(),
            forall|i: int|
                0 <= i < sandwichable_pools.pairs().len() && ((#[trigger] sandwichable_pools.pairs()[i]).1
                    matches Some(s) && verified_pools_map@.contains_key(
                    sandwichable_pools.pairs()[i].0,
                ) && honeypot_filter.safe_token_info@.contains_key(s)
                    && honeypot_filter.balance_slots@.contains_key(s)) ==> exists|k: int|
                    0 <= k < r@.len() && (#[trigger] r@[k]).0 == (
                        sandwichable_pools.pairs()[i].0,
                        sandwichable_pools.pairs()[i].1->0,
                    ),
            forall|k: int|
                0 <= k < r@.len() ==> {
                    let pool_addr = (#[trigger] r@[k]).0.0;
                    let safe = r@[k].0.1;
                    &&& verified_pools_map@.contains_key(pool_addr)
                    &&& honeypot_filter.safe_token_info@.contains_key(safe)
                    &&& honeypot_filter.balance_slots@.contains_key(safe)
                    &&& r@[k].1 == bundle_outcome(
                        final(self).simulator.db@,
                        Sandwich {
                            amount_in: pow10(
                                honeypot_filter.safe_token_info@[safe].decimals as nat,
                            ) as u128,
                            balance_slot: honeypot_filter.balance_slots@[safe],
                            target_token: honeypot_filter.safe_token_info@[safe],
                            target_pool: verified_pools_map@[pool_addr],
                            meat_tx: *tx,
                        },
                    )
                },
    {
        self.simulator.set_eth_balance(10000);
        self.simulator.deploy_simulator();
        let owner = self.simulator.owner;
        let block_number = self.simulator.block_number;
        let simulator_addr = self.simulator.simulator_address;

        // seed the simulator contract with every anchor that appears in a
        // candidate, then collect the plans
        let mut plans: Vec<(Address, Address)> = Vec::new();
        let n = sandwichable_pools.num_entries();
        let mut i: usize = 0;
        while i < n
            invariant
                n == sandwichable_pools.pairs().len(),
                i <= n,
                sandwichable_pools.wf(),
                verified_pools_map.wf(),
                honeypot_filter.wf(),
                self.simulator.wf(),
                self.simulator.same_env(&old(self).simulator),
                self.simulator.owner == owner,
                self.simulator.block_number == block_number,
                plans@.len() <= i,
                forall|k: int|
                    0 <= k < plans@.len() ==> verified_pools_map@.contains_key(
                        (#[trigger] plans@[k]).0,
                    ) && honeypot_filter.safe_token_info@.contains_key(plans@[k].1)
                        && honeypot_filter.balance_slots@.contains_key(plans@[k].1),
                forall|j: int|
                    0 <= j < i && ((#[trigger] sandwichable_pools.pairs()[j]).1 matches Some(s)
                        && verified_pools_map@.contains_key(sandwichable_pools.pairs()[j].0)
                        && honeypot_filter.safe_token_info@.contains_key(s)
                        && honeypot_filter.balance_slots@.contains_key(s)) ==> exists|k: int|
                        0 <= k < plans@.len() && #[trigger] plans@[k] == (
                            sandwichable_pools.pairs()[j].0,
                            sandwichable_pools.pairs()[j].1->0,
                        ),
            decreases n - i,
        {
            let entry = sandwichable_pools.pair_at(i);
            let ghost pre_plans = plans@;
            let touched_pool = entry.0;
            match entry.1 {
                Some(safe_token) => {
                    let safe = safe_token;
                    if verified_pools_map.contains_key(&touched_pool)
                        && honeypot_filter.safe_token_info.contains_key(&safe)
                        && honeypot_filter.balance_slots.contains_key(&safe) {
                        let decimals: u8 = match honeypot_filter.safe_token_info.get(&safe) {
                            Some(info) => info.decimals,
                            None => 0,
                        };
                        let slot: u32 = match honeypot_filter.balance_slots.get(&safe) {
                            Some(s) => *s,
                            None => 0,
                        };
                        proof {
                            crate::math::lemma_pow10_increases(decimals as nat, 18);
                            assert(pow10(18) == 1_000_000_000_000_000_000) by {
                                reveal_with_fuel(pow10, 19);
                            }
                            assert(10000nat * pow10(decimals as nat) <= u128::MAX)
                                by (nonlinear_arith)
                                requires
                                    pow10(decimals as nat) <= 1_000_000_000_000_000_000,
                            ;
                        }
                        self.simulator.set_token_balance(
                            simulator_addr,
                            safe,
                            decimals,
                            slot,
                            10000,
                        );
                        plans.push((touched_pool, safe));
                        proof {
                            assert(plans@[plans@.len() - 1] == (touched_pool, safe));
                            assert(sandwichable_pools.pairs()[i as int] == *entry);
                            assert forall|j: int|
                                0 <= j < i + 1 && ((#[trigger] sandwichable_pools.pairs()[j]).1
                                    matches Some(s) && verified_pools_map@.contains_key(
                                    sandwichable_pools.pairs()[j].0,
                                ) && honeypot_filter.safe_token_info@.contains_key(s)
                                    && honeypot_filter.balance_slots@.contains_key(
                                    s,
                                )) implies exists|k: int|
                                0 <= k < plans@.len() && #[trigger] plans@[k] == (
                                    sandwichable_pools.pairs()[j].0,
                                    sandwichable_pools.pairs()[j].1->0,
                                ) by {
                                if j == i {
                                    assert(plans@[plans@.len() - 1] == (
                                        sandwichable_pools.pairs()[j].0,
                                        sandwichable_pools.pairs()[j].1->0,
                                    ));
                                } else {
                                    let k = choose|k: int|
                                        0 <= k < pre_plans.len() && #[trigger] pre_plans[k] == (
                                            sandwichable_pools.pairs()[j].0,
                                            sandwichable_pools.pairs()[j].1->0,
                                        );
                                    assert(plans@[k] == pre_plans[k]);
                                }
                            }
                        }
                    }
                },
                None => {},
            }
            i = i + 1;
        }

        // price each candidate from its own copy of the common snapshot
        let mut results: Vec<((Address, Address), Result<i128, EvmError>)> = Vec::new();
        let m = plans.len();
        let mut j: usize = 0;
        while j < m
            invariant
                m == plans@.len(),
                m <= n == sandwichable_pools.pairs().len(),
                j <= m,
                results@.len() == j,
                sandwichable_pools.wf(),
                verified_pools_map.wf(),
                honeypot_filter.wf(),
                self.simulator.wf(),
                self.simulator.same_env(&old(self).simulator),
                forall|k: int|
                    0 <= k < plans@.len() ==> verified_pools_map@.contains_key(
                        (#[trigger] plans@[k]).0,
                    ) && honeypot_filter.safe_token_info@.contains_key(plans@[k].1)
                        && honeypot_filter.balance_slots@.contains_key(plans@[k].1),
                forall|k: int|
                    0 <= k < j ==> {
                        let pool_addr = (#[trigger] results@[k]).0.0;
                        let safe = results@[k].0.1;
                        &&& (pool_addr, safe) == plans@[k]
                        &&& verified_pools_map@.contains_key(pool_addr)
                        &&& honeypot_filter.safe_token_info@.contains_key(safe)
                        &&& honeypot_filter.balance_slots@.contains_key(safe)
                        &&& results@[k].1 == bundle_outcome(
                            self.simulator.db@,
                            Sandwich {
                                amount_in: pow10(
                                    honeypot_filter.safe_token_info@[safe].decimals as nat,
                                ) as u128,
                                balance_slot: honeypot_filter.balance_slots@[safe],
                                target_token: honeypot_filter.safe_token_info@[safe],
                                target_pool: verified_pools_map@[pool_addr],
                                meat_tx: *tx,
                            },
                        )
                    },
            decreases m - j,
        {
            let (touched_pool, safe) = plans[j];
            let info: Token = match honeypot_filter.safe_token_info.get(&safe) {
                Some(t) => t.duplicate(),
                None => vstd::pervasive::unreached(),
            };
            let slot: u32 = match honeypot_filter.balance_slots.get(&safe) {
                Some(s) => *s,
                None => vstd::pervasive::unreached(),
            };
            let pool: Pool = match verified_pools_map.get(&touched_pool) {
                Some(p) => *p,
                None => vstd::pervasive::unreached(),
            };
            let amount_in: u128 = crate::math::pow10_u128(info.decimals);
            let sandwich = Sandwich {
                amount_in,
                balance_slot: slot,
                target_token: info,
                target_pool: pool,
                meat_tx: tx.duplicate(),
            };
            let fork_db = self.db_snapshot();
            let outcome = simulate_sandwich_bundle(&sandwich, owner, block_number, Some(fork_db));
            proof {
                lemma_bundle_outcome_congruence(
                    self.simulator.db@,
                    sandwich,
                    Sandwich {
                        amount_in,
                        balance_slot: slot,
                        target_token: honeypot_filter.safe_token_info@[safe],
                        target_pool: verified_pools_map@[touched_pool],
                        meat_tx: *tx,
                    },
                );
            }
            results.push(((touched_pool, safe), outcome));
            j = j + 1;
        }
        proof {
            assert forall|i: int|
                0 <= i < sandwichable_pools.pairs().len() && ((#[trigger] sandwichable_pools.pairs()[i]).1
                    matches Some(s) && verified_pools_map@.contains_key(
                    sandwichable_pools.pairs()[i].0,
                ) && honeypot_filter.safe_token_info@.contains_key(s)
                    && honeypot_filter.balance_slots@.contains_key(s)) implies exists|k: int|
                0 <= k < results@.len() && (#[trigger] results@[k]).0 == (
                    sandwichable_pools.pairs()[i].0,
                    sandwichable_pools.pairs()[i].1->0,
                ) by {
                let k = choose|k: int|
                    0 <= k < plans@.len() && #[trigger] plans@[k] == (
                        sandwichable_pools.pairs()[i].0,
                        sandwichable_pools.pairs()[i].1->0,
                    );
                assert(results@[k].0.0 == plans@[k].0 && results@[k].0.1 == plans@[k].1);
                assert(results@[k].0 == plans@[k]);
            }
        }
        results
    }
}

} // verus!
