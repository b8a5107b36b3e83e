//! Triangular-arbitrage simulation.
//!
//! An arbitrage path is an ordered run of two or three constant-product
//! hops anchored at a target token; walking it swaps the full proceeds of
//! each hop into the next and reports the final balance minus the
//! notional, in the target token's atomic units. A failing hop fails the
//! whole path, and each path is priced from its own cache.

use vstd::prelude::*;

use crate::math::pow10;
use crate::simulator::{
    db_wf, lemma_swap_ok_bounds, spec_simulator_address, swap_outcome, CacheDb, DbView,
    EvmSimulator, TokenMeta,
};
use crate::types::{Address, EvmError, Pool, Token, U112_MAX};

verus! {

/// An ordered sequence of hops; `directions[n]` is `zero_for_one` of hop
/// `n`.
pub struct ArbPath {
    pub pools: Vec<Pool>,
    pub directions: Vec<bool>,
    pub nhop: usize,
}

impl ArbPath {
    /// Paths have two or three hops, one direction per hop.
    pub open spec fn wf(&self) -> bool {
        &&& self.nhop == self.pools@.len()
        &&& self.nhop == self.directions@.len()
        &&& 2 <= self.nhop <= 3
    }

    pub fn get_pool(&self, n: usize) -> (r: &Pool)
        requires
            self.wf(),
            n < self.nhop,
        ensures
            *r == self.pools@[n as int],
    {
        &self.pools[n]
    }

    pub fn get_zero_for_one(&self, n: usize) -> (r: bool)
        requires
            self.wf(),
            n < self.nhop,
        ensures
            r == self.directions@[n as int],
    {
        self.directions[n]
    }
}

/// One candidate path with its notional and the seeding data of the
/// anchor token.
pub struct TriangularArbitrage {
    pub amount_in: u128,
    pub path: ArbPath,
    pub balance_slot: u32,
    pub target_token: Token,
}

/// What walking the hops from cache `db` with `amount` in hand returns:
/// the final amount in hand, or the first hop's failure.
pub open spec fn arb_outcome(db: DbView, pools: Seq<Pool>, dirs: Seq<bool>, amount: u128) -> Result<
    u128,
    EvmError,
>
    decreases pools.len(),
{
    if pools.len() == 0 {
        Ok(amount)
    } else {
        let pool = pools[0];
        let (token_in, token_out) = if dirs[0] {
            (pool.token0, pool.token1)
        } else {
            (pool.token1, pool.token0)
        };
        match swap_outcome(db, amount, pool.address, token_in, token_out) {
            Err(e) => Err(e),
            Ok((quote, db2)) => arb_outcome(db2, pools.drop_first(), dirs.drop_first(), quote.1),
        }
    }
}

/// On a well-formed cache, whatever a non-empty walk returns fits a
/// `uint112`, as every hop pays out of such a reserve.
pub proof fn lemma_arb_outcome_bound(db: DbView, pools: Seq<Pool>, dirs: Seq<bool>, amount: u128)
    requires
        db_wf(db),
    ensures
        match arb_outcome(db, pools, dirs, amount) {
            Ok(out) => pools.len() == 0 ==> out == amount,
            Err(_) => true,
        },
        match arb_outcome(db, pools, dirs, amount) {
            Ok(out) => pools.len() > 0 ==> out <= U112_MAX,
            Err(_) => true,
        },
    decreases pools.len(),
{
    if pools.len() > 0 {
        let pool = pools[0];
        let (token_in, token_out) = if dirs[0] {
            (pool.token0, pool.token1)
        } else {
            (pool.token1, pool.token0)
        };
        match swap_outcome(db, amount, pool.address, token_in, token_out) {
            Err(_) => {},
            Ok((quote, db2)) => {
                lemma_swap_ok_bounds(db, amount, pool.address, token_in, token_out);
                lemma_arb_outcome_bound(db2, pools.drop_first(), dirs.drop_first(), quote.1);
            },
        }
    }
}

/// The cache a path walk starts from when no snapshot is injected.
pub open spec fn fresh_arb_db(owner: Address, arb: &TriangularArbitrage) -> DbView {
    DbView {
        eth: Map::<Address, u128>::empty().insert(owner, (100000 * pow10(18)) as u128),
        tokens: Map::<Address, TokenMeta>::empty().insert(
            arb.target_token.address,
            TokenMeta { tax_bps: 0, balance_slot: arb.balance_slot },
        ),
        balances: Map::<crate::maps::AddrPair, u128>::empty().insert(
            crate::maps::AddrPair {
                token: arb.target_token.address,
                owner: spec_simulator_address(),
            },
            (100000 * pow10(arb.target_token.decimals as nat)) as u128,
        ),
        pools: Map::<Address, crate::simulator::PoolState>::empty(),
        simulator_deployed: true,
    }
}

/// Walks an arbitrage path from an injected snapshot or a fresh seeded
/// harness and reports the profit in the target token's atomic units,
/// exact against [`arb_outcome`]. The anchor token is a blue-chip with
/// at most 18 decimals, and the notional stays within `uint112` — a
/// pool could not accept more anyway.
pub fn simulate_triangular_arbitrage(
    arb: &TriangularArbitrage,
    owner: Address,
    block_number: u64,
    fork_db: Option<CacheDb>,
) -> (r: Result<i128, EvmError>)
    requires
        arb.path.wf(),
        arb.target_token.decimals <= 18,
        arb.amount_in <= U112_MAX,
        match fork_db {
            Some(db) => db.wf(),
            None => true,
        },
    ensures
        ({
            let db0 = match fork_db {
                Some(db) => db@,
                None => fresh_arb_db(owner, arb),
            };
            match arb_outcome(db0, arb.path.pools@, arb.path.directions@, arb.amount_in) {
                Ok(out) => r == Ok::<i128, EvmError>((out - arb.amount_in) as i128),
                Err(e) => r == Err::<i128, EvmError>(e),
            }
        }),
{
    let mut simulator = EvmSimulator::new(owner, block_number);
    let simulator_addr = simulator.simulator_address;
    match fork_db {
        Some(db) => {
            proof {
                assert(db_wf(db@));
            }
            simulator.inject_db(db);
        },
        None => {
            simulator.set_eth_balance(100000);
            simulator.deploy_simulator();
            proof {
                crate::math::lemma_pow10_increases(arb.target_token.decimals as nat, 18);
                assert(pow10(18) == 1_000_000_000_000_000_000) by {
                    reveal_with_fuel(pow10, 19);
                }
                assert(100000nat * pow10(arb.target_token.decimals as nat) <= u128::MAX)
                    by (nonlinear_arith)
                    requires
                        pow10(arb.target_token.decimals as nat) <= 1_000_000_000_000_000_000,
                ;
            }
            simulator.set_token_balance(
                simulator_addr,
                arb.target_token.address,
                arb.target_token.decimals,
                arb.balance_slot,
                100000,
            );
        },
    }
    let ghost db0 = simulator.db@;
    proof {
        assert forall|x: Address| #[trigger] db0.tokens.contains_key(x) implies db0.tokens[x].wf()
            by {}
        assert forall|x: Address| #[trigger] db0.pools.contains_key(x) implies db0.pools[x].wf()
            by {}
        lemma_arb_outcome_bound(db0, arb.path.pools@, arb.path.directions@, arb.amount_in);
    }
    let mut amount_out: u128 = arb.amount_in;
    let nhop = arb.path.nhop;
    proof {
        assert(arb.path.pools@.skip(0) =~= arb.path.pools@);
        assert(arb.path.directions@.skip(0) =~= arb.path.directions@);
    }
    let mut n: usize = 0;
    while n < nhop
        invariant
            arb.path.wf(),
            nhop == arb.path.nhop,
            n <= nhop,
            simulator.wf(),
            fork_db matches Some(db) ==> db0 == db@,
            fork_db is None ==> db0 == fresh_arb_db(owner, arb),
            arb_outcome(db0, arb.path.pools@, arb.path.directions@, arb.amount_in) == arb_outcome(
                simulator.db@,
                arb.path.pools@.skip(n as int),
                arb.path.directions@.skip(n as int),
                amount_out,
            ),
        decreases nhop - n,
    {
        let pool = *arb.path.get_pool(n);
        let zero_for_one = arb.path.get_zero_for_one(n);
        let (input_token, output_token) = if zero_for_one {
            (pool.token0, pool.token1)
        } else {
            (pool.token1, pool.token0)
        };
        proof {
            assert(arb.path.pools@.skip(n as int)[0] == arb.path.pools@[n as int]);
            assert(arb.path.directions@.skip(n as int)[0] == arb.path.directions@[n as int]);
        }
        let out = match simulator.v2_simulate_swap(
            amount_out,
            pool.address,
            input_token,
            output_token,
            true,
        ) {
            Ok(o) => o,
            Err(e) => {
                proof {
                    assert(arb.path.pools@.skip(n as int).len() > 0);
                    assert(arb_outcome(
                        db0,
                        arb.path.pools@,
                        arb.path.directions@,
                        arb.amount_in,
                    ) == Err::<u128, EvmError>(e));
                }
                return Err(e);
            },
        };
        amount_out = out.1;
        proof {
            assert(arb.path.pools@.skip(n as int).drop_first() =~= arb.path.pools@.skip(n + 1));
            assert(arb.path.directions@.skip(n as int).drop_first() =~= arb.path.directions@.skip(
                n + 1,
            ));
        }
        n = n + 1;
    }
    proof {
        assert(arb.path.pools@.skip(nhop as int) =~= Seq::<Pool>::empty());
        assert(arb.path.directions@.skip(nhop as int) =~= Seq::<bool>::empty());
    }
    Ok((amount_out as i128) - (arb.amount_in as i128))
}

} // verus!
