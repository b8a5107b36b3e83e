//! The forked EVM execution harness.
//!
//! The harness owns a writable cache of account state — ether balances,
//! token ledgers, pool reserves and the deployed simulator contract — and
//! executes the simulator's entry points against it. Snapshots are
//! detached copies of the cache; injecting a snapshot replaces the cache.
//!
//! Token behavior is part of the cache: a registered token carries its
//! transfer-tax rate and its balance-mapping slot, standing in for the
//! token bytecode a real fork would execute. Gas is not metered; reported
//! gas figures are zero.

use vstd::prelude::*;

use crate::abi::{
    be_bytes, parse_amount_out_call, parse_swap_call, SimulatorABI, TokenABI, V2PoolABI,
};
use crate::maps::{AddrMap, AddrPair, PairMap};
use crate::math::{
    amount_out_spec, get_amount_out_u128, pow10, pow10_u128, tax_amount, tax_amount_spec,
    MUL_DIV_MAX_DIVISOR,
};
use crate::types::{Address, EvmError, PendingTx, SwapRevert, Tx, TxResult, U112_MAX};

verus! {

/// Modeled behavior of a token contract: its transfer tax and the slot
/// index of its balance mapping.
#[derive(Clone, Copy, Debug)]
pub struct TokenMeta {
    pub tax_bps: u16,
    pub balance_slot: u32,
}

impl TokenMeta {
    pub open spec fn wf(self) -> bool {
        self.tax_bps <= 10000
    }
}

/// Modeled state of a constant-product pool.
#[derive(Clone, Copy, Debug)]
pub struct PoolState {
    pub token0: Address,
    pub token1: Address,
    pub reserve0: u128,
    pub reserve1: u128,
}

impl PoolState {
    pub open spec fn wf(self) -> bool {
        &&& self.token0 != self.token1
        &&& 1 <= self.reserve0 <= U112_MAX
        &&& 1 <= self.reserve1 <= U112_MAX
    }
}

/// The writable cache the harness mutates; the mathematical view of one
/// cache generation.
pub struct DbView {
    pub eth: Map<Address, u128>,
    pub tokens: Map<Address, TokenMeta>,
    pub balances: Map<AddrPair, u128>,
    pub pools: Map<Address, PoolState>,
    pub simulator_deployed: bool,
}

/// The writable cache of one harness generation.
#[derive(Debug)]
pub struct CacheDb {
    pub eth: AddrMap<u128>,
    pub tokens: AddrMap<TokenMeta>,
    pub balances: PairMap<u128>,
    pub pools: AddrMap<PoolState>,
    pub simulator_deployed: bool,
}

impl View for CacheDb {
    type V = DbView;

    open spec fn view(&self) -> DbView {
        DbView {
            eth: self.eth@,
            tokens: self.tokens@,
            balances: self.balances@,
            pools: self.pools@,
            simulator_deployed: self.simulator_deployed,
        }
    }
}

impl CacheDb {
    pub open spec fn wf(&self) -> bool {
        &&& self.eth.wf()
        &&& self.tokens.wf()
        &&& self.balances.wf()
        &&& self.pools.wf()
        &&& db_wf(self@)
    }

    pub fn new() -> (r: Self)
        ensures
            r.wf(),
            r@ == empty_db(),
    {
        CacheDb {
            eth: AddrMap::new(),
            tokens: AddrMap::new(),
            balances: PairMap::new(),
            pools: AddrMap::new(),
            simulator_deployed: false,
        }
    }

    /// A detached deep copy: mutating either copy afterwards leaves the
    /// other one's view unchanged.
    pub fn snapshot(&self) -> (r: Self)
        ensures
            r@ == self@,
            r.wf() == self.wf(),
    {
        CacheDb {
            eth: self.eth.dup(),
            tokens: self.tokens.dup(),
            balances: self.balances.dup(),
            pools: self.pools.dup(),
            simulator_deployed: self.simulator_deployed,
        }
    }
}

/// The view of a freshly created cache.
pub open spec fn empty_db() -> DbView {
    DbView {
        eth: Map::empty(),
        tokens: Map::empty(),
        balances: Map::empty(),
        pools: Map::empty(),
        simulator_deployed: false,
    }
}

/// The transfer tax of `t`, zero for unregistered tokens.
pub open spec fn token_tax_bps(db: DbView, t: Address) -> nat {
    if db.tokens.contains_key(t) {
        db.tokens[t].tax_bps as nat
    } else {
        0
    }
}

/// The ledger balance of `owner` in `token`, zero when absent.
pub open spec fn ledger_balance(db: DbView, token: Address, owner: Address) -> u128 {
    let k = AddrPair { token, owner };
    if db.balances.contains_key(k) {
        db.balances[k]
    } else {
        0
    }
}

/// The ether balance of `a`, zero when absent.
pub open spec fn ether_balance(db: DbView, a: Address) -> u128 {
    if db.eth.contains_key(a) {
        db.eth[a]
    } else {
        0
    }
}

/// The address the internal simulator contract is installed at.
pub open spec fn spec_simulator_address() -> Address {
    Address { hi: 0x4E17607Fb72C01C2, mid: 0x80D7B5C41BA9A210, lo: 0x9D74A32C }
}

/// The EOA the harness uses as transaction origin.
pub open spec fn spec_default_owner() -> Address {
    Address { hi: 0x001a06BF8cE4afdb, mid: 0x3f5618f6bafe35e9, lo: 0xFc09F187 }
}

pub fn simulator_address() -> (r: Address)
    ensures
        r == spec_simulator_address(),
{
    Address { hi: 0x4E17607Fb72C01C2, mid: 0x80D7B5C41BA9A210, lo: 0x9D74A32C }
}

pub fn default_owner() -> (r: Address)
    ensures
        r == spec_default_owner(),
{
    Address { hi: 0x001a06BF8cE4afdb, mid: 0x3f5618f6bafe35e9, lo: 0xFc09F187 }
}

/// Forked execution environment pinned to one block.
pub struct EvmSimulator {
    pub owner: Address,
    pub block_number: u64,
    pub db: CacheDb,
    pub token: TokenABI,
    pub v2_pool: V2PoolABI,
    pub simulator: SimulatorABI,
    pub simulator_address: Address,
}

impl EvmSimulator {
    pub open spec fn wf(&self) -> bool {
        &&& self.db.wf()
        &&& self.token.wf()
        &&& self.v2_pool.wf()
        &&& self.simulator.wf()
        &&& self.simulator_address == spec_simulator_address()
    }

    /// Everything but the writable cache is unchanged.
    pub open spec fn same_env(&self, other: &EvmSimulator) -> bool {
        &&& self.owner == other.owner
        &&& self.block_number == other.block_number
        &&& self.simulator_address == other.simulator_address
    }

    pub fn new(owner: Address, block_number: u64) -> (r: Self)
        ensures
            r.wf(),
            r.owner == owner,
            r.block_number == block_number,
            r.db@ == empty_db(),
    {
        EvmSimulator {
            owner,
            block_number,
            db: CacheDb::new(),
            token: TokenABI::new(),
            v2_pool: V2PoolABI::new(),
            simulator: SimulatorABI::new(),
            simulator_address: simulator_address(),
        }
    }

    /// Replaces this harness's writable cache, discarding prior mutations.
    pub fn inject_db(&mut self, db: CacheDb)
        requires
            db.wf(),
        ensures
            final(self).db@ == db@,
            final(self).db.wf(),
            final(self).same_env(old(self)),
            old(self).wf() ==> final(self).wf(),
    {
        self.db = db;
    }

    /// A detached copy of the writable cache.
    pub fn db_snapshot(&self) -> (r: CacheDb)
        ensures
            r@ == self.db@,
            r.wf() == self.db.wf(),
    {
        self.db.snapshot()
    }

    pub fn get_eth_balance(&self) -> (r: u128)
        requires
            self.wf(),
        ensures
            r == ether_balance(self.db@, self.owner),
    {
        match self.db.eth.get(&self.owner) {
            Some(b) => *b,
            None => 0,
        }
    }

    /// Credits the owner with `balance` whole ether.
    pub fn set_eth_balance(&mut self, balance: u32)
        requires
            old(self).wf(),
        ensures
            final(self).wf(),
            final(self).same_env(old(self)),
            final(self).db@ == (DbView {
                eth: old(self).db@.eth.insert(
                    old(self).owner,
                    (balance as nat * pow10(18)) as u128,
                ),
                ..old(self).db@
            }),
    {
        let unit: u128 = pow10_u128(18);
        proof {
            assert(pow10(18) == 1_000_000_000_000_000_000) by {
                reveal_with_fuel(pow10, 19);
            }
            assert(balance as nat * pow10(18) <= u128::MAX) by (nonlinear_arith)
                requires
                    balance <= 0xffff_ffff,
                    pow10(18) == 1_000_000_000_000_000_000,
            ;
        }
        let wei: u128 = (balance as u128) * unit;
        self.db.eth.insert(self.owner, wei);
        proof {
            lemma_db_wf_same_code(old(self).db@, self.db@);
        }
    }

    /// Registers the modeled behavior of a token contract.
    pub fn register_token(&mut self, token: Address, meta: TokenMeta)
        requires
            old(self).wf(),
            meta.wf(),
        ensures
            final(self).wf(),
            final(self).same_env(old(self)),
            final(self).db@ == (DbView {
                tokens: old(self).db@.tokens.insert(token, meta),
                ..old(self).db@
            }),
    {
        self.db.tokens.insert(token, meta);
        proof {
            assert forall|a: Address| #[trigger]
                self.db@.tokens.contains_key(a) implies self.db@.tokens[a].wf() by {
                if a != token {
                    assert(old(self).db@.tokens.contains_key(a));
                }
            }
            assert forall|a: Address| #[trigger]
                self.db@.pools.contains_key(a) implies self.db@.pools[a].wf() by {
                assert(old(self).db@.pools.contains_key(a));
            }
        }
    }

    /// Overwrites `account`'s ledger balance of `token` with
    /// `balance * 10^decimals` atomic units, as seeding through the
    /// balance-mapping storage slot does.
    pub fn set_token_balance(
        &mut self,
        account: Address,
        token: Address,
        decimals: u8,
        slot: u32,
        balance: u32,
    )
        requires
            old(self).wf(),
            decimals <= 36,
            balance as nat * pow10(decimals as nat) <= u128::MAX,
        ensures
            final(self).wf(),
            final(self).same_env(old(self)),
            final(self).db@ == (DbView {
                tokens: old(self).db@.tokens.insert(
                    token,
                    TokenMeta { tax_bps: token_tax_bps(old(self).db@, token) as u16, balance_slot: slot },
                ),
                balances: old(self).db@.balances.insert(
                    AddrPair { token, owner: account },
                    (balance as nat * pow10(decimals as nat)) as u128,
                ),
                ..old(self).db@
            }),
    {
        let unit: u128 = pow10_u128(decimals);
        proof {
            assert(balance as nat * pow10(decimals as nat) == (balance as u128) as nat * (
            unit as nat)) by (nonlinear_arith)
                requires
                    unit == pow10(decimals as nat),
            ;
        }
        let amount: u128 = (balance as u128) * unit;
        let tax: u16 = match self.db.tokens.get(&token) {
            Some(meta) => meta.tax_bps,
            None => 0,
        };
        self.db.tokens.insert(token, TokenMeta { tax_bps: tax, balance_slot: slot });
        self.db.balances.insert(AddrPair { token, owner: account }, amount);
    }

    /// The ledger balance the token's `balanceOf` would report.
    pub fn token_balance_of(&self, token: Address, account: Address) -> (r: Result<u128, EvmError>)
        requires
            self.wf(),
        ensures
            r == Ok::<u128, EvmError>(ledger_balance(self.db@, token, account)),
    {
        match self.db.balances.get(&AddrPair { token, owner: account }) {
            Some(b) => Ok(*b),
            None => Ok(0),
        }
    }

    /// Installs or replaces a pool's tokens and packed reserves.
    pub fn set_v2_pool_reserves(&mut self, pool: Address, state: PoolState)
        requires
            old(self).wf(),
            state.wf(),
        ensures
            final(self).wf(),
            final(self).same_env(old(self)),
            final(self).db@ == (DbView {
                pools: old(self).db@.pools.insert(pool, state),
                ..old(self).db@
            }),
    {
        self.db.pools.insert(pool, state);
        proof {
            assert forall|a: Address| #[trigger]
                self.db@.pools.contains_key(a) implies self.db@.pools[a].wf() by {
                if a != pool {
                    assert(old(self).db@.pools.contains_key(a));
                }
            }
            assert forall|a: Address| #[trigger]
                self.db@.tokens.contains_key(a) implies self.db@.tokens[a].wf() by {
                assert(old(self).db@.tokens.contains_key(a));
            }
        }
    }

    /// Reads `(reserve0, reserve1, blockTimestampLast)` from a pool; the
    /// model does not track the oracle timestamp and reports zero.
    pub fn v2_pool_get_reserves(&self, pool: Address) -> (r: Result<(u128, u128, u32), EvmError>)
        requires
            self.wf(),
        ensures
            match r {
                Ok((r0, r1, ts)) => {
                    &&& self.db@.pools.contains_key(pool)
                    &&& r0 == self.db@.pools[pool].reserve0
                    &&& r1 == self.db@.pools[pool].reserve1
                    &&& ts == 0u32
                },
                Err(e) => !self.db@.pools.contains_key(pool) && e == EvmError::NoCode,
            },
    {
        match self.db.pools.get(&pool) {
            Some(p) => Ok((p.reserve0, p.reserve1, 0)),
            None => Err(EvmError::NoCode),
        }
    }

    /// Installs the fixed simulator contract at its hard-coded address.
    pub fn deploy_simulator(&mut self)
        requires
            old(self).wf(),
        ensures
            final(self).wf(),
            final(self).same_env(old(self)),
            final(self).db@ == (DbView { simulator_deployed: true, ..old(self).db@ }),
    {
        self.db.simulator_deployed = true;
    }

    /// The simulator contract's `getAmountOut`: the constant-product quote
    /// on explicit reserves.
    pub fn get_amount_out(&self, amount_in: u128, reserve_in: u128, reserve_out: u128) -> (r:
        Result<u128, EvmError>)
        requires
            self.wf(),
        ensures
            r == amount_out_call_outcome(self.db@, amount_in, reserve_in, reserve_out),
    {
        if !self.db.simulator_deployed {
            return Err(EvmError::NoCode);
        }
        if reserve_in == 0 || reserve_out == 0 {
            return Err(EvmError::Revert(SwapRevert::InsufficientLiquidity));
        }
        if amount_in > U112_MAX || reserve_in > U112_MAX || reserve_out > U112_MAX {
            return Err(EvmError::Revert(SwapRevert::AmountTooLarge));
        }
        proof {
            lemma_swap_fits(amount_in as nat, reserve_in as nat);
        }
        Ok(get_amount_out_u128(amount_in, reserve_in, reserve_out))
    }
}

/// What `getAmountOut` returns for each input.
pub open spec fn amount_out_call_outcome(
    db: DbView,
    amount_in: u128,
    reserve_in: u128,
    reserve_out: u128,
) -> Result<u128, EvmError> {
    if !db.simulator_deployed {
        Err(EvmError::NoCode)
    } else if reserve_in == 0 || reserve_out == 0 {
        Err(EvmError::Revert(SwapRevert::InsufficientLiquidity))
    } else if amount_in > U112_MAX || reserve_in > U112_MAX || reserve_out > U112_MAX {
        Err(EvmError::Revert(SwapRevert::AmountTooLarge))
    } else {
        Ok(amount_out_spec(amount_in as nat, reserve_in as nat, reserve_out as nat) as u128)
    }
}

/// The constant-product quote never pays out a whole reserve.
pub proof fn lemma_amount_out_lt_reserve(a_in: nat, r_in: nat, r_out: nat)
    requires
        r_in >= 1,
        r_out >= 1,
    ensures
        amount_out_spec(a_in, r_in, r_out) < r_out,
{
    let num = a_in * 997 * r_out;
    let den = r_in * 1000 + a_in * 997;
    assert(num < den * r_out) by (nonlinear_arith)
        requires
            num == a_in * 997 * r_out,
            den == r_in * 1000 + a_in * 997,
            r_in >= 1,
            r_out >= 1,
    ;
    vstd::arithmetic::div_mod::lemma_multiply_divide_lt(num as int, den as int, r_out as int);
}

/// What one `v2SimulateSwap` execution returns and how it moves the
/// cache: the input token is transferred to the pool (losing its transfer
/// tax), the pool pays the constant-product quote `expected` on what
/// arrived, and the simulator receives `actual`, the quote less the
/// output token's transfer tax.
pub open spec fn swap_outcome(
    db: DbView,
    amount_in: u128,
    pool: Address,
    token_in: Address,
    token_out: Address,
) -> Result<((u128, u128), DbView), EvmError> {
    let sim = spec_simulator_address();
    if !db.simulator_deployed {
        Err(EvmError::NoCode)
    } else if !db.pools.contains_key(pool) {
        Err(EvmError::Revert(SwapRevert::UnknownPool))
    } else {
        let p = db.pools[pool];
        if !((token_in == p.token0 && token_out == p.token1) || (token_in == p.token1 && token_out
            == p.token0)) {
            Err(EvmError::Revert(SwapRevert::WrongTokenPair))
        } else if amount_in > U112_MAX {
            Err(EvmError::Revert(SwapRevert::AmountTooLarge))
        } else if ledger_balance(db, token_in, sim) < amount_in {
            Err(EvmError::Revert(SwapRevert::InsufficientBalance))
        } else {
            let r_in = if token_in == p.token0 {
                p.reserve0
            } else {
                p.reserve1
            };
            let r_out = if token_in == p.token0 {
                p.reserve1
            } else {
                p.reserve0
            };
            if r_in == 0 || r_out == 0 {
                Err(EvmError::Revert(SwapRevert::InsufficientLiquidity))
            } else {
                let received = (amount_in - tax_amount_spec(
                    amount_in as nat,
                    token_tax_bps(db, token_in),
                )) as u128;
                let expected = amount_out_spec(received as nat, r_in as nat, r_out as nat) as u128;
                let actual = (expected - tax_amount_spec(
                    expected as nat,
                    token_tax_bps(db, token_out),
                )) as u128;
                if r_in + received > U112_MAX {
                    Err(EvmError::Revert(SwapRevert::ReserveOverflow))
                } else if actual > u128::MAX - ledger_balance(db, token_out, sim) {
                    Err(EvmError::Revert(SwapRevert::AmountTooLarge))
                } else {
                    let new_pool = if token_in == p.token0 {
                        PoolState {
                            reserve0: (r_in + received) as u128,
                            reserve1: (r_out - expected) as u128,
                            ..p
                        }
                    } else {
                        PoolState {
                            reserve0: (r_out - expected) as u128,
                            reserve1: (r_in + received) as u128,
                            ..p
                        }
                    };
                    Ok(
                        (
                            (expected, actual),
                            DbView {
                                pools: db.pools.insert(pool, new_pool),
                                balances: db.balances.insert(
                                    AddrPair { token: token_in, owner: sim },
                                    (ledger_balance(db, token_in, sim) - amount_in) as u128,
                                ).insert(
                                    AddrPair { token: token_out, owner: sim },
                                    (ledger_balance(db, token_out, sim) + actual) as u128,
                                ),
                                ..db
                            },
                        ),
                    )
                }
            }
        }
    }
}

/// Cache views with the same pools and tokens are equally well formed.
pub proof fn lemma_db_wf_same_code(a: DbView, b: DbView)
    requires
        db_wf(a),
        b.pools == a.pools,
        b.tokens == a.tokens,
    ensures
        db_wf(b),
{
    assert forall|x: Address| #[trigger] b.pools.contains_key(x) implies b.pools[x].wf() by {
        assert(a.pools.contains_key(x));
    }
    assert forall|x: Address| #[trigger] b.tokens.contains_key(x) implies b.tokens[x].wf() by {
        assert(a.tokens.contains_key(x));
    }
}

/// Well-formedness of a cache view: every pool and every registered
/// token is well formed.
pub open spec fn db_wf(db: DbView) -> bool {
    &&& forall|a: Address| #[trigger] db.pools.contains_key(a) ==> db.pools[a].wf()
    &&& forall|a: Address| #[trigger] db.tokens.contains_key(a) ==> db.tokens[a].wf()
}

/// On a well-formed cache a successful swap's amounts fit a `uint112`,
/// what arrives never exceeds the claim, and the committed cache is well
/// formed again.
pub proof fn lemma_swap_ok_bounds(
    db: DbView,
    amount_in: u128,
    pool: Address,
    token_in: Address,
    token_out: Address,
)
    requires
        db_wf(db),
        swap_outcome(db, amount_in, pool, token_in, token_out) is Ok,
    ensures
        ({
            let (quote, db2) = swap_outcome(db, amount_in, pool, token_in, token_out)->Ok_0;
            &&& quote.1 <= quote.0 <= U112_MAX
            &&& amount_in <= U112_MAX
            &&& db_wf(db2)
        }),
{
    let p = db.pools[pool];
    let r_in = if token_in == p.token0 {
        p.reserve0
    } else {
        p.reserve1
    };
    let r_out = if token_in == p.token0 {
        p.reserve1
    } else {
        p.reserve0
    };
    let received = (amount_in - tax_amount_spec(amount_in as nat, token_tax_bps(db, token_in)))
        as u128;
    lemma_amount_out_lt_reserve(received as nat, r_in as nat, r_out as nat);
    crate::math::lemma_tax_le(
        amount_out_spec(received as nat, r_in as nat, r_out as nat),
        token_tax_bps(db, token_out),
    );
    crate::math::lemma_tax_le(amount_in as nat, token_tax_bps(db, token_in));
    let (quote, db2) = swap_outcome(db, amount_in, pool, token_in, token_out)->Ok_0;
    assert forall|a: Address| #[trigger] db2.pools.contains_key(a) implies db2.pools[a].wf() by {
        if a != pool {
            assert(db.pools.contains_key(a));
        }
    }
    assert forall|a: Address| #[trigger] db2.tokens.contains_key(a) implies db2.tokens[a].wf() by {
        assert(db.tokens.contains_key(a));
    }
}

/// Committing a mempool transaction keeps a well-formed cache well
/// formed.
pub proof fn lemma_pending_preserves_wf(db: DbView, tx: PendingTx)
    requires
        db_wf(db),
    ensures
        match pending_outcome(db, tx) {
            Ok((out, db2)) => db_wf(db2),
            Err(_) => true,
        },
{
    match tx.to {
        Some(t) => {
            if t == spec_simulator_address() && db.simulator_deployed && parse_swap_call(tx.input@)
                is Some {
                let (amount_in, pool, token_in, token_out) = parse_swap_call(tx.input@)->0;
                if swap_outcome(db, amount_in, pool, token_in, token_out) is Ok {
                    lemma_swap_ok_bounds(db, amount_in, pool, token_in, token_out);
                }
            }
        },
        None => {},
    }
}

/// On a pool whose two tokens carry no transfer tax, a funded buy
/// succeeds with `expected == actual`, and selling the entire proceeds
/// straight back returns strictly less than the notional: the two 0.3%
/// fees eat the round trip.
pub proof fn lemma_clean_pool_round_trip(db: DbView, x: u128, pool: Address)
    requires
        db.simulator_deployed,
        db.pools.contains_key(pool),
        db.pools[pool].wf(),
        token_tax_bps(db, db.pools[pool].token0) == 0,
        token_tax_bps(db, db.pools[pool].token1) == 0,
        1 <= x,
        ledger_balance(db, db.pools[pool].token0, spec_simulator_address()) >= x,
        db.pools[pool].reserve0 + x <= U112_MAX,
        ledger_balance(db, db.pools[pool].token1, spec_simulator_address()) <= U112_MAX,
    ensures
        ({
            let p = db.pools[pool];
            let buy = swap_outcome(db, x, pool, p.token0, p.token1);
            &&& buy is Ok
            &&& (buy->Ok_0).0.0 == (buy->Ok_0).0.1
            &&& {
                let ((e, a), db1) = buy->Ok_0;
                let sell = swap_outcome(db1, a, pool, p.token1, p.token0);
                &&& sell is Ok
                &&& (sell->Ok_0).0.1 < x
            }
        }),
{
    let p = db.pools[pool];
    let sim = spec_simulator_address();
    assert(tax_amount_spec(x as nat, 0) == 0) by (nonlinear_arith);
    let e = amount_out_spec(x as nat, p.reserve0 as nat, p.reserve1 as nat);
    lemma_amount_out_lt_reserve(x as nat, p.reserve0 as nat, p.reserve1 as nat);
    assert(tax_amount_spec(e, 0) == 0) by (nonlinear_arith);
    let buy = swap_outcome(db, x, pool, p.token0, p.token1);
    assert(buy is Ok);
    let ((e2, a2), db1) = buy->Ok_0;
    assert(e2 == e && a2 == e);
    // the updated pool prices the sell against (r1 - e, r0 + x)
    assert(db1.pools[pool].reserve0 == p.reserve0 + x);
    assert(db1.pools[pool].reserve1 == p.reserve1 - e);
    assert(token_tax_bps(db1, p.token0) == 0 && token_tax_bps(db1, p.token1) == 0);
    assert(ledger_balance(db1, p.token1, sim) >= e);
    let y = amount_out_spec(e, (p.reserve1 - e) as nat, (p.reserve0 + x) as nat);
    lemma_amount_out_lt_reserve(e, (p.reserve1 - e) as nat, (p.reserve0 + x) as nat);
    crate::math::lemma_round_trip_loses(x as nat, p.reserve0 as nat, p.reserve1 as nat);
    assert(tax_amount_spec(y, 0) == 0) by (nonlinear_arith);
    let sell = swap_outcome(db1, a2, pool, p.token1, p.token0);
    assert(sell is Ok);
}

/// Two harnesses whose caches hold the same view return byte-identical
/// swap results and identical committed caches.
pub proof fn lemma_swap_determinism(
    a: DbView,
    b: DbView,
    amount_in: u128,
    pool: Address,
    token_in: Address,
    token_out: Address,
)
    requires
        a == b,
    ensures
        swap_outcome(a, amount_in, pool, token_in, token_out) == swap_outcome(
            b,
            amount_in,
            pool,
            token_in,
            token_out,
        ),
{
}

impl EvmSimulator {
    /// Executes `v2SimulateSwap(amountIn, pool, tokenIn, tokenOut)` on the
    /// deployed simulator contract; `commit` decides whether the cache
    /// keeps the swap's effects.
    pub fn v2_simulate_swap(
        &mut self,
        amount_in: u128,
        target_pool: Address,
        input_token: Address,
        output_token: Address,
        commit: bool,
    ) -> (r: Result<(u128, u128), EvmError>)
        requires
            old(self).wf(),
        ensures
            final(self).wf(),
            final(self).same_env(old(self)),
            final(self).token == old(self).token,
            final(self).v2_pool == old(self).v2_pool,
            final(self).simulator == old(self).simulator,
            match swap_outcome(old(self).db@, amount_in, target_pool, input_token, output_token) {
                Ok((quote, dbv)) => {
                    &&& r == Ok::<(u128, u128), EvmError>(quote)
                    &&& commit ==> final(self).db@ == dbv
                    &&& !commit ==> final(self).db@ == old(self).db@
                },
                Err(e) => r == Err::<(u128, u128), EvmError>(e) && final(self).db@ == old(
                    self,
                ).db@,
            },
    {
        let sim = simulator_address();
        if !self.db.simulator_deployed {
            return Err(EvmError::NoCode);
        }
        let p: PoolState = match self.db.pools.get(&target_pool) {
            Some(p) => *p,
            None => {
                return Err(EvmError::Revert(SwapRevert::UnknownPool));
            },
        };
        if !((input_token == p.token0 && output_token == p.token1) || (input_token == p.token1
            && output_token == p.token0)) {
            return Err(EvmError::Revert(SwapRevert::WrongTokenPair));
        }
        if amount_in > U112_MAX {
            return Err(EvmError::Revert(SwapRevert::AmountTooLarge));
        }
        let bal_in: u128 = match self.db.balances.get(&AddrPair { token: input_token, owner: sim })
            {
            Some(b) => *b,
            None => 0,
        };
        if bal_in < amount_in {
            return Err(EvmError::Revert(SwapRevert::InsufficientBalance));
        }
        let r_in: u128 = if input_token == p.token0 {
            p.reserve0
        } else {
            p.reserve1
        };
        let r_out: u128 = if input_token == p.token0 {
            p.reserve1
        } else {
            p.reserve0
        };
        proof {
            assert(self.db@.pools.contains_key(target_pool));
            assert(p.wf());
        }
        let tax_in: u16 = match self.db.tokens.get(&input_token) {
            Some(m) => m.tax_bps,
            None => 0,
        };
        let tax_out: u16 = match self.db.tokens.get(&output_token) {
            Some(m) => m.tax_bps,
            None => 0,
        };
        let received: u128 = amount_in - tax_amount(amount_in, tax_in);
        proof {
            lemma_swap_fits(received as nat, r_in as nat);
        }
        let expected: u128 = get_amount_out_u128(received, r_in, r_out);
        proof {
            lemma_amount_out_lt_reserve(received as nat, r_in as nat, r_out as nat);
        }
        let actual: u128 = expected - tax_amount(expected, tax_out);
        if r_in > U112_MAX - received {
            return Err(EvmError::Revert(SwapRevert::ReserveOverflow));
        }
        let bal_out: u128 = match self.db.balances.get(&AddrPair { token: output_token, owner: sim
        }) {
            Some(b) => *b,
            None => 0,
        };
        if actual > u128::MAX - bal_out {
            return Err(EvmError::Revert(SwapRevert::AmountTooLarge));
        }
        if commit {
            let new_pool = if input_token == p.token0 {
                PoolState { reserve0: r_in + received, reserve1: r_out - expected, ..p }
            } else {
                PoolState { reserve0: r_out - expected, reserve1: r_in + received, ..p }
            };
            self.db.pools.insert(target_pool, new_pool);
            self.db.balances.insert(
                AddrPair { token: input_token, owner: sim },
                bal_in - amount_in,
            );
            self.db.balances.insert(AddrPair { token: output_token, owner: sim }, bal_out + actual);
            proof {
                assert forall|a: Address| #[trigger]
                    self.db.pools@.contains_key(a) implies self.db.pools@[a].wf() by {
                    if a != target_pool {
                        assert(old(self).db.pools@.contains_key(a));
                    }
                }
            }
        }
        Ok((expected, actual))
    }
}

/// What executing calldata `data` against account `to` returns and how it
/// moves the cache. Only the simulator contract holds code the model can
/// run; its two entry points are `v2SimulateSwap` and `getAmountOut`.
pub open spec fn call_outcome(db: DbView, to: Address, data: Seq<u8>) -> Result<
    (Seq<u8>, DbView),
    EvmError,
> {
    if to != spec_simulator_address() {
        Err(EvmError::NoCode)
    } else if !db.simulator_deployed {
        Err(EvmError::NoCode)
    } else if parse_swap_call(data) is Some {
        let (amount_in, pool, token_in, token_out) = parse_swap_call(data)->0;
        match swap_outcome(db, amount_in, pool, token_in, token_out) {
            Ok((quote, db2)) => Ok(
                (be_bytes(quote.0 as nat, 32) + be_bytes(quote.1 as nat, 32), db2),
            ),
            Err(e) => Err(e),
        }
    } else if parse_amount_out_call(data) is Some {
        let (amount_in, reserve_in, reserve_out) = parse_amount_out_call(data)->0;
        match amount_out_call_outcome(db, amount_in, reserve_in, reserve_out) {
            Ok(v) => Ok((be_bytes(v as nat, 32), db)),
            Err(e) => Err(e),
        }
    } else {
        Err(EvmError::BadCalldata)
    }
}

/// What committing a mempool transaction does: the model executes calls
/// into the simulator contract and treats everything else as targeting an
/// account without code.
pub open spec fn pending_outcome(db: DbView, tx: PendingTx) -> Result<(Seq<u8>, DbView), EvmError> {
    match tx.to {
        Some(t) => call_outcome(db, t, tx.input@),
        None => Err(EvmError::NoCode),
    }
}

impl EvmSimulator {
    /// Executes `tx`; `commit` decides whether state changes stick.
    pub fn _call(&mut self, tx: Tx, commit: bool) -> (r: Result<TxResult, EvmError>)
        requires
            old(self).wf(),
        ensures
            final(self).wf(),
            final(self).same_env(old(self)),
            match call_outcome(old(self).db@, tx.transact_to, tx.data@) {
                Ok((out, dbv)) => {
                    &&& r matches Ok(tr) && tr.output@ == out && tr.gas_used == 0
                        && tr.gas_refunded == 0
                    &&& commit ==> final(self).db@ == dbv
                    &&& !commit ==> final(self).db@ == old(self).db@
                },
                Err(e) => r matches Err(e2) && e2 == e && final(self).db@ == old(self).db@,
            },
    {
        if !(tx.transact_to == self.simulator_address) {
            return Err(EvmError::NoCode);
        }
        if !self.db.simulator_deployed {
            return Err(EvmError::NoCode);
        }
        match self.simulator.v2_simulate_swap_decode(&tx.data) {
            Ok((amount_in, pool, token_in, token_out)) => {
                match self.v2_simulate_swap(amount_in, pool, token_in, token_out, commit) {
                    Ok((expected, actual)) => {
                        let mut output = crate::abi::be_bytes_exec(expected, 32);
                        let mut second = crate::abi::be_bytes_exec(actual, 32);
                        output.append(&mut second);
                        Ok(TxResult { output, gas_used: 0, gas_refunded: 0 })
                    },
                    Err(e) => Err(e),
                }
            },
            Err(_) => {
                match self.simulator.get_amount_out_decode(&tx.data) {
                    Ok((amount_in, reserve_in, reserve_out)) => {
                        match self.get_amount_out(amount_in, reserve_in, reserve_out) {
                            Ok(v) => {
                                let output = crate::abi::be_bytes_exec(v, 32);
                                Ok(TxResult { output, gas_used: 0, gas_refunded: 0 })
                            },
                            Err(e) => Err(e),
                        }
                    },
                    Err(_) => Err(EvmError::BadCalldata),
                }
            },
        }
    }

    /// Read-only execution: state changes are discarded.
    pub fn staticcall(&mut self, tx: Tx) -> (r: Result<TxResult, EvmError>)
        requires
            old(self).wf(),
        ensures
            final(self).wf(),
            final(self).same_env(old(self)),
            final(self).db@ == old(self).db@,
            match call_outcome(old(self).db@, tx.transact_to, tx.data@) {
                Ok((out, dbv)) => r matches Ok(tr) && tr.output@ == out && tr.gas_used == 0
                    && tr.gas_refunded == 0,
                Err(e) => r matches Err(e2) && e2 == e,
            },
    {
        self._call(tx, false)
    }

    /// Committing execution: state changes write through.
    pub fn call(&mut self, tx: Tx) -> (r: Result<TxResult, EvmError>)
        requires
            old(self).wf(),
        ensures
            final(self).wf(),
            final(self).same_env(old(self)),
            match call_outcome(old(self).db@, tx.transact_to, tx.data@) {
                Ok((out, dbv)) => r matches Ok(tr) && tr.output@ == out && final(self).db@ == dbv,
                Err(e) => r matches Err(e2) && e2 == e && final(self).db@ == old(self).db@,
            },
    {
        self._call(tx, true)
    }

    /// Re-derives caller, target, value and calldata from a mempool
    /// transaction and commits it. The model meters no gas and does not
    /// enforce the base fee; the price such a transaction would pay is
    /// [`PendingTx::effective_gas_price`].
    pub fn run_pending_tx(&mut self, tx: &PendingTx) -> (r: Result<TxResult, EvmError>)
        requires
            old(self).wf(),
        ensures
            final(self).wf(),
            final(self).same_env(old(self)),
            match pending_outcome(old(self).db@, *tx) {
                Ok((out, dbv)) => r matches Ok(tr) && tr.output@ == out && final(self).db@ == dbv,
                Err(e) => r matches Err(e2) && e2 == e && final(self).db@ == old(self).db@,
            },
    {
        let to = match tx.to {
            Some(t) => t,
            None => {
                return Err(EvmError::NoCode);
            },
        };
        let data = crate::abi::copy_bytes(&tx.input);
        self._call(
            Tx {
                caller: tx.from,
                transact_to: to,
                data,
                value: tx.value,
                gas_limit: tx.gas,
            },
            true,
        )
    }
}

/// Amounts and reserves within `uint112` keep the quote's divisor within
/// what [`crate::math::mul_div`] accepts.
pub proof fn lemma_swap_fits(a_in: nat, r_in: nat)
    requires
        a_in <= U112_MAX,
        r_in <= U112_MAX,
    ensures
        r_in * 1000 + a_in * 997 <= MUL_DIV_MAX_DIVISOR,
{
    assert(r_in * 1000 <= U112_MAX as nat * 1000) by (nonlinear_arith)
        requires
            r_in <= U112_MAX,
    ;
    assert(a_in * 997 <= U112_MAX as nat * 997) by (nonlinear_arith)
        requires
            a_in <= U112_MAX,
    ;
}

} // verus!
