//! The mempool pipeline end to end: slot inference, the base-fee gate,
//! direction inference and sandwich bundle pricing.

use evm_simulation::abi::{balance_storage_key, SimulatorABI};
use evm_simulation::honeypot::HoneypotFilter;
use evm_simulation::maps::AddrMap;
use evm_simulation::sandwich::{simulate_sandwich_bundle, Sandwich, SandwichSimulator};
use evm_simulation::simulator::{simulator_address, PoolState, TokenMeta};
use evm_simulation::strategy::{
    get_touched_pools, handle_event, should_process_tx, AccountDiff, StateDiff, StrategyState,
};
use evm_simulation::trace::EvmTracer;
use evm_simulation::types::{
    Address, Event, NewBlock, PendingTx, Pool, PoolVariant, Token,
};

fn addr(n: u32) -> Address {
    Address { hi: 0, mid: 0, lo: n }
}

fn pool_record(address: Address, token0: Address, token1: Address) -> Pool {
    Pool {
        address,
        variant: PoolVariant::UniswapV2,
        token0,
        token1,
        fee_bps: 30,
        block_created: 0,
    }
}

fn pending_tx(to: Option<Address>, input: Vec<u8>, max_fee: Option<u128>) -> PendingTx {
    PendingTx {
        from: addr(0xF00D),
        to,
        input,
        value: 0,
        nonce: 0,
        gas: 5_000_000,
        transaction_type: Some(2),
        gas_price: None,
        max_fee_per_gas: max_fee,
        max_priority_fee_per_gas: Some(1),
        chain_id: Some(1),
    }
}

#[test]
fn balance_slot_is_discovered() {
    // a trace touching the balance key of slot 7 resolves to slot 7
    let owner = addr(0xAB);
    let tracer = EvmTracer::new();
    let touched = vec![balance_storage_key(&owner, 7)];
    assert_eq!(tracer.find_balance_slot(owner, &touched), (true, 7));
    // the smallest matching candidate wins
    let touched2 = vec![balance_storage_key(&owner, 12), balance_storage_key(&owner, 3)];
    assert_eq!(tracer.find_balance_slot(owner, &touched2), (true, 3));
    // nothing matches: not determinable
    let unrelated = vec![balance_storage_key(&addr(0xCD), 0)];
    assert_eq!(tracer.find_balance_slot(owner, &unrelated), (false, 0));
}

#[test]
fn storage_keys_are_real_digests() {
    // the keccak-backed key is a 32-byte digest and distinguishes its
    // inputs; an identity stub would fail both checks
    let a = balance_storage_key(&addr(1), 0);
    let b = balance_storage_key(&addr(1), 1);
    let c = balance_storage_key(&addr(2), 0);
    assert_eq!(a.len(), 32);
    assert_ne!(a, b);
    assert_ne!(a, c);
    assert_eq!(a, balance_storage_key(&addr(1), 0));
}

#[test]
fn reserves_slot_reads_first_touched_key() {
    let tracer = EvmTracer::new();
    let mut key = vec![0u8; 32];
    key[31] = 8;
    assert_eq!(tracer.find_v2_reserves_slot(&vec![key]), (true, 8));
    assert_eq!(tracer.find_v2_reserves_slot(&Vec::new()), (false, 0));
}

#[test]
fn base_fee_gate_blocks_underpriced_transactions() {
    // max_fee_per_gas = base_fee - 1 never reaches tracing
    let block = NewBlock { block_number: 1, base_fee: 1000, next_base_fee: 1100 };
    let mut state = StrategyState { new_block: block };
    let below = pending_tx(Some(addr(5)), Vec::new(), Some(999));
    assert!(!should_process_tx(&below, &block));
    assert!(handle_event(&mut state, Event::PendingTx(below)).is_none());
    let at = pending_tx(Some(addr(5)), Vec::new(), Some(1000));
    assert!(should_process_tx(&at, &block));
    assert!(handle_event(&mut state, Event::PendingTx(at)).is_some());
    // block events move the head, log events are no-ops
    let next = NewBlock { block_number: 2, base_fee: 1200, next_base_fee: 1250 };
    assert!(handle_event(&mut state, Event::Block(next)).is_none());
    assert_eq!(state.new_block.base_fee, 1200);
    assert!(handle_event(&mut state, Event::Log(7)).is_none());
}

/// A filter with WETH-like anchor registered at slot 3.
fn filter_with_weth() -> (HoneypotFilter, Address) {
    let mut filter = HoneypotFilter::new(1);
    let weth = filter.safe_tokens.weth;
    let info = Token::new(weth, String::from("Wrapped Ether"), String::from("WETH"), 18);
    filter.register_safe_token(weth, 3, info);
    (filter, weth)
}

fn diff_with_balance_change(safe: Address, slot: u32, pool: Address, pre: u128, post: u128) -> StateDiff {
    let key = balance_storage_key(&pool, slot);
    StateDiff {
        pre: vec![(safe, AccountDiff { storage: vec![(key.clone(), pre)] })],
        post: vec![
            (pool, AccountDiff { storage: Vec::new() }),
            (safe, AccountDiff { storage: vec![(key, post)] }),
        ],
    }
}

#[test]
fn direction_inference_flags_safe_inflow() {
    // a victim swap anchor -> other flags the pool with that anchor
    let (filter, weth) = filter_with_weth();
    let pool = addr(0xA00);
    let tkn = addr(0xEE);
    let mut verified: AddrMap<Pool> = AddrMap::new();
    verified.insert(pool, pool_record(pool, weth, tkn));
    let diff = diff_with_balance_change(weth, 3, pool, 1_000, 6_000);
    let touched = get_touched_pools(&diff, &verified, &filter);
    assert_eq!(touched.get(&pool), Some(&Some(weth)));
}

#[test]
fn direction_inference_ignores_safe_outflow() {
    // a victim swap other -> anchor leaves the pool without a direction
    let (filter, weth) = filter_with_weth();
    let pool = addr(0xA00);
    let tkn = addr(0xEE);
    let mut verified: AddrMap<Pool> = AddrMap::new();
    verified.insert(pool, pool_record(pool, weth, tkn));
    let diff = diff_with_balance_change(weth, 3, pool, 6_000, 1_000);
    let touched = get_touched_pools(&diff, &verified, &filter);
    assert_eq!(touched.get(&pool), Some(&None));
}

#[test]
fn untouched_or_unverified_pools_are_not_reported() {
    let (filter, weth) = filter_with_weth();
    let pool = addr(0xA00);
    let verified: AddrMap<Pool> = AddrMap::new();
    let diff = diff_with_balance_change(weth, 3, pool, 1_000, 6_000);
    // the pool appears in the trace but is not verified
    let touched = get_touched_pools(&diff, &verified, &filter);
    assert!(touched.get(&pool).is_none());
}

#[test]
fn sandwich_bundle_on_victim_inflow_is_profitable() {
    // a victim swapping 5 WETH into the pool makes the 1-WETH
    // bundle close at a profit
    let (mut filter, weth) = filter_with_weth();
    let pool = addr(0xA00);
    let tkn = addr(0xEE);
    let reserve_w: u128 = 100_000_000_000_000_000_000; // 100 WETH
    let reserve_t: u128 = 100_000_000_000_000_000_000_000; // 10^23 TKN
    filter.simulator.set_v2_pool_reserves(
        pool,
        PoolState { token0: weth, token1: tkn, reserve0: reserve_w, reserve1: reserve_t },
    );

    let mut verified: AddrMap<Pool> = AddrMap::new();
    verified.insert(pool, pool_record(pool, weth, tkn));
    let diff = diff_with_balance_change(weth, 3, pool, 1_000, 6_000);
    let touched = get_touched_pools(&diff, &verified, &filter);
    assert_eq!(touched.get(&pool), Some(&Some(weth)));

    // the victim transaction, replayed verbatim inside the bundle
    let abi = SimulatorABI::new();
    let meat_data = abi.v2_simulate_swap_input(5_000_000_000_000_000_000, &pool, &weth, &tkn);
    let meat = pending_tx(Some(simulator_address()), meat_data, Some(u128::MAX));

    let mut sim = SandwichSimulator::new(addr(0xBEEF), 1);
    // the bundle harness prices against the filter's pinned pool state
    sim.simulator.set_v2_pool_reserves(
        pool,
        PoolState { token0: weth, token1: tkn, reserve0: reserve_w, reserve1: reserve_t },
    );
    let results = sim.simulate(&meat, &touched, &verified, &filter);
    assert_eq!(results.len(), 1);
    let ((p, s), outcome) = &results[0];
    assert_eq!((*p, *s), (pool, weth));
    let profit = outcome.as_ref().unwrap();
    assert_eq!(*profit, 94_240_236_904_285_694);
    assert!(*profit > 0);
}

#[test]
fn failing_meat_transaction_is_tolerated() {
    // a victim calling an account without code fails, but the bundle
    // still closes (at a loss: pure round trip)
    let (filter, weth) = filter_with_weth();
    let pool = addr(0xA00);
    let tkn = addr(0xEE);
    let mut sim = SandwichSimulator::new(addr(0xBEEF), 1);
    sim.simulator.set_v2_pool_reserves(
        pool,
        PoolState {
            token0: weth,
            token1: tkn,
            reserve0: 100_000_000_000_000_000_000,
            reserve1: 100_000_000_000_000_000_000_000,
        },
    );
    sim.simulator.deploy_simulator();
    sim.simulator.set_token_balance(simulator_address(), weth, 18, 3, 10000);
    let fork = sim.db_snapshot();
    let meat = pending_tx(Some(addr(0xDEAD)), Vec::new(), Some(u128::MAX));
    let sandwich = Sandwich {
        amount_in: 1_000_000_000_000_000_000,
        balance_slot: 3,
        target_token: Token::new(weth, String::from("W"), String::from("W"), 18),
        target_pool: pool_record(pool, weth, tkn),
        meat_tx: meat,
    };
    let profit = simulate_sandwich_bundle(&sandwich, addr(0xBEEF), 1, Some(fork)).unwrap();
    assert!(profit < 0);
    let _ = filter;
}
