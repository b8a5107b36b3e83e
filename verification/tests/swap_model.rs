//! Round-trip swap behavior of the harness model: determinism, snapshot
//! isolation, clean-pool pricing and transfer-tax classification.

use evm_simulation::honeypot::{HoneypotFilter, PoolVerdict};
use evm_simulation::simulator::{simulator_address, EvmSimulator, PoolState, TokenMeta};
use evm_simulation::abi::SimulatorABI;
use evm_simulation::types::{Address, EvmError, PendingTx, Pool, PoolVariant, SwapRevert, Token, Tx};

fn addr(n: u32) -> Address {
    Address { hi: 0, mid: 0, lo: n }
}

fn pool_record(address: Address, token0: Address, token1: Address) -> Pool {
    Pool {
        address,
        variant: PoolVariant::UniswapV2,
        token0,
        token1,
        fee_bps: 30,
        block_created: 0,
    }
}

/// A harness holding one pool of safe token `s` and test token `t`, the
/// simulator seeded with `seed` units of `s`.
fn harness_with_pool(
    s: Address,
    t: Address,
    reserve_s: u128,
    reserve_t: u128,
    tax_bps: u16,
) -> EvmSimulator {
    let mut sim = EvmSimulator::new(addr(0xbeef), 1);
    sim.deploy_simulator();
    sim.set_v2_pool_reserves(
        addr(0xA00),
        PoolState { token0: s, token1: t, reserve0: reserve_s, reserve1: reserve_t },
    );
    sim.register_token(t, TokenMeta { tax_bps, balance_slot: 0 });
    sim
}

const RS: u128 = 1_000_000_000_000_000_000; // 10^18
const RT: u128 = 1_000_000_000_000_000_000_000; // 10^21
const AMOUNT_IN: u128 = 10_000_000_000_000_000; // 10^16

#[test]
fn buy_on_clean_pool_matches_constant_product_quote() {
    // a calibrated buy against reserves (10^18, 10^21)
    let s = addr(1);
    let t = addr(2);
    let mut sim = harness_with_pool(s, t, RS, RT, 0);
    sim.set_token_balance(simulator_address(), s, 16, 0, 1); // 10^16 atomic units
    let (expected, actual) =
        sim.v2_simulate_swap(AMOUNT_IN, addr(0xA00), s, t, true).unwrap();
    assert_eq!(expected, 9_871_580_343_970_612_988);
    assert_eq!(actual, expected);
}

#[test]
fn round_trip_on_clean_pool_loses_two_fees() {
    // selling the proceeds straight back returns about 9.94*10^15
    let s = addr(1);
    let t = addr(2);
    let mut sim = harness_with_pool(s, t, RS, RT, 0);
    sim.set_token_balance(simulator_address(), s, 16, 0, 1);
    let pool = addr(0xA00);
    let (_, bought) = sim.v2_simulate_swap(AMOUNT_IN, pool, s, t, true).unwrap();
    let (_, back) = sim.v2_simulate_swap(bought, pool, t, s, true).unwrap();
    assert_eq!(back, 9_940_679_649_621_592);
    assert!(back < AMOUNT_IN);
}

#[test]
fn swap_determinism_across_harnesses() {
    // two independent harnesses over the same pinned state agree
    let s = addr(1);
    let t = addr(2);
    let mut a = harness_with_pool(s, t, RS, RT, 300);
    let mut b = harness_with_pool(s, t, RS, RT, 300);
    a.set_token_balance(simulator_address(), s, 16, 0, 1);
    b.set_token_balance(simulator_address(), s, 16, 0, 1);
    let pool = addr(0xA00);
    let ra = a.v2_simulate_swap(AMOUNT_IN, pool, s, t, true).unwrap();
    let rb = b.v2_simulate_swap(AMOUNT_IN, pool, s, t, true).unwrap();
    assert_eq!(ra, rb);
}

#[test]
fn snapshot_isolation() {
    // mutations after snapshot() do not reach the snapshot, and a
    // harness the snapshot is injected into observes the pre-state
    let s = addr(1);
    let t = addr(2);
    let mut sim = harness_with_pool(s, t, RS, RT, 0);
    sim.set_token_balance(simulator_address(), s, 16, 0, 1);
    let snap = sim.db_snapshot();
    // diverge: spend the balance in the original harness
    let pool = addr(0xA00);
    sim.v2_simulate_swap(AMOUNT_IN, pool, s, t, true).unwrap();
    assert_eq!(sim.token_balance_of(s, simulator_address()).unwrap(), 0);
    // the sibling sees the pre-swap balance and reserves
    let mut sibling = EvmSimulator::new(addr(0xbeef), 1);
    sibling.inject_db(snap);
    assert_eq!(sibling.token_balance_of(s, simulator_address()).unwrap(), AMOUNT_IN);
    let (r0, r1, _) = sibling.v2_pool_get_reserves(pool).unwrap();
    assert_eq!((r0, r1), (RS, RT));
    // and replaying the swap there reproduces the original quote
    let quote = sibling.v2_simulate_swap(AMOUNT_IN, pool, s, t, true).unwrap();
    assert_eq!(quote.0, 9_871_580_343_970_612_988);
}

fn filter_with_safe_token(s: Address) -> HoneypotFilter {
    let mut filter = HoneypotFilter::new(1);
    let info = Token::new(s, String::from("Safe"), String::from("SAFE"), 16);
    filter.setup(vec![(s, 0, info)]);
    filter
}

#[test]
fn setup_registers_anchors_once() {
    let s = addr(1);
    let mut filter = HoneypotFilter::new(1);
    let first = Token::new(s, String::from("Safe"), String::from("SAFE"), 16);
    let second = Token::new(s, String::from("Other"), String::from("OTHR"), 6);
    filter.setup(vec![(s, 3, first)]);
    // a second resolution of the same anchor does not overwrite it
    filter.setup(vec![(s, 9, second)]);
    assert_eq!(filter.balance_slots.get(&s), Some(&3));
    assert_eq!(filter.safe_token_info.get(&s).unwrap().symbol, "SAFE");
}

#[test]
fn clean_token_is_admitted() {
    let s = addr(1);
    let t = addr(2);
    let mut filter = filter_with_safe_token(s);
    filter.simulator.set_v2_pool_reserves(
        addr(0xA00),
        PoolState { token0: s, token1: t, reserve0: RS, reserve1: RT },
    );
    let pools = vec![pool_record(addr(0xA00), s, t)];
    filter.filter_tokens(&pools);
    assert!(!filter.is_honeypot(t));
    assert!(filter.token_info.contains_key(&t));
    assert_eq!(filter.get_tax_rate(), (0, 0));
}

#[test]
fn twelve_percent_tax_is_honeypot() {
    // a token deducting 12% on transfer shows buy_tax just under
    // 1200 bps and lands in the honeypot set
    let s = addr(1);
    let t = addr(2);
    let mut filter = filter_with_safe_token(s);
    filter.simulator.set_v2_pool_reserves(
        addr(0xA00),
        PoolState { token0: s, token1: t, reserve0: RS, reserve1: RT },
    );
    filter.simulator.register_token(t, TokenMeta { tax_bps: 1200, balance_slot: 0 });
    let pools = vec![pool_record(addr(0xA00), s, t)];
    filter.filter_tokens(&pools);
    assert!(filter.is_honeypot(t));
    assert_eq!(filter.get_tax_rate().0, 1199);
    assert!(!filter.token_info.contains_key(&t));
}

#[test]
fn burn_rates_are_recovered_within_one_basis_point() {
    // burn rates of 1%, 5%, 9% and 15% measure within one basis point
    let s = addr(1);
    let expected = [(100u16, 99u64), (500, 499), (900, 899), (1500, 1499)];
    for (i, (p, measured)) in expected.iter().enumerate() {
        let t = addr(10 + i as u32);
        let pool = addr(100 + i as u32);
        let mut filter = filter_with_safe_token(s);
        filter.simulator.set_v2_pool_reserves(
            pool,
            PoolState { token0: s, token1: t, reserve0: RS, reserve1: RT },
        );
        filter.simulator.register_token(t, TokenMeta { tax_bps: *p, balance_slot: 0 });
        filter.simulator.deploy_simulator();
        let verdict = filter.check_pool(&pool_record(pool, s, t));
        assert_eq!(filter.get_tax_rate().0, *measured);
        if *p >= 1000 {
            assert_eq!(verdict, PoolVerdict::BuyTaxed);
            assert!(filter.is_honeypot(t));
        } else {
            assert_eq!(verdict, PoolVerdict::Admitted);
            assert!(!filter.is_honeypot(t));
        }
    }
}

#[test]
fn cached_verdicts_are_not_reprobed() {
    // tokens present in either cache are skipped without touching
    // the harness
    let s = addr(1);
    let t = addr(2);
    let h = addr(3);
    let mut filter = filter_with_safe_token(s);
    filter.simulator.set_v2_pool_reserves(
        addr(0xA00),
        PoolState { token0: s, token1: t, reserve0: RS, reserve1: RT },
    );
    filter.token_info.insert(t, Token::new(t, String::new(), String::new(), 18));
    filter.honeypot.insert(h, true);
    let v1 = filter.check_pool(&pool_record(addr(0xA00), s, t));
    assert_eq!(v1, PoolVerdict::AlreadyClassified);
    let v2 = filter.check_pool(&pool_record(addr(0xA01), s, h));
    assert_eq!(v2, PoolVerdict::AlreadyClassified);
    // no seeding happened: the simulator still holds no safe balance
    assert_eq!(filter.simulator.token_balance_of(s, simulator_address()).unwrap(), 0);
    assert!(filter.token_info.contains_key(&t));
    assert!(filter.is_honeypot(h));
}

#[test]
fn staticcall_discards_state_changes() {
    let s = addr(1);
    let t = addr(2);
    let mut sim = harness_with_pool(s, t, RS, RT, 0);
    sim.set_token_balance(simulator_address(), s, 16, 0, 1);
    let abi = SimulatorABI::new();
    let data = abi.v2_simulate_swap_input(AMOUNT_IN, &addr(0xA00), &s, &t);
    let tx = Tx {
        caller: addr(0xbeef),
        transact_to: simulator_address(),
        data,
        value: 0,
        gas_limit: 5_000_000,
    };
    let result = sim.staticcall(tx).unwrap();
    // the quote comes back encoded, but the cache kept the balance
    assert_eq!(abi.v2_simulate_swap_output(&result.output).unwrap().0, 9_871_580_343_970_612_988);
    assert_eq!(sim.token_balance_of(s, simulator_address()).unwrap(), AMOUNT_IN);
    let (r0, _, _) = sim.v2_pool_get_reserves(addr(0xA00)).unwrap();
    assert_eq!(r0, RS);
}

#[test]
fn pending_transactions_need_the_simulator() {
    let s = addr(1);
    let t = addr(2);
    let mut sim = harness_with_pool(s, t, RS, RT, 0);
    let tx = PendingTx {
        from: addr(4),
        to: Some(addr(0xD0)),
        input: Vec::new(),
        value: 0,
        nonce: 0,
        gas: 21000,
        transaction_type: None,
        gas_price: Some(1),
        max_fee_per_gas: None,
        max_priority_fee_per_gas: None,
        chain_id: None,
    };
    // a target without code cannot execute
    assert!(matches!(sim.run_pending_tx(&tx), Err(EvmError::NoCode)));
    // calldata the simulator does not expose is rejected
    let mut bad = tx.clone();
    bad.to = Some(simulator_address());
    bad.input = vec![0, 1, 2, 3];
    assert!(matches!(sim.run_pending_tx(&bad), Err(EvmError::BadCalldata)));
}

#[test]
fn swap_error_cases() {
    let s = addr(1);
    let t = addr(2);
    let u = addr(9);
    let pool = addr(0xA00);
    let mut sim = harness_with_pool(s, t, RS, RT, 0);
    // unfunded swap reverts with InsufficientBalance
    assert_eq!(
        sim.v2_simulate_swap(AMOUNT_IN, pool, s, t, true),
        Err(EvmError::Revert(SwapRevert::InsufficientBalance))
    );
    // unknown pool
    assert_eq!(
        sim.v2_simulate_swap(AMOUNT_IN, addr(77), s, t, true),
        Err(EvmError::Revert(SwapRevert::UnknownPool))
    );
    // wrong pair
    assert_eq!(
        sim.v2_simulate_swap(AMOUNT_IN, pool, s, u, true),
        Err(EvmError::Revert(SwapRevert::WrongTokenPair))
    );
    // zero-reserve quote
    assert_eq!(
        sim.get_amount_out(5, 0, 10),
        Err(EvmError::Revert(SwapRevert::InsufficientLiquidity))
    );
    // amounts beyond uint112
    assert_eq!(
        sim.get_amount_out(u128::MAX, 1, 10),
        Err(EvmError::Revert(SwapRevert::AmountTooLarge))
    );
    // an overflowing reserve is rejected like the pool contract would
    let mut full = harness_with_pool(s, t, evm_simulation::types::U112_MAX - 10, RT, 0);
    full.set_token_balance(simulator_address(), s, 2, 0, 1);
    assert_eq!(
        full.v2_simulate_swap(100, addr(0xA00), s, t, true),
        Err(EvmError::Revert(SwapRevert::ReserveOverflow))
    );
    // an undeployed simulator holds no code
    let bare = EvmSimulator::new(addr(0xbeef), 1);
    assert_eq!(bare.get_amount_out(5, 10, 10), Err(EvmError::NoCode));
}
