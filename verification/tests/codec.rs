//! ABI codecs, cache rows, the swap arithmetic and the base-fee rule on
//! concrete values.

use evm_simulation::abi::{
    be_bytes_exec, decode_word_u128, SimulatorABI, TokenABI, V2PoolABI,
};
use evm_simulation::arbitrage::{simulate_triangular_arbitrage, ArbPath, TriangularArbitrage};
use evm_simulation::math::{calculate_next_block_base_fee, get_amount_out_u128, mul_div};
use evm_simulation::simulator::{simulator_address, EvmSimulator, PoolState};
use evm_simulation::tokens::{format_hex_address, parse_hex_address, pick_implementation};
use evm_simulation::types::{Address, PendingTx, Pool, PoolVariant, Token};

fn addr(n: u32) -> Address {
    Address { hi: 0, mid: 0, lo: n }
}

#[test]
fn selectors_match_the_contract_abi() {
    // the canonical ERC-20 and V2 pool selectors; an identity hash
    // would produce none of them
    let token = TokenABI::new();
    let call = token.balance_of_input(&addr(1));
    assert_eq!(&call[0..4], &[0x70, 0xa0, 0x82, 0x31]);
    assert_eq!(call.len(), 36);
    let approve = token.approve_input(&addr(1));
    assert_eq!(&approve[0..4], &[0x09, 0x5e, 0xa7, 0xb3]);
    assert_eq!(approve.len(), 68);
    assert_eq!(&approve[36..68], &[0xffu8; 32]);
    let pool = V2PoolABI::new();
    assert_eq!(pool.get_reserves_input(), vec![0x09, 0x02, 0xf1, 0xac]);
}

#[test]
fn words_encode_and_decode_exactly() {
    let w = be_bytes_exec(0x1234_5678_9abc_def0_u128, 32);
    assert_eq!(w.len(), 32);
    assert_eq!(decode_word_u128(&w, 0), Ok(0x1234_5678_9abc_def0_u128));
    // short buffers and oversized words are rejected
    assert!(decode_word_u128(&vec![0u8; 31], 0).is_err());
    assert!(decode_word_u128(&vec![0xffu8; 32], 0).is_err());
}

#[test]
fn swap_calldata_round_trips() {
    let abi = SimulatorABI::new();
    let data = abi.v2_simulate_swap_input(12345, &addr(7), &addr(8), &addr(9));
    assert_eq!(data.len(), 132);
    assert_eq!(abi.v2_simulate_swap_decode(&data), Ok((12345, addr(7), addr(8), addr(9))));
    // a truncated call does not decode
    let mut short = data.clone();
    short.pop();
    assert!(abi.v2_simulate_swap_decode(&short).is_err());
    let out = abi.get_amount_out_input(1, 2, 3);
    assert_eq!(out.len(), 100);
    assert_eq!(abi.get_amount_out_decode(&out), Ok((1, 2, 3)));
}

#[test]
fn reserves_output_decodes_three_words() {
    let pool = V2PoolABI::new();
    let mut output = be_bytes_exec(111, 32);
    output.append(&mut be_bytes_exec(222, 32));
    output.append(&mut be_bytes_exec(333, 32));
    assert_eq!(pool.get_reserves_output(&output), Ok((111, 222, 333)));
    assert!(pool.get_reserves_output(&vec![0u8; 95]).is_err());
}

#[test]
fn token_outputs_decode() {
    let token = TokenABI::new();
    assert_eq!(token.balance_of_output(&be_bytes_exec(42, 32)), Ok(42));
    assert!(token.balance_of_output(&Vec::new()).is_err());
    assert_eq!(token.approve_output(&be_bytes_exec(1, 32)), Ok(true));
    assert_eq!(token.approve_output(&be_bytes_exec(0, 32)), Ok(false));
}

#[test]
fn addresses_format_and_parse_as_hex() {
    let usdt = Address { hi: 0xdAC17F958D2ee523, mid: 0xa2206206994597C1, lo: 0x3D831ec7 };
    let rendered = format_hex_address(&usdt);
    assert_eq!(
        String::from_utf8(rendered.clone()).unwrap(),
        "0xdac17f958d2ee523a2206206994597c13d831ec7"
    );
    let parsed = parse_hex_address(&String::from_utf8(rendered).unwrap()).unwrap();
    assert_eq!(parsed, usdt);
    // upper case parses to the same address
    let upper = parse_hex_address("0xDAC17F958D2EE523A2206206994597C13D831EC7").unwrap();
    assert_eq!(upper, usdt);
    // malformed strings are rejected
    assert!(parse_hex_address("dac17f958d2ee523a2206206994597c13d831ec7").is_err());
    assert!(parse_hex_address("0x123").is_err());
    assert!(parse_hex_address("0xzac17f958d2ee523a2206206994597c13d831ec7").is_err());
}

#[test]
fn cache_rows_round_trip() {
    let usdt = Address { hi: 0xdAC17F958D2ee523, mid: 0xa2206206994597C1, lo: 0x3D831ec7 };
    let mut token = Token::new(usdt, String::from("Tether USD"), String::from("USDT"), 6);
    token.add_implementation(Some(addr(0x99)));
    let row = token.cache_row();
    let fields = vec![
        String::from_utf8(row.0).unwrap(),
        String::from_utf8(row.1).unwrap(),
        row.2,
        row.3,
        row.4.to_string(),
    ];
    let back = Token::from_cache_row(&fields).unwrap();
    assert_eq!(back.address, usdt);
    assert_eq!(back.implementation, Some(addr(0x99)));
    assert_eq!(back.name, "Tether USD");
    assert_eq!(back.symbol, "USDT");
    assert_eq!(back.decimals, 6);
}

#[test]
fn corrupt_cache_rows_are_rejected() {
    let good = vec![
        String::from("0xdac17f958d2ee523a2206206994597c13d831ec7"),
        String::new(),
        String::from("Tether USD"),
        String::from("USDT"),
        String::from("6"),
    ];
    assert!(Token::from_cache_row(&good).is_ok());
    let mut short = good.clone();
    short.pop();
    assert!(Token::from_cache_row(&short).is_err());
    let mut bad_addr = good.clone();
    bad_addr[0] = String::from("0x123");
    assert!(Token::from_cache_row(&bad_addr).is_err());
    let mut bad_decimals = good.clone();
    bad_decimals[4] = String::from("n/a");
    assert!(Token::from_cache_row(&bad_decimals).is_err());
    let mut too_many = good;
    too_many[4] = String::from("37");
    assert!(Token::from_cache_row(&too_many).is_err());
}

#[test]
fn proxy_probe_takes_first_nonzero() {
    let zero = addr(0);
    assert_eq!(pick_implementation(&vec![zero, zero, addr(5), addr(6)]), Some(addr(5)));
    assert_eq!(pick_implementation(&vec![zero, zero, zero, zero]), None);
    assert_eq!(pick_implementation(&Vec::new()), None);
}

#[test]
fn constant_product_quote_is_exact() {
    assert_eq!(
        get_amount_out_u128(
            10_000_000_000_000_000,
            1_000_000_000_000_000_000,
            1_000_000_000_000_000_000_000,
        ),
        9_871_580_343_970_612_988
    );
    assert_eq!(mul_div(5, 1_000_000_000_000_000_000_000_000_000_000, 7),
        714_285_714_285_714_285_714_285_714_285);
    assert_eq!(mul_div(0, u128::MAX, 3), 0);
}

#[test]
fn base_fee_follows_the_update_rule() {
    assert_eq!(
        calculate_next_block_base_fee(15_000_000, 30_000_000, 100_000_000_000),
        100_000_000_000
    );
    assert_eq!(
        calculate_next_block_base_fee(30_000_000, 30_000_000, 100_000_000_000),
        112_500_000_000
    );
    assert_eq!(calculate_next_block_base_fee(0, 30_000_000, 100_000_000_000), 87_500_000_000);
    // the increase is at least one wei
    assert_eq!(calculate_next_block_base_fee(16_000_000, 30_000_000, 100), 101);
}

#[test]
fn gas_price_selection_follows_transaction_type() {
    let mut tx = PendingTx {
        from: addr(1),
        to: None,
        input: Vec::new(),
        value: 0,
        nonce: 0,
        gas: 21000,
        transaction_type: Some(0),
        gas_price: Some(7),
        max_fee_per_gas: Some(9),
        max_priority_fee_per_gas: None,
        chain_id: None,
    };
    assert_eq!(tx.effective_gas_price(), 7);
    tx.transaction_type = Some(2);
    assert_eq!(tx.effective_gas_price(), 9);
    tx.transaction_type = None;
    assert_eq!(tx.effective_gas_price(), 7);
}

#[test]
fn equilibrium_triangle_loses_only_fees() {
    // USDT -> WETH -> DAI -> USDT at equal implied prices
    let usdt = addr(1);
    let weth = addr(2);
    let dai = addr(3);
    let (p1, p2, p3) = (addr(0xA01), addr(0xA02), addr(0xA03));
    let mut sim = EvmSimulator::new(addr(0xBEEF), 1);
    sim.deploy_simulator();
    sim.set_v2_pool_reserves(
        p1,
        PoolState {
            token0: usdt,
            token1: weth,
            reserve0: 2_000_000_000_000,  // 2,000,000 USDT (6 decimals)
            reserve1: 1_000_000_000_000_000_000_000,  // 1,000 WETH
        },
    );
    sim.set_v2_pool_reserves(
        p2,
        PoolState {
            token0: weth,
            token1: dai,
            reserve0: 1_000_000_000_000_000_000_000,
            reserve1: 2_000_000_000_000_000_000_000_000,  // 2,000,000 DAI
        },
    );
    sim.set_v2_pool_reserves(
        p3,
        PoolState {
            token0: dai,
            token1: usdt,
            reserve0: 2_000_000_000_000_000_000_000_000,
            reserve1: 2_000_000_000_000,
        },
    );
    sim.set_token_balance(simulator_address(), usdt, 6, 0, 1);
    let fork = sim.db_snapshot();
    let path = ArbPath {
        pools: vec![
            pool_of(p1, usdt, weth),
            pool_of(p2, weth, dai),
            pool_of(p3, dai, usdt),
        ],
        directions: vec![true, true, true],
        nhop: 3,
    };
    let arb = TriangularArbitrage {
        amount_in: 1000,
        path,
        balance_slot: 0,
        target_token: Token::new(usdt, String::from("Tether USD"), String::from("USDT"), 6),
    };
    let profit = simulate_triangular_arbitrage(&arb, addr(0xBEEF), 1, Some(fork)).unwrap();
    assert_eq!(profit, -9);
    assert!(-30 < profit && profit <= 0);
}

fn pool_of(address: Address, token0: Address, token1: Address) -> Pool {
    Pool {
        address,
        variant: PoolVariant::UniswapV2,
        token0,
        token1,
        fee_bps: 30,
        block_created: 0,
    }
}
