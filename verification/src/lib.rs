//! Off-chain MEV opportunity discovery over constant-product (Uniswap-V2
//! style) liquidity pools.
//!
//! The crate models a forked EVM execution harness with cheap state
//! snapshots, the V2 swap arithmetic of the internal simulator contract,
//! a honeypot / transfer-tax token classifier, a storage-slot inference
//! engine, a triangular-arbitrage walker and a mempool-driven sandwich
//! classifier. All decision logic is verified; remote-chain I/O stays
//! outside the library and hands in plain values.

pub mod abi;
pub mod arbitrage;
pub mod honeypot;
pub mod maps;
pub mod math;
pub mod sandwich;
pub mod simulator;
pub mod strategy;
pub mod tokens;
pub mod trace;
pub mod types;
