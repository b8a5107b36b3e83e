//! Core data model: addresses, tokens, pools, transactions and events.

use vstd::prelude::*;

verus! {

/// Largest value a Solidity `uint112` can hold; V2 pools store each reserve
/// in one.
pub const U112_MAX: u128 = 0xffff_ffff_ffff_ffff_ffff_ffff_ffff;

/// A 20-byte EVM account address, stored as three machine integers holding
/// the big-endian bytes 0..8, 8..16 and 16..20.
#[derive(Clone, Copy, Debug, PartialEq, Eq, Structural)]
pub struct Address {
    pub hi: u64,
    pub mid: u64,
    pub lo: u32,
}

impl Address {
    pub fn zero() -> (r: Address)
        ensures
            r == (Address { hi: 0, mid: 0, lo: 0 }),
    {
        Address { hi: 0, mid: 0, lo: 0 }
    }

    /// True iff this is the all-zero address.
    pub fn is_zero(&self) -> (r: bool)
        ensures
            r == (*self == (Address { hi: 0, mid: 0, lo: 0 })),
    {
        self.hi == 0 && self.mid == 0 && self.lo == 0
    }

    /// Strict lexicographic order on the big-endian bytes, as numbers.
    pub open spec fn spec_lt(self, other: Address) -> bool {
        self.hi < other.hi
            || (self.hi == other.hi && self.mid < other.mid)
            || (self.hi == other.hi && self.mid == other.mid && self.lo < other.lo)
    }

    pub fn lt(&self, other: &Address) -> (r: bool)
        ensures
            r == self.spec_lt(*other),
    {
        self.hi < other.hi
            || (self.hi == other.hi && self.mid < other.mid)
            || (self.hi == other.hi && self.mid == other.mid && self.lo < other.lo)
    }
}

/// ERC-20 metadata of a token, as discovered on chain.
/// `implementation` is present iff the address is a detected proxy.
#[derive(Clone, Debug)]
pub struct Token {
    pub address: Address,
    pub implementation: Option<Address>,
    pub name: String,
    pub symbol: String,
    pub decimals: u8,
}

impl Token {
    /// A token is well formed when its decimals stay in the range real
    /// ERC-20 deployments use.
    pub open spec fn wf(self) -> bool {
        self.decimals <= 36
    }

    pub fn new(address: Address, name: String, symbol: String, decimals: u8) -> (r: Token)
        requires
            decimals <= 36,
        ensures
            r.address == address,
            r.implementation is None,
            r.name == name,
            r.symbol == symbol,
            r.decimals == decimals,
            r.wf(),
    {
        Token { address, implementation: None, name, symbol, decimals }
    }

    /// An owned copy equal to this token record.
    pub fn duplicate(&self) -> (r: Token)
        ensures
            r == *self,
    {
        Token {
            address: self.address,
            implementation: self.implementation,
            name: self.name.clone(),
            symbol: self.symbol.clone(),
            decimals: self.decimals,
        }
    }

    pub fn add_implementation(&mut self, implementation: Option<Address>)
        ensures
            *final(self) == (Token { implementation, ..*old(self) }),
    {
        self.implementation = implementation;
    }
}

/// The pool flavours the discovery crawler reports; only constant-product
/// pools are modeled.
#[derive(Clone, Copy, Debug, PartialEq, Eq, Structural)]
pub enum PoolVariant {
    UniswapV2,
    SushiswapV2,
}

/// A constant-product pool as listed by the discovery crawler.
#[derive(Clone, Copy, Debug)]
pub struct Pool {
    pub address: Address,
    pub variant: PoolVariant,
    pub token0: Address,
    pub token1: Address,
    pub fee_bps: u32,
    pub block_created: u64,
}

impl Pool {
    /// Token addresses come sorted from the factory and differ.
    pub open spec fn wf(self) -> bool {
        self.token0.spec_lt(self.token1)
    }
}

/// A transaction the harness is asked to execute.
#[derive(Clone, Debug)]
pub struct Tx {
    pub caller: Address,
    pub transact_to: Address,
    pub data: Vec<u8>,
    pub value: u128,
    pub gas_limit: u64,
}

/// What a successful harness execution returns.
#[derive(Clone, Debug)]
pub struct TxResult {
    pub output: Vec<u8>,
    pub gas_used: u64,
    pub gas_refunded: u64,
}

/// A pending transaction as observed in the mempool, reduced to the fields
/// the classifier reads.
#[derive(Clone, Debug)]
pub struct PendingTx {
    pub from: Address,
    pub to: Option<Address>,
    pub input: Vec<u8>,
    pub value: u128,
    pub nonce: u64,
    pub gas: u64,
    pub transaction_type: Option<u8>,
    pub gas_price: Option<u128>,
    pub max_fee_per_gas: Option<u128>,
    pub max_priority_fee_per_gas: Option<u128>,
    pub chain_id: Option<u64>,
}

impl PendingTx {
    /// The fee cap the base-fee gate compares against, zero when absent.
    pub open spec fn spec_max_fee(self) -> u128 {
        match self.max_fee_per_gas {
            Some(f) => f,
            None => 0,
        }
    }

    /// The gas price the harness charges: legacy transactions use
    /// `gas_price`, EIP-1559 transactions use `max_fee_per_gas`.
    pub open spec fn spec_effective_gas_price(self) -> u128 {
        match self.transaction_type {
            Some(0u8) => self.spec_gas_price_or_zero(),
            Some(_) => self.spec_max_fee(),
            None => self.spec_gas_price_or_zero(),
        }
    }

    pub open spec fn spec_gas_price_or_zero(self) -> u128 {
        match self.gas_price {
            Some(p) => p,
            None => 0,
        }
    }

    /// An owned copy whose calldata holds the same bytes.
    pub fn duplicate(&self) -> (r: PendingTx)
        ensures
            r.from == self.from,
            r.to == self.to,
            r.input@ == self.input@,
            r.value == self.value,
            r.nonce == self.nonce,
            r.gas == self.gas,
            r.transaction_type == self.transaction_type,
            r.gas_price == self.gas_price,
            r.max_fee_per_gas == self.max_fee_per_gas,
            r.max_priority_fee_per_gas == self.max_priority_fee_per_gas,
            r.chain_id == self.chain_id,
    {
        let n = self.input.len();
        let mut input: Vec<u8> = Vec::new();
        let mut i: usize = 0;
        while i < n
            invariant
                i <= n,
                n == self.input@.len(),
                input@ == self.input@.take(i as int),
            decreases n - i,
        {
            input.push(self.input[i]);
            proof {
                assert(input@ =~= self.input@.take(i + 1));
            }
            i = i + 1;
        }
        proof {
            assert(self.input@.take(n as int) =~= self.input@);
        }
        PendingTx {
            from: self.from,
            to: self.to,
            input,
            value: self.value,
            nonce: self.nonce,
            gas: self.gas,
            transaction_type: self.transaction_type,
            gas_price: self.gas_price,
            max_fee_per_gas: self.max_fee_per_gas,
            max_priority_fee_per_gas: self.max_priority_fee_per_gas,
            chain_id: self.chain_id,
        }
    }

    /// Picks the gas price the way the harness does when it re-derives a
    /// mempool transaction: legacy fields for type-0 (or untyped)
    /// transactions, EIP-1559 fields otherwise.
    pub fn effective_gas_price(&self) -> (r: u128)
        ensures
            r == self.spec_effective_gas_price(),
    {
        match self.transaction_type {
            Some(t) => {
                if t == 0 {
                    match self.gas_price {
                        Some(p) => p,
                        None => 0,
                    }
                } else {
                    match self.max_fee_per_gas {
                        Some(f) => f,
                        None => 0,
                    }
                }
            },
            None => {
                match self.gas_price {
                    Some(p) => p,
                    None => 0,
                }
            },
        }
    }
}

/// Reasons the modeled simulator contract reverts a swap.
#[derive(Clone, Copy, Debug, PartialEq, Eq, Structural)]
pub enum SwapRevert {
    /// The pool address is not a pool the harness state knows.
    UnknownPool,
    /// The requested token pair is not the pool's pair.
    WrongTokenPair,
    /// The caller's simulator contract holds less input token than asked.
    InsufficientBalance,
    /// A pool reserve is zero, so no output can be priced.
    InsufficientLiquidity,
    /// The incoming amount would push a reserve beyond `uint112`.
    ReserveOverflow,
    /// The amounts exceed what the swap arithmetic can price.
    AmountTooLarge,
}

/// Execution failures of the modeled EVM harness.
#[derive(Clone, Copy, Debug, PartialEq, Eq, Structural)]
pub enum EvmError {
    /// The target address holds no code the model can run.
    NoCode,
    /// The calldata does not decode as a supported entry point.
    BadCalldata,
    /// The simulator contract reverted.
    Revert(SwapRevert),
}

/// A persisted cache row that cannot be read back is discarded with
/// this.
#[derive(Clone, Copy, Debug, PartialEq, Eq, Structural)]
pub struct CacheCorrupt;

/// The ABI decoders reject malformed return data with this.
#[derive(Clone, Copy, Debug, PartialEq, Eq, Structural)]
pub struct DecodeError;

/// Head-of-chain context shared with every classifier.
#[derive(Clone, Copy, Debug)]
pub struct NewBlock {
    pub block_number: u64,
    pub base_fee: u128,
    pub next_base_fee: u128,
}

/// Events the pipeline fans out to its subscribers.
#[derive(Clone, Debug)]
pub enum Event {
    Block(NewBlock),
    PendingTx(PendingTx),
    /// Reserved for future subscription types; consumers tolerate it as a
    /// no-op.
    Log(u64),
}

} // verus!
