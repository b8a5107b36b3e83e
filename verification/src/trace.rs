//! Storage-slot inference from prestate traces.
//!
//! A traced `balanceOf` call reveals which storage keys of the token the
//! call touched. For slot candidates `i` in `[0, 20)` the key of the
//! caller's balance under slot `i` is `keccak256(abi.encode(owner, i))`;
//! the smallest candidate whose key was touched is the balance-mapping
//! slot. The remote `debug_traceCall` that produces the touched-key set
//! stays outside the library; the inference takes the keys as values.

use vstd::prelude::*;

use crate::abi::{balance_key, balance_storage_key, word_val};
use crate::types::Address;

verus! {

/// The views of a list of 32-byte storage keys.
pub open spec fn key_views(keys: Seq<Vec<u8>>) -> Seq<Seq<u8>> {
    Seq::new(keys.len(), |j: int| keys[j]@)
}

/// Whether a key occurs in the touched set.
pub open spec fn touched_has(keys: Seq<Vec<u8>>, key: Seq<u8>) -> bool {
    exists|j: int| 0 <= j < keys.len() && #[trigger] keys[j]@ == key
}

/// Brute-force storage-slot discovery over traced storage keys.
pub struct EvmTracer {}

impl EvmTracer {
    pub fn new() -> (r: EvmTracer) {
        EvmTracer {  }
    }

    /// The smallest slot candidate in `[0, 20)` whose balance key for
    /// `owner` appears among the touched storage keys of a traced
    /// `balanceOf(owner)` call; `(false, 0)` when none matches.
    pub fn find_balance_slot(&self, owner: Address, touched: &Vec<Vec<u8>>) -> (r: (bool, u32))
        ensures
            r.0 ==> r.1 < 20 && touched_has(touched@, balance_key(owner, r.1)) && (forall|i: u32|
                i < r.1 ==> !touched_has(touched@, balance_key(owner, i))),
            !r.0 ==> r.1 == 0 && (forall|i: u32| i < 20 ==> !touched_has(
                touched@,
                balance_key(owner, i),
            )),
    {
        let mut i: u32 = 0;
        while i < 20
            invariant
                i <= 20,
                forall|k: u32| k < i ==> !touched_has(touched@, balance_key(owner, k)),
            decreases 20 - i,
        {
            let key = balance_storage_key(&owner, i);
            let n = touched.len();
            let mut j: usize = 0;
            while j < n
                invariant
                    j <= n,
                    n == touched@.len(),
                    i < 20,
                    key@ == balance_key(owner, i),
                    forall|k: u32| k < i ==> !touched_has(touched@, balance_key(owner, k)),
                    forall|k: int| 0 <= k < j ==> #[trigger] touched@[k]@ != key@,
                decreases n - j,
            {
                if touched[j] == key {
                    proof {
                        assert(touched@[j as int]@ == balance_key(owner, i));
                        assert(touched_has(touched@, balance_key(owner, i)));
                    }
                    return (true, i);
                }
                j = j + 1;
            }
            proof {
                assert(!touched_has(touched@, balance_key(owner, i)));
            }
            i = i + 1;
        }
        (false, 0)
    }

    /// The slot a traced `getReserves()` call read first: the low 32 bits
    /// of the first touched storage key. `(false, 0)` when the trace
    /// touched nothing or reported a malformed key.
    pub fn find_v2_reserves_slot(&self, touched: &Vec<Vec<u8>>) -> (r: (bool, u32))
        ensures
            r.0 ==> touched@.len() > 0 && touched@[0]@.len() == 32 && r.1 == word_val(
                touched@[0]@.subrange(28, 32),
            ),
            !r.0 ==> touched@.len() == 0 || touched@[0]@.len() != 32,
    {
        if touched.len() == 0 {
            return (false, 0);
        }
        let first = &touched[0];
        if first.len() != 32 {
            return (false, 0);
        }
        let slot = crate::abi::fold_key_tail(first);
        (true, slot)
    }
}

} // verus!
