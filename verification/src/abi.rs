//! Contract ABI codecs for the calls the engine makes: `balanceOf`,
//! `approve`, `getReserves` and the internal simulator helper contract.
//!
//! Calldata is the 4-byte function selector followed by 32-byte big-endian
//! words; return data is a row of 32-byte words. Encoding and decoding are
//! verified; only the Keccak-256 digests behind storage keys and selectors
//! are trusted to the outside crate.

use vstd::prelude::*;

use crate::types::{Address, DecodeError};

verus! {

/// The Keccak-256 digest of a byte string; the digest is a function of the
/// bytes alone.
pub uninterp spec fn keccak_of(s: Seq<u8>) -> Seq<u8>;

/// The 4-byte ABI selector of an ASCII function signature.
pub uninterp spec fn selector_of(sig: Seq<char>) -> Seq<u8>;

/// Relies on ethers_core::utils::keccak256: the Keccak-256 digest of the
/// input bytes, 32 bytes long, depending on the input alone.
#[verifier::external_body]
fn keccak256_bytes(input: &Vec<u8>) -> (r: Vec<u8>)
    ensures
        r@ == keccak_of(input@),
        r@.len() == 32,
{
    ethers_core::utils::keccak256(input.as_slice()).to_vec()
}

/// Relies on ethers_core::utils::id: the first four bytes of the
/// Keccak-256 hash of the ASCII function signature.
#[verifier::external_body]
fn signature_selector(sig: &str) -> (r: Vec<u8>)
    ensures
        r@ == selector_of(sig@),
        r@.len() == 4,
{
    ethers_core::utils::id(sig).to_vec()
}

/// The `n` big-endian bytes of `v` (most significant first).
pub open spec fn be_bytes(v: nat, n: nat) -> Seq<u8>
    decreases n,
{
    if n == 0 {
        Seq::empty()
    } else {
        be_bytes(v / 256, (n - 1) as nat).push((v % 256) as u8)
    }
}

/// A big-endian rendering is as long as asked.
pub proof fn lemma_be_bytes_len(v: nat, n: nat)
    ensures
        be_bytes(v, n).len() == n,
    decreases n,
{
    if n > 0 {
        lemma_be_bytes_len(v / 256, (n - 1) as nat);
    }
}

/// The value of a big-endian byte string.
pub open spec fn word_val(s: Seq<u8>) -> nat
    decreases s.len(),
{
    if s.len() == 0 {
        0
    } else {
        word_val(s.drop_last()) * 256 + s.last() as nat
    }
}

/// The 20 bytes of an address, most significant first.
pub open spec fn addr_bytes(a: Address) -> Seq<u8> {
    be_bytes(a.hi as nat, 8) + be_bytes(a.mid as nat, 8) + be_bytes(a.lo as nat, 4)
}

/// An address left-padded with zeros to a 32-byte ABI word.
pub open spec fn addr_word(a: Address) -> Seq<u8> {
    Seq::new(12, |i: int| 0u8) + addr_bytes(a)
}

/// `abi.encode(owner, slot)`: two 32-byte words.
pub open spec fn addr_uint_encoding(owner: Address, slot: u32) -> Seq<u8> {
    addr_word(owner) + be_bytes(slot as nat, 32)
}

/// The storage key of `owner`'s balance when the token keeps its balance
/// mapping at slot index `slot`: `keccak256(abi.encode(owner, slot))`.
pub open spec fn balance_key(owner: Address, slot: u32) -> Seq<u8> {
    keccak_of(addr_uint_encoding(owner, slot))
}

/// The `n` big-endian bytes of `v`, executable mirror of [`be_bytes`].
pub fn be_bytes_exec(v: u128, n: usize) -> (r: Vec<u8>)
    ensures
        r@ == be_bytes(v as nat, n as nat),
    decreases n,
{
    if n == 0 {
        Vec::new()
    } else {
        let mut r = be_bytes_exec(v / 256, n - 1);
        r.push((v % 256) as u8);
        r
    }
}

/// Appends the 32-byte ABI word of an address.
fn push_addr_word(out: &mut Vec<u8>, a: &Address)
    ensures
        final(out)@ == old(out)@ + addr_word(*a),
{
    let mut i: usize = 0;
    while i < 12
        invariant
            i <= 12,
            out@ == old(out)@ + Seq::new(i as nat, |j: int| 0u8),
        decreases 12 - i,
    {
        out.push(0u8);
        proof {
            assert(out@ =~= old(out)@ + Seq::new((i + 1) as nat, |j: int| 0u8));
        }
        i = i + 1;
    }
    let mut hi = be_bytes_exec(a.hi as u128, 8);
    let mut mid = be_bytes_exec(a.mid as u128, 8);
    let mut lo = be_bytes_exec(a.lo as u128, 4);
    out.append(&mut hi);
    out.append(&mut mid);
    out.append(&mut lo);
    proof {
        assert(out@ =~= old(out)@ + addr_word(*a));
    }
}

/// Appends the 32-byte ABI word of an unsigned amount.
fn push_uint_word(out: &mut Vec<u8>, v: u128)
    ensures
        final(out)@ == old(out)@ + be_bytes(v as nat, 32),
{
    let mut w = be_bytes_exec(v, 32);
    out.append(&mut w);
}

/// `abi.encode(owner, slot)`, executable mirror of [`addr_uint_encoding`].
pub fn encode_addr_uint(owner: &Address, slot: u32) -> (r: Vec<u8>)
    ensures
        r@ == addr_uint_encoding(*owner, slot),
{
    let mut out: Vec<u8> = Vec::new();
    push_addr_word(&mut out, owner);
    push_uint_word(&mut out, slot as u128);
    proof {
        assert(out@ =~= addr_uint_encoding(*owner, slot));
    }
    out
}

/// The storage key of `owner`'s balance in a token whose balance mapping
/// sits at slot index `slot`; executable mirror of [`balance_key`].
pub fn balance_storage_key(owner: &Address, slot: u32) -> (r: Vec<u8>)
    ensures
        r@ == balance_key(*owner, slot),
        r@.len() == 32,
{
    let encoded = encode_addr_uint(owner, slot);
    keccak256_bytes(&encoded)
}

/// Reads the 32-byte word at `offset`, requiring it to fit a `u128`.
pub fn decode_word_u128(data: &Vec<u8>, offset: usize) -> (r: Result<u128, DecodeError>)
    ensures
        match r {
            Ok(v) => offset + 32 <= data@.len() && word_val(
                data@.subrange(offset as int, offset + 32),
            ) == v,
            Err(_) => offset + 32 > data@.len() || word_val(
                data@.subrange(offset as int, offset + 32),
            ) > u128::MAX,
        },
{
    if offset > data.len() || data.len() - offset < 32 {
        return Err(DecodeError);
    }
    let n: usize = data.len();
    let ghost w = data@.subrange(offset as int, offset + 32);
    let mut acc: u128 = 0;
    let mut i: usize = 0;
    while i < 32
        invariant
            i <= 32,
            n == data@.len(),
            offset + 32 <= data@.len(),
            w == data@.subrange(offset as int, offset + 32),
            acc == word_val(w.take(i as int)),
        decreases 32 - i,
    {
        let b = data[offset + i];
        proof {
            assert(w.take(i + 1).drop_last() =~= w.take(i as int));
            assert(w.take(i + 1).last() == w[i as int]);
            assert(w[i as int] == data@[offset + i]);
        }
        if acc > (u128::MAX - (b as u128)) / 256 {
            proof {
                lemma_word_val_grows(w, i as int);
                assert(word_val(w.take(i + 1)) == acc * 256 + b);
                assert(acc * 256 + b > u128::MAX) by (nonlinear_arith)
                    requires
                        acc > ((u128::MAX - b) as u128) / 256,
                        0 <= b < 256,
                ;
            }
            return Err(DecodeError);
        }
        proof {
            assert(acc * 256 + b <= u128::MAX) by (nonlinear_arith)
                requires
                    acc <= ((u128::MAX - b) as u128) / 256,
                    0 <= b < 256,
            ;
        }
        acc = acc * 256 + (b as u128);
        i = i + 1;
    }
    proof {
        assert(w.take(32) =~= w);
    }
    Ok(acc)
}

/// 256^n, the number of values `n` bytes can hold.
pub open spec fn pow256(n: nat) -> nat
    decreases n,
{
    if n == 0 {
        1
    } else {
        256 * pow256((n - 1) as nat)
    }
}

/// A big-endian byte string of length `n` holds a value under 256^n.
pub proof fn lemma_word_val_bound(s: Seq<u8>)
    ensures
        word_val(s) < pow256(s.len()),
    decreases s.len(),
{
    if s.len() > 0 {
        lemma_word_val_bound(s.drop_last());
    }
}

/// Rendering a value big-endian and reading it back is the identity, as
/// long as the value fits the width.
pub proof fn lemma_word_val_of_be_bytes(v: nat, n: nat)
    requires
        v < pow256(n),
    ensures
        word_val(be_bytes(v, n)) == v,
    decreases n,
{
    if n == 0 {
    } else {
        assert(v / 256 < pow256((n - 1) as nat)) by {
            vstd::arithmetic::div_mod::lemma_multiply_divide_lt(
                v as int,
                256,
                pow256((n - 1) as nat) as int,
            );
            assert(v < 256 * pow256((n - 1) as nat));
        }
        lemma_word_val_of_be_bytes(v / 256, (n - 1) as nat);
        lemma_be_bytes_len(v / 256, (n - 1) as nat);
        assert(be_bytes(v, n).drop_last() =~= be_bytes(v / 256, (n - 1) as nat));
        assert(be_bytes(v, n).last() == (v % 256) as u8);
        vstd::arithmetic::div_mod::lemma_fundamental_div_mod(v as int, 256);
    }
}

/// Once a word prefix exceeds a bound, the whole word does.
proof fn lemma_word_val_grows(s: Seq<u8>, k: int)
    requires
        0 <= k < s.len(),
    ensures
        word_val(s) >= word_val(s.take(k + 1)),
    decreases s.len() - k,
{
    if k == s.len() - 1 {
        assert(s.take(k + 1) =~= s);
    } else {
        lemma_word_val_grows(s, k + 1);
        assert(s.take(k + 2).drop_last() =~= s.take(k + 1));
        assert(word_val(s.take(k + 2)) == word_val(s.take(k + 1)) * 256 + s[k + 1]);
        assert(word_val(s.take(k + 1)) * 256 >= word_val(s.take(k + 1))) by (nonlinear_arith);
    }
}

/// The address whose 20 big-endian bytes are `s`.
pub open spec fn addr_from_bytes(s: Seq<u8>) -> Address
    recommends
        s.len() == 20,
{
    Address {
        hi: word_val(s.subrange(0, 8)) as u64,
        mid: word_val(s.subrange(8, 16)) as u64,
        lo: word_val(s.subrange(16, 20)) as u32,
    }
}

/// The 12 zero bytes padding an address to an ABI word.
pub open spec fn zero_pad12() -> Seq<u8> {
    Seq::new(12, |i: int| 0u8)
}

/// The address held by the ABI word at `k`, or `None` when the word is out
/// of range or its padding bytes are not zero.
pub open spec fn parse_addr_word(data: Seq<u8>, k: int) -> Option<Address> {
    if 0 <= k && k + 32 <= data.len() && data.subrange(k, k + 12) == zero_pad12() {
        Some(addr_from_bytes(data.subrange(k + 12, k + 32)))
    } else {
        None
    }
}

/// The `u128` amount held by the ABI word at `k`, or `None` when the word
/// is out of range or exceeds the modeled amount width.
pub open spec fn parse_uint_word(data: Seq<u8>, k: int) -> Option<u128> {
    if 0 <= k && k + 32 <= data.len() && word_val(data.subrange(k, k + 32)) <= u128::MAX {
        Some(word_val(data.subrange(k, k + 32)) as u128)
    } else {
        None
    }
}

/// Folds `count` big-endian bytes starting at `offset` into a value.
fn fold_bytes(data: &Vec<u8>, offset: usize, count: usize) -> (r: u128)
    requires
        offset + count <= data@.len(),
        count <= 8,
    ensures
        r == word_val(data@.subrange(offset as int, offset + count)),
{
    let n: usize = data.len();
    let ghost w = data@.subrange(offset as int, offset + count);
    let mut acc: u128 = 0;
    let mut i: usize = 0;
    while i < count
        invariant
            i <= count <= 8,
            n == data@.len(),
            offset + count <= data@.len(),
            w == data@.subrange(offset as int, offset + count),
            acc == word_val(w.take(i as int)),
            acc < pow256(i as nat),
        decreases count - i,
    {
        let b = data[offset + i];
        proof {
            assert(w.take(i + 1).drop_last() =~= w.take(i as int));
            assert(w.take(i + 1).last() == w[i as int]);
            assert(w[i as int] == data@[offset + i]);
            assert(pow256(8) == 0x1_0000_0000_0000_0000) by {
                reveal_with_fuel(pow256, 9);
            }
            lemma_pow256_increases(i as nat, 7);
            assert(acc * 256 + b < pow256((i + 1) as nat));
        }
        acc = acc * 256 + (b as u128);
        i = i + 1;
    }
    proof {
        assert(w.take(count as int) =~= w);
    }
    acc
}

proof fn lemma_pow256_increases(a: nat, b: nat)
    requires
        a <= b,
    ensures
        pow256(a) <= pow256(b),
    decreases b,
{
    if a < b {
        lemma_pow256_increases(a, (b - 1) as nat);
        assert(pow256((b - 1) as nat) >= 1) by {
            lemma_pow256_pos((b - 1) as nat);
        }
    }
}

proof fn lemma_pow256_pos(e: nat)
    ensures
        pow256(e) >= 1,
    decreases e,
{
    if e > 0 {
        lemma_pow256_pos((e - 1) as nat);
    }
}

/// Reads the address in the ABI word at `offset`, exact against
/// [`parse_addr_word`].
pub fn decode_addr_word(data: &Vec<u8>, offset: usize) -> (r: Result<Address, DecodeError>)
    ensures
        match r {
            Ok(a) => parse_addr_word(data@, offset as int) == Some(a),
            Err(_) => parse_addr_word(data@, offset as int) is None,
        },
{
    if offset > data.len() || data.len() - offset < 32 {
        return Err(DecodeError);
    }
    let n: usize = data.len();
    let mut i: usize = 0;
    while i < 12
        invariant
            i <= 12,
            n == data@.len(),
            offset + 32 <= data@.len(),
            forall|j: int| 0 <= j < i ==> #[trigger] data@[offset + j] == 0u8,
        decreases 12 - i,
    {
        if data[offset + i] != 0 {
            proof {
                assert(data@.subrange(offset as int, offset + 12)[i as int] != 0u8);
                assert(data@.subrange(offset as int, offset + 12) != zero_pad12());
            }
            return Err(DecodeError);
        }
        i = i + 1;
    }
    proof {
        assert forall|j: int| 0 <= j < 12 implies #[trigger] data@.subrange(
            offset as int,
            offset + 12,
        )[j] == 0u8 by {
            assert(data@[offset + j] == 0u8);
        }
        assert(data@.subrange(offset as int, offset + 12) =~= zero_pad12());
    }
    let hi: u64 = fold_bytes(data, offset + 12, 8) as u64;
    let mid: u64 = fold_bytes(data, offset + 20, 8) as u64;
    let lo: u32 = fold_bytes(data, offset + 28, 4) as u32;
    proof {
        let tail = data@.subrange(offset + 12, offset + 32);
        assert(tail.subrange(0, 8) =~= data@.subrange(offset + 12, offset + 20));
        assert(tail.subrange(8, 16) =~= data@.subrange(offset + 20, offset + 28));
        assert(tail.subrange(16, 20) =~= data@.subrange(offset + 28, offset + 32));
        lemma_word_val_bound(tail.subrange(0, 8));
        lemma_word_val_bound(tail.subrange(8, 16));
        lemma_word_val_bound(tail.subrange(16, 20));
        assert(pow256(8) == 0x1_0000_0000_0000_0000) by {
            reveal_with_fuel(pow256, 9);
        }
        assert(pow256(4) == 0x1_0000_0000) by {
            reveal_with_fuel(pow256, 5);
        }
    }
    Ok(Address { hi, mid, lo })
}

/// The 20 big-endian bytes of an address, executable mirror of
/// [`addr_bytes`].
pub fn addr_bytes_exec(a: &Address) -> (r: Vec<u8>)
    ensures
        r@ == addr_bytes(*a),
{
    let mut r = be_bytes_exec(a.hi as u128, 8);
    let mut mid = be_bytes_exec(a.mid as u128, 8);
    let mut lo = be_bytes_exec(a.lo as u128, 4);
    r.append(&mut mid);
    r.append(&mut lo);
    proof {
        assert(r@ =~= addr_bytes(*a));
    }
    r
}

/// The low 32 bits of a 32-byte storage key.
pub(crate) fn fold_key_tail(key: &Vec<u8>) -> (r: u32)
    requires
        key@.len() == 32,
    ensures
        r == word_val(key@.subrange(28, 32)),
{
    let v = fold_bytes(key, 28, 4);
    proof {
        lemma_word_val_bound(key@.subrange(28, 32));
        assert(pow256(4) == 0x1_0000_0000) by {
            reveal_with_fuel(pow256, 5);
        }
    }
    v as u32
}

/// Copies a byte vector.
pub(crate) fn copy_bytes(v: &Vec<u8>) -> (r: Vec<u8>)
    ensures
        r@ == v@,
{
    let mut r: Vec<u8> = Vec::new();
    let n = v.len();
    let mut i: usize = 0;
    while i < n
        invariant
            i <= n,
            n == v@.len(),
            r@ == v@.take(i as int),
        decreases n - i,
    {
        r.push(v[i]);
        proof {
            assert(r@ =~= v@.take(i + 1));
        }
        i = i + 1;
    }
    proof {
        assert(v@.take(n as int) =~= v@);
    }
    r
}

/// True iff `data` starts with the 4-byte selector `sel`.
fn has_selector(data: &Vec<u8>, sel: &Vec<u8>) -> (r: bool)
    requires
        sel@.len() == 4,
    ensures
        r == (data@.len() >= 4 && data@.take(4) == sel@),
{
    if data.len() < 4 {
        return false;
    }
    let hit = data[0] == sel[0] && data[1] == sel[1] && data[2] == sel[2] && data[3] == sel[3];
    proof {
        if hit {
            assert(data@.take(4) =~= sel@);
        } else {
            assert(data@.take(4) != sel@) by {
                if data@.take(4) == sel@ {
                    assert(data@.take(4)[0] == sel@[0]);
                    assert(data@.take(4)[1] == sel@[1]);
                    assert(data@.take(4)[2] == sel@[2]);
                    assert(data@.take(4)[3] == sel@[3]);
                }
            }
        }
    }
    hit
}

/// The arguments of a well-formed `v2SimulateSwap` call, when the
/// calldata is one.
pub open spec fn parse_swap_call(data: Seq<u8>) -> Option<(u128, Address, Address, Address)> {
    if data.len() == 132 && data.take(4) == selector_of(
        "v2SimulateSwap(uint256,address,address,address)"@,
    ) && parse_uint_word(data, 4) is Some && parse_addr_word(data, 36) is Some && parse_addr_word(
        data,
        68,
    ) is Some && parse_addr_word(data, 100) is Some {
        Some(
            (
                parse_uint_word(data, 4)->0,
                parse_addr_word(data, 36)->0,
                parse_addr_word(data, 68)->0,
                parse_addr_word(data, 100)->0,
            ),
        )
    } else {
        None
    }
}

/// The arguments of a well-formed `getAmountOut` call, when the calldata
/// is one.
pub open spec fn parse_amount_out_call(data: Seq<u8>) -> Option<(u128, u128, u128)> {
    if data.len() == 100 && data.take(4) == selector_of("getAmountOut(uint256,uint256,uint256)"@)
        && parse_uint_word(data, 4) is Some && parse_uint_word(data, 36) is Some && parse_uint_word(
        data,
        68,
    ) is Some {
        Some((parse_uint_word(data, 4)->0, parse_uint_word(data, 36)->0, parse_uint_word(data, 68)->0))
    } else {
        None
    }
}

proof fn lemma_pow256_adds(a: nat, b: nat)
    ensures
        pow256(a + b) == pow256(a) * pow256(b),
    decreases b,
{
    if b == 0 {
        assert(pow256(a + 0) == pow256(a) * 1) by (nonlinear_arith)
            requires
                pow256(a + 0) == pow256(a),
        ;
    } else {
        lemma_pow256_adds(a, (b - 1) as nat);
        assert((a + b - 1) as nat == a + (b - 1) as nat);
        assert(pow256(a + b) == 256 * (pow256(a) * pow256((b - 1) as nat)));
        assert(256 * (pow256(a) * pow256((b - 1) as nat)) == pow256(a) * (256 * pow256(
            (b - 1) as nat,
        ))) by (nonlinear_arith);
    }
}

/// Every `u128` fits a 32-byte word.
proof fn lemma_u128_lt_pow256_32()
    ensures
        u128::MAX < pow256(16) <= pow256(32),
{
    assert(pow256(8) == 0x1_0000_0000_0000_0000) by {
        reveal_with_fuel(pow256, 9);
    }
    lemma_pow256_adds(8, 8);
    lemma_pow256_increases(16, 32);
}

/// The length of an address word is one ABI word.
proof fn lemma_addr_word_len(a: Address)
    ensures
        addr_word(a).len() == 32,
        addr_bytes(a).len() == 20,
{
    lemma_be_bytes_len(a.hi as nat, 8);
    lemma_be_bytes_len(a.mid as nat, 8);
    lemma_be_bytes_len(a.lo as nat, 4);
}

/// A word that renders an address parses back to that address.
proof fn lemma_parse_addr_word_of_addr_word(data: Seq<u8>, k: int, a: Address)
    requires
        0 <= k,
        k + 32 <= data.len(),
        data.subrange(k, k + 32) == addr_word(a),
    ensures
        parse_addr_word(data, k) == Some(a),
{
    lemma_addr_word_len(a);
    assert(data.subrange(k, k + 12) =~= addr_word(a).subrange(0, 12));
    assert(addr_word(a).subrange(0, 12) =~= zero_pad12());
    let tail = data.subrange(k + 12, k + 32);
    assert(tail =~= data.subrange(k, k + 32).subrange(12, 32));
    assert(data.subrange(k, k + 32).subrange(12, 32) =~= addr_bytes(a));
    assert(tail =~= addr_bytes(a));
    assert(tail == addr_bytes(a));
    lemma_be_bytes_len(a.hi as nat, 8);
    lemma_be_bytes_len(a.mid as nat, 8);
    lemma_be_bytes_len(a.lo as nat, 4);
    assert(addr_bytes(a).subrange(0, 8) =~= be_bytes(a.hi as nat, 8));
    assert(addr_bytes(a).subrange(8, 16) =~= be_bytes(a.mid as nat, 8));
    assert(addr_bytes(a).subrange(16, 20) =~= be_bytes(a.lo as nat, 4));
    assert(pow256(8) == 0x1_0000_0000_0000_0000) by {
        reveal_with_fuel(pow256, 9);
    }
    assert(pow256(4) == 0x1_0000_0000) by {
        reveal_with_fuel(pow256, 5);
    }
    lemma_word_val_of_be_bytes(a.hi as nat, 8);
    lemma_word_val_of_be_bytes(a.mid as nat, 8);
    lemma_word_val_of_be_bytes(a.lo as nat, 4);
    assert(addr_from_bytes(tail) == a);
}

/// Encoding a `v2SimulateSwap` call and parsing it back yields the same
/// arguments: the dispatcher understands exactly what the encoder
/// produces. The selector is the 4-byte digest the trusted hash
/// provides.
pub proof fn lemma_swap_calldata_round_trip(
    amount_in: u128,
    pool: Address,
    token_in: Address,
    token_out: Address,
)
    requires
        selector_of("v2SimulateSwap(uint256,address,address,address)"@).len() == 4,
    ensures
        parse_swap_call(v2_simulate_swap_calldata(amount_in, pool, token_in, token_out)) == Some(
            (amount_in, pool, token_in, token_out),
        ),
{
    let data = v2_simulate_swap_calldata(amount_in, pool, token_in, token_out);
    let sel = selector_of("v2SimulateSwap(uint256,address,address,address)"@);
    lemma_be_bytes_len(amount_in as nat, 32);
    lemma_addr_word_len(pool);
    lemma_addr_word_len(token_in);
    lemma_addr_word_len(token_out);
    assert(data.len() == 132);
    assert(data.take(4) =~= sel);
    assert(data.subrange(4, 36) =~= be_bytes(amount_in as nat, 32));
    lemma_u128_lt_pow256_32();
    lemma_word_val_of_be_bytes(amount_in as nat, 32);
    assert(parse_uint_word(data, 4) == Some(amount_in));
    assert(data.subrange(36, 68) =~= addr_word(pool));
    lemma_parse_addr_word_of_addr_word(data, 36, pool);
    assert(data.subrange(68, 100) =~= addr_word(token_in));
    lemma_parse_addr_word_of_addr_word(data, 68, token_in);
    assert(data.subrange(100, 132) =~= addr_word(token_out));
    lemma_parse_addr_word_of_addr_word(data, 100, token_out);
}

/// The full word of ones that `approve` grants (the `uint256` maximum).
pub open spec fn max_uint_word() -> Seq<u8> {
    Seq::new(32, |i: int| 0xffu8)
}

/// `balanceOf(account)` calldata.
pub open spec fn balance_of_calldata(account: Address) -> Seq<u8> {
    selector_of("balanceOf(address)"@) + addr_word(account)
}

/// `approve(spender, uint256::MAX)` calldata.
pub open spec fn approve_calldata(spender: Address) -> Seq<u8> {
    selector_of("approve(address,uint256)"@) + addr_word(spender) + max_uint_word()
}

/// `getReserves()` calldata.
pub open spec fn get_reserves_calldata() -> Seq<u8> {
    selector_of("getReserves()"@)
}

/// `v2SimulateSwap(amountIn, pool, tokenIn, tokenOut)` calldata.
pub open spec fn v2_simulate_swap_calldata(
    amount_in: u128,
    pool: Address,
    token_in: Address,
    token_out: Address,
) -> Seq<u8> {
    selector_of("v2SimulateSwap(uint256,address,address,address)"@) + be_bytes(amount_in as nat, 32)
        + addr_word(pool) + addr_word(token_in) + addr_word(token_out)
}

/// `getAmountOut(amountIn, reserveIn, reserveOut)` calldata.
pub open spec fn get_amount_out_calldata(
    amount_in: u128,
    reserve_in: u128,
    reserve_out: u128,
) -> Seq<u8> {
    selector_of("getAmountOut(uint256,uint256,uint256)"@) + be_bytes(amount_in as nat, 32)
        + be_bytes(reserve_in as nat, 32) + be_bytes(reserve_out as nat, 32)
}

/// ERC-20 calldata codec.
#[derive(Debug)]
pub struct TokenABI {
    balance_of_sel: Vec<u8>,
    approve_sel: Vec<u8>,
}

impl TokenABI {
    pub closed spec fn wf(&self) -> bool {
        &&& self.balance_of_sel@ == selector_of("balanceOf(address)"@)
        &&& self.balance_of_sel@.len() == 4
        &&& self.approve_sel@ == selector_of("approve(address,uint256)"@)
        &&& self.approve_sel@.len() == 4
    }

    pub fn new() -> (r: Self)
        ensures
            r.wf(),
    {
        TokenABI {
            balance_of_sel: signature_selector("balanceOf(address)"),
            approve_sel: signature_selector("approve(address,uint256)"),
        }
    }

    pub fn balance_of_input(&self, account: &Address) -> (r: Vec<u8>)
        requires
            self.wf(),
        ensures
            r@ == balance_of_calldata(*account),
    {
        let mut out = copy_bytes(&self.balance_of_sel);
        push_addr_word(&mut out, account);
        out
    }

    pub fn balance_of_output(&self, output: &Vec<u8>) -> (r: Result<u128, DecodeError>)
        ensures
            match r {
                Ok(v) => output@.len() == 32 && parse_uint_word(output@, 0) == Some(v),
                Err(_) => output@.len() != 32 || parse_uint_word(output@, 0) is None,
            },
    {
        if output.len() != 32 {
            return Err(DecodeError);
        }
        decode_word_u128(output, 0)
    }

    pub fn approve_input(&self, spender: &Address) -> (r: Vec<u8>)
        requires
            self.wf(),
        ensures
            r@ == approve_calldata(*spender),
    {
        let mut out = copy_bytes(&self.approve_sel);
        push_addr_word(&mut out, spender);
        let mut i: usize = 0;
        let ghost base = out@;
        while i < 32
            invariant
                i <= 32,
                out@ == base + Seq::new(i as nat, |j: int| 0xffu8),
            decreases 32 - i,
        {
            out.push(0xffu8);
            proof {
                assert(out@ =~= base + Seq::new((i + 1) as nat, |j: int| 0xffu8));
            }
            i = i + 1;
        }
        proof {
            assert(out@ =~= approve_calldata(*spender));
        }
        out
    }

    pub fn approve_output(&self, output: &Vec<u8>) -> (r: Result<bool, DecodeError>)
        ensures
            match r {
                Ok(b) => output@.len() == 32 && b == (word_val(output@) != 0),
                Err(_) => output@.len() != 32,
            },
    {
        if output.len() != 32 {
            return Err(DecodeError);
        }
        let mut i: usize = 0;
        while i < 32
            invariant
                i <= 32,
                output@.len() == 32,
                word_val(output@.take(i as int)) == 0,
            decreases 32 - i,
        {
            proof {
                assert(output@.take(i + 1).drop_last() =~= output@.take(i as int));
                assert(output@.take(i + 1).last() == output@[i as int]);
            }
            if output[i] != 0 {
                proof {
                    lemma_word_val_grows(output@, i as int);
                }
                return Ok(true);
            }
            i = i + 1;
        }
        proof {
            assert(output@.take(32) =~= output@);
        }
        Ok(false)
    }
}

/// V2 pool calldata codec.
#[derive(Debug)]
pub struct V2PoolABI {
    get_reserves_sel: Vec<u8>,
}

impl V2PoolABI {
    pub closed spec fn wf(&self) -> bool {
        &&& self.get_reserves_sel@ == selector_of("getReserves()"@)
        &&& self.get_reserves_sel@.len() == 4
    }

    pub fn new() -> (r: Self)
        ensures
            r.wf(),
    {
        V2PoolABI { get_reserves_sel: signature_selector("getReserves()") }
    }

    pub fn get_reserves_input(&self) -> (r: Vec<u8>)
        requires
            self.wf(),
        ensures
            r@ == get_reserves_calldata(),
    {
        copy_bytes(&self.get_reserves_sel)
    }

    /// Decodes `(reserve0, reserve1, blockTimestampLast)` return data.
    pub fn get_reserves_output(&self, output: &Vec<u8>) -> (r: Result<
        (u128, u128, u32),
        DecodeError,
    >)
        ensures
            match r {
                Ok((r0, r1, ts)) => {
                    &&& output@.len() == 96
                    &&& parse_uint_word(output@, 0) == Some(r0)
                    &&& parse_uint_word(output@, 32) == Some(r1)
                    &&& word_val(output@.subrange(64, 96)) == ts
                },
                Err(_) => output@.len() != 96 || parse_uint_word(output@, 0) is None
                    || parse_uint_word(output@, 32) is None || word_val(
                    output@.subrange(64, 96),
                ) > u32::MAX,
            },
    {
        if output.len() != 96 {
            return Err(DecodeError);
        }
        let r0 = match decode_word_u128(output, 0) {
            Ok(v) => v,
            Err(e) => {
                return Err(e);
            },
        };
        let r1 = match decode_word_u128(output, 32) {
            Ok(v) => v,
            Err(e) => {
                return Err(e);
            },
        };
        let ts_wide = match decode_word_u128(output, 64) {
            Ok(v) => v,
            Err(e) => {
                return Err(e);
            },
        };
        if ts_wide > 0xffff_ffff {
            return Err(DecodeError);
        }
        Ok((r0, r1, ts_wide as u32))
    }
}

/// Calldata codec of the deployed simulator helper contract.
#[derive(Debug)]
pub struct SimulatorABI {
    v2_simulate_swap_sel: Vec<u8>,
    get_amount_out_sel: Vec<u8>,
}

impl SimulatorABI {
    pub closed spec fn wf(&self) -> bool {
        &&& self.v2_simulate_swap_sel@ == selector_of(
            "v2SimulateSwap(uint256,address,address,address)"@,
        )
        &&& self.v2_simulate_swap_sel@.len() == 4
        &&& self.get_amount_out_sel@ == selector_of("getAmountOut(uint256,uint256,uint256)"@)
        &&& self.get_amount_out_sel@.len() == 4
    }

    pub fn new() -> (r: Self)
        ensures
            r.wf(),
    {
        SimulatorABI {
            v2_simulate_swap_sel: signature_selector("v2SimulateSwap(uint256,address,address,address)"),
            get_amount_out_sel: signature_selector("getAmountOut(uint256,uint256,uint256)"),
        }
    }

    pub fn v2_simulate_swap_input(
        &self,
        amount_in: u128,
        target_pool: &Address,
        input_token: &Address,
        output_token: &Address,
    ) -> (r: Vec<u8>)
        requires
            self.wf(),
        ensures
            r@ == v2_simulate_swap_calldata(amount_in, *target_pool, *input_token, *output_token),
    {
        let mut out = copy_bytes(&self.v2_simulate_swap_sel);
        push_uint_word(&mut out, amount_in);
        push_addr_word(&mut out, target_pool);
        push_addr_word(&mut out, input_token);
        push_addr_word(&mut out, output_token);
        proof {
            assert(out@ =~= v2_simulate_swap_calldata(
                amount_in,
                *target_pool,
                *input_token,
                *output_token,
            ));
        }
        out
    }

    /// Decodes the `(expectedOut, actualOut)` pair the helper returns.
    pub fn v2_simulate_swap_output(&self, output: &Vec<u8>) -> (r: Result<(u128, u128), DecodeError>)
        ensures
            match r {
                Ok((e, a)) => {
                    &&& output@.len() == 64
                    &&& parse_uint_word(output@, 0) == Some(e)
                    &&& parse_uint_word(output@, 32) == Some(a)
                },
                Err(_) => output@.len() != 64 || parse_uint_word(output@, 0) is None
                    || parse_uint_word(output@, 32) is None,
            },
    {
        if output.len() != 64 {
            return Err(DecodeError);
        }
        let e = match decode_word_u128(output, 0) {
            Ok(v) => v,
            Err(err) => {
                return Err(err);
            },
        };
        let a = match decode_word_u128(output, 32) {
            Ok(v) => v,
            Err(err) => {
                return Err(err);
            },
        };
        Ok((e, a))
    }

    pub fn get_amount_out_input(&self, amount_in: u128, reserve_in: u128, reserve_out: u128) -> (r:
        Vec<u8>)
        requires
            self.wf(),
        ensures
            r@ == get_amount_out_calldata(amount_in, reserve_in, reserve_out),
    {
        let mut out = copy_bytes(&self.get_amount_out_sel);
        push_uint_word(&mut out, amount_in);
        push_uint_word(&mut out, reserve_in);
        push_uint_word(&mut out, reserve_out);
        proof {
            assert(out@ =~= get_amount_out_calldata(amount_in, reserve_in, reserve_out));
        }
        out
    }

    /// Decodes the single `amountOut` word the helper returns.
    pub fn get_amount_out_output(&self, output: &Vec<u8>) -> (r: Result<u128, DecodeError>)
        ensures
            match r {
                Ok(v) => output@.len() == 32 && parse_uint_word(output@, 0) == Some(v),
                Err(_) => output@.len() != 32 || parse_uint_word(output@, 0) is None,
            },
    {
        if output.len() != 32 {
            return Err(DecodeError);
        }
        decode_word_u128(output, 0)
    }

    /// True iff `data` is a call of the helper's `v2SimulateSwap`.
    pub fn is_v2_simulate_swap_call(&self, data: &Vec<u8>) -> (r: bool)
        requires
            self.wf(),
        ensures
            r == (data@.len() >= 4 && data@.take(4) == selector_of(
                "v2SimulateSwap(uint256,address,address,address)"@,
            )),
    {
        has_selector(data, &self.v2_simulate_swap_sel)
    }

    /// Decodes the arguments of a `v2SimulateSwap` call, exact against
    /// [`parse_swap_call`].
    pub fn v2_simulate_swap_decode(&self, data: &Vec<u8>) -> (r: Result<
        (u128, Address, Address, Address),
        DecodeError,
    >)
        requires
            self.wf(),
        ensures
            match r {
                Ok(args) => parse_swap_call(data@) == Some(args),
                Err(_) => parse_swap_call(data@) is None,
            },
    {
        if data.len() != 132 || !has_selector(data, &self.v2_simulate_swap_sel) {
            return Err(DecodeError);
        }
        let amount_in = match decode_word_u128(data, 4) {
            Ok(v) => v,
            Err(e) => {
                return Err(e);
            },
        };
        let pool = match decode_addr_word(data, 36) {
            Ok(a) => a,
            Err(e) => {
                return Err(e);
            },
        };
        let token_in = match decode_addr_word(data, 68) {
            Ok(a) => a,
            Err(e) => {
                return Err(e);
            },
        };
        let token_out = match decode_addr_word(data, 100) {
            Ok(a) => a,
            Err(e) => {
                return Err(e);
            },
        };
        Ok((amount_in, pool, token_in, token_out))
    }

    /// True iff `data` is a call of the helper's `getAmountOut`.
    pub fn is_get_amount_out_call(&self, data: &Vec<u8>) -> (r: bool)
        requires
            self.wf(),
        ensures
            r == (data@.len() >= 4 && data@.take(4) == selector_of(
                "getAmountOut(uint256,uint256,uint256)"@,
            )),
    {
        has_selector(data, &self.get_amount_out_sel)
    }

    /// Decodes the arguments of a `getAmountOut` call, exact against
    /// [`parse_amount_out_call`].
    pub fn get_amount_out_decode(&self, data: &Vec<u8>) -> (r: Result<
        (u128, u128, u128),
        DecodeError,
    >)
        requires
            self.wf(),
        ensures
            match r {
                Ok(args) => parse_amount_out_call(data@) == Some(args),
                Err(_) => parse_amount_out_call(data@) is None,
            },
    {
        if data.len() != 100 || !has_selector(data, &self.get_amount_out_sel) {
            return Err(DecodeError);
        }
        let amount_in = match decode_word_u128(data, 4) {
            Ok(v) => v,
            Err(e) => {
                return Err(e);
            },
        };
        let reserve_in = match decode_word_u128(data, 36) {
            Ok(v) => v,
            Err(e) => {
                return Err(e);
            },
        };
        let reserve_out = match decode_word_u128(data, 68) {
            Ok(v) => v,
            Err(e) => {
                return Err(e);
            },
        };
        Ok((amount_in, reserve_in, reserve_out))
    }
}

} // verus!
