//! Token cache rows.
//!
//! Verified tokens persist across restarts as CSV rows
//! `address,implementation,name,symbol,decimals`, the address fields as
//! `0x`-prefixed 40-digit hex. Parsing and formatting of those rows is
//! verified here; reading and writing the files stays outside the
//! library.

use vstd::prelude::*;

use vstd::string::StringSliceAdditionalSpecFns;
use vstd::utf8::is_ascii_chars;

use crate::abi::{addr_bytes, addr_bytes_exec, be_bytes};
use crate::types::{Address, CacheCorrupt, Token};

verus! {

/// The value of an ASCII hex digit, 16 when the byte is no hex digit.
pub open spec fn hex_nibble_val(b: u8) -> nat {
    if 0x30 <= b <= 0x39 {
        (b - 0x30) as nat
    } else if 0x41 <= b <= 0x46 {
        (b - 0x41 + 10) as nat
    } else if 0x61 <= b <= 0x66 {
        (b - 0x61 + 10) as nat
    } else {
        16
    }
}

pub open spec fn is_hex_byte(b: u8) -> bool {
    hex_nibble_val(b) < 16
}

/// The value of a big-endian string of hex digits.
pub open spec fn hex_digits_val(s: Seq<u8>) -> nat
    decreases s.len(),
{
    if s.len() == 0 {
        0
    } else {
        hex_digits_val(s.drop_last()) * 16 + hex_nibble_val(s.last())
    }
}

/// 16^n, the number of values `n` hex digits can hold.
pub open spec fn pow16(n: nat) -> nat
    decreases n,
{
    if n == 0 {
        1
    } else {
        16 * pow16((n - 1) as nat)
    }
}

proof fn lemma_pow16_values()
    ensures
        pow16(8) == 0x1_0000_0000,
        pow16(16) == 0x1_0000_0000_0000_0000,
{
    assert(pow16(8) == 0x1_0000_0000) by {
        reveal_with_fuel(pow16, 9);
    }
    lemma_pow16_adds(8, 8);
}

proof fn lemma_pow16_adds(a: nat, b: nat)
    ensures
        pow16(a + b) == pow16(a) * pow16(b),
    decreases b,
{
    if b == 0 {
        assert(pow16(a + 0) == pow16(a) * 1) by (nonlinear_arith)
            requires
                pow16(a + 0) == pow16(a),
        ;
    } else {
        lemma_pow16_adds(a, (b - 1) as nat);
        assert((a + b - 1) as nat == a + (b - 1) as nat);
        assert(pow16(a + b) == 16 * (pow16(a) * pow16((b - 1) as nat)));
        assert(16 * (pow16(a) * pow16((b - 1) as nat)) == pow16(a) * (16 * pow16((b - 1) as nat)))
            by (nonlinear_arith);
    }
}

/// A string of valid hex digits holds a value under 16^len.
proof fn lemma_hex_digits_bound(s: Seq<u8>)
    requires
        forall|i: int| 0 <= i < s.len() ==> is_hex_byte(#[trigger] s[i]),
    ensures
        hex_digits_val(s) < pow16(s.len()),
    decreases s.len(),
{
    if s.len() > 0 {
        assert(is_hex_byte(s[s.len() - 1]));
        lemma_hex_digits_bound(s.drop_last());
    }
}

/// The ASCII codes of a character string; meaningful when the string is
/// ASCII.
pub open spec fn str_codes(s: Seq<char>) -> Seq<u8> {
    Seq::new(s.len(), |i: int| s[i] as u8)
}

/// The address a `0x`-prefixed 40-digit hex byte string denotes.
pub open spec fn parse_hex_addr_codes(s: Seq<u8>) -> Option<Address> {
    if s.len() == 42 && s[0] == 0x30 && s[1] == 0x78 && (forall|i: int|
        2 <= i < 42 ==> is_hex_byte(#[trigger] s[i])) {
        Some(
            Address {
                hi: hex_digits_val(s.subrange(2, 18)) as u64,
                mid: hex_digits_val(s.subrange(18, 34)) as u64,
                lo: hex_digits_val(s.subrange(34, 42)) as u32,
            },
        )
    } else {
        None
    }
}

/// The address a character string denotes; non-ASCII strings denote
/// none.
pub open spec fn parse_hex_addr(s: Seq<char>) -> Option<Address> {
    if is_ascii_chars(s) {
        parse_hex_addr_codes(str_codes(s))
    } else {
        None
    }
}

/// The value of a big-endian string of decimal digit bytes, with 10
/// marking an invalid digit.
pub open spec fn dec_digit_val(b: u8) -> nat {
    if 0x30 <= b <= 0x39 {
        (b - 0x30) as nat
    } else {
        10
    }
}

pub open spec fn dec_digits_val(s: Seq<u8>) -> nat
    decreases s.len(),
{
    if s.len() == 0 {
        0
    } else {
        dec_digits_val(s.drop_last()) * 10 + dec_digit_val(s.last())
    }
}

/// The `u8` a decimal character string denotes.
pub open spec fn parse_dec_u8(s: Seq<char>) -> Option<u8> {
    if is_ascii_chars(s) && s.len() >= 1 && (forall|i: int|
        0 <= i < s.len() ==> dec_digit_val(#[trigger] str_codes(s)[i]) < 10) && dec_digits_val(
        str_codes(s),
    ) <= 255 {
        Some(dec_digits_val(str_codes(s)) as u8)
    } else {
        None
    }
}

/// Appending digits never shrinks a decimal value.
proof fn lemma_dec_digits_grow(s: Seq<u8>, k: int)
    requires
        0 <= k <= s.len(),
    ensures
        dec_digits_val(s) >= dec_digits_val(s.take(k)),
    decreases s.len() - k,
{
    if k == s.len() {
        assert(s.take(k) =~= s);
    } else {
        lemma_dec_digits_grow(s, k + 1);
        assert(s.take(k + 1).drop_last() =~= s.take(k));
        assert(dec_digits_val(s.take(k + 1)) == dec_digits_val(s.take(k)) * 10 + dec_digit_val(
            s[k],
        ));
        assert(dec_digits_val(s.take(k)) * 10 >= dec_digits_val(s.take(k))) by (nonlinear_arith);
    }
}

/// Folds `count` hex digits starting at `start` into a value; rejects
/// anything that is no hex digit.
fn hex_group_val(b: &[u8], start: usize, count: usize) -> (r: Result<u64, CacheCorrupt>)
    requires
        start + count <= b@.len(),
        count <= 16,
    ensures
        match r {
            Ok(v) => (forall|i: int|
                start <= i < start + count ==> is_hex_byte(#[trigger] b@[i])) && v
                == hex_digits_val(b@.subrange(start as int, start + count)),
            Err(_) => !(forall|i: int|
                start <= i < start + count ==> is_hex_byte(#[trigger] b@[i])),
        },
{
    let n = b.len();
    let ghost w = b@.subrange(start as int, start + count);
    let mut acc: u64 = 0;
    let mut i: usize = 0;
    while i < count
        invariant
            i <= count <= 16,
            n == b@.len(),
            start + count <= b@.len(),
            w == b@.subrange(start as int, start + count),
            acc == hex_digits_val(w.take(i as int)),
            acc < pow16(i as nat),
            forall|k: int| start <= k < start + i ==> is_hex_byte(#[trigger] b@[k]),
        decreases count - i,
    {
        let c = b[start + i];
        let d: u64 = if 0x30 <= c && c <= 0x39 {
            (c - 0x30) as u64
        } else if 0x41 <= c && c <= 0x46 {
            (c - 0x41 + 10) as u64
        } else if 0x61 <= c && c <= 0x66 {
            (c - 0x61 + 10) as u64
        } else {
            return Err(CacheCorrupt);
        };
        proof {
            assert(w.take(i + 1).drop_last() =~= w.take(i as int));
            assert(w.take(i + 1).last() == w[i as int]);
            assert(w[i as int] == b@[start + i]);
            lemma_pow16_values();
            lemma_pow16_increases(i as nat, 15);
            assert(acc * 16 + d < pow16((i + 1) as nat));
        }
        acc = acc * 16 + d;
        i = i + 1;
    }
    proof {
        assert(w.take(count as int) =~= w);
    }
    Ok(acc)
}

proof fn lemma_pow16_increases(a: nat, b: nat)
    requires
        a <= b,
    ensures
        pow16(a) <= pow16(b),
    decreases b,
{
    if a < b {
        lemma_pow16_increases(a, (b - 1) as nat);
        assert(pow16((b - 1) as nat) >= 1) by {
            lemma_pow16_pos((b - 1) as nat);
        }
    }
}

proof fn lemma_pow16_pos(e: nat)
    ensures
        pow16(e) >= 1,
    decreases e,
{
    if e > 0 {
        lemma_pow16_pos((e - 1) as nat);
    }
}

/// Parses a `0x`-prefixed 40-digit hex address, exact against
/// [`parse_hex_addr`].
pub fn parse_hex_address(s: &str) -> (r: Result<Address, CacheCorrupt>)
    ensures
        match r {
            Ok(a) => parse_hex_addr(s@) == Some(a),
            Err(_) => parse_hex_addr(s@) is None,
        },
{
    if !s.is_ascii() {
        return Err(CacheCorrupt);
    }
    proof {
        vstd::string::is_ascii_spec_bytes(s);
        assert(s.spec_bytes() =~= str_codes(s@));
    }
    let b: &[u8] = s.as_bytes();
    if b.len() != 42 {
        return Err(CacheCorrupt);
    }
    if b[0] != 0x30 || b[1] != 0x78 {
        return Err(CacheCorrupt);
    }
    let hi = match hex_group_val(b, 2, 16) {
        Ok(v) => v,
        Err(e) => {
            return Err(e);
        },
    };
    let mid = match hex_group_val(b, 18, 16) {
        Ok(v) => v,
        Err(e) => {
            return Err(e);
        },
    };
    let lo = match hex_group_val(b, 34, 8) {
        Ok(v) => v,
        Err(e) => {
            return Err(e);
        },
    };
    proof {
        lemma_hex_digits_bound(b@.subrange(34, 42));
        lemma_pow16_values();
    }
    Ok(Address { hi, mid, lo: lo as u32 })
}

/// Parses a decimal `u8`, exact against [`parse_dec_u8`].
pub fn parse_decimals(s: &str) -> (r: Result<u8, CacheCorrupt>)
    ensures
        match r {
            Ok(v) => parse_dec_u8(s@) == Some(v),
            Err(_) => parse_dec_u8(s@) is None,
        },
{
    if !s.is_ascii() {
        return Err(CacheCorrupt);
    }
    proof {
        vstd::string::is_ascii_spec_bytes(s);
        assert(s.spec_bytes() =~= str_codes(s@));
    }
    let b: &[u8] = s.as_bytes();
    let n = b.len();
    if n == 0 {
        return Err(CacheCorrupt);
    }
    let mut acc: u32 = 0;
    let mut i: usize = 0;
    while i < n
        invariant
            i <= n,
            n == b@.len(),
            n >= 1,
            b@ == str_codes(s@),
            acc == dec_digits_val(b@.take(i as int)),
            acc <= 255,
            forall|k: int| 0 <= k < i ==> dec_digit_val(#[trigger] b@[k]) < 10,
        decreases n - i,
    {
        let c = b[i];
        if c < 0x30 || c > 0x39 {
            return Err(CacheCorrupt);
        }
        let d: u32 = (c - 0x30) as u32;
        proof {
            assert(b@.take(i + 1).drop_last() =~= b@.take(i as int));
            assert(b@.take(i + 1).last() == b@[i as int]);
        }
        let next: u32 = acc * 10 + d;
        if next > 255 {
            proof {
                lemma_dec_digits_grow(b@, i + 1);
            }
            return Err(CacheCorrupt);
        }
        acc = next;
        i = i + 1;
    }
    proof {
        assert(b@.take(n as int) =~= b@);
    }
    Ok(acc as u8)
}

/// The ASCII hex digit of a nibble, lowercase.
pub open spec fn hex_ascii_digit(n: nat) -> u8 {
    if n < 10 {
        (0x30 + n) as u8
    } else {
        (0x57 + n) as u8
    }
}

/// The `i`-th hex digit of an address's canonical lowercase rendering.
pub open spec fn addr_nibble(a: Address, i: int) -> nat {
    if i % 2 == 0 {
        addr_bytes(a)[i / 2] as nat / 16
    } else {
        addr_bytes(a)[i / 2] as nat % 16
    }
}

/// The canonical `0x`-prefixed lowercase hex rendering of an address, as
/// ASCII bytes.
pub open spec fn addr_hex_ascii(a: Address) -> Seq<u8> {
    seq![0x30u8, 0x78u8] + Seq::new(40, |i: int| hex_ascii_digit(addr_nibble(a, i)))
}

/// Renders an address as `0x`-prefixed lowercase hex ASCII, exact
/// against [`addr_hex_ascii`].
pub fn format_hex_address(a: &Address) -> (r: Vec<u8>)
    ensures
        r@ == addr_hex_ascii(*a),
{
    let bytes = addr_bytes_exec(a);
    proof {
        crate::abi::lemma_be_bytes_len(a.hi as nat, 8);
        crate::abi::lemma_be_bytes_len(a.mid as nat, 8);
        crate::abi::lemma_be_bytes_len(a.lo as nat, 4);
    }
    let mut out: Vec<u8> = Vec::new();
    out.push(0x30);
    out.push(0x78);
    let mut i: usize = 0;
    while i < 20
        invariant
            i <= 20,
            bytes@ == addr_bytes(*a),
            bytes@.len() == 20,
            out@ == seq![0x30u8, 0x78u8] + Seq::new(2 * i as nat, |k: int| hex_ascii_digit(
                addr_nibble(*a, k),
            )),
        decreases 20 - i,
    {
        let byte = bytes[i];
        let top: u8 = byte / 16;
        let bottom: u8 = byte % 16;
        let top_digit: u8 = if top < 10 {
            0x30 + top
        } else {
            0x57 + top
        };
        let bottom_digit: u8 = if bottom < 10 {
            0x30 + bottom
        } else {
            0x57 + bottom
        };
        out.push(top_digit);
        out.push(bottom_digit);
        proof {
            assert((2 * i as int) / 2 == i as int);
            assert((2 * i as int) % 2 == 0);
            assert((2 * i as int + 1) / 2 == i as int);
            assert((2 * i as int + 1) % 2 == 1);
            assert(out@ =~= seq![0x30u8, 0x78u8] + Seq::new(
                2 * (i + 1) as nat,
                |k: int| hex_ascii_digit(addr_nibble(*a, k)),
            ));
        }
        i = i + 1;
    }
    proof {
        assert(out@ =~= addr_hex_ascii(*a));
    }
    out
}

/// The first non-zero address of a list, if any.
pub open spec fn first_nonzero_addr(s: Seq<Address>) -> Option<Address>
    decreases s.len(),
{
    if s.len() == 0 {
        None
    } else if s[0] != (Address { hi: 0, mid: 0, lo: 0 }) {
        Some(s[0])
    } else {
        first_nonzero_addr(s.drop_first())
    }
}

/// Resolves the proxy-slot probe: of the probed slots' responses, in the
/// order they arrived, the first non-zero address wins; all-zero
/// responses mean the token is no known proxy.
pub fn pick_implementation(responses: &Vec<Address>) -> (r: Option<Address>)
    ensures
        r == first_nonzero_addr(responses@),
{
    let n = responses.len();
    let mut i: usize = 0;
    proof {
        assert(responses@.skip(0) =~= responses@);
    }
    while i < n
        invariant
            i <= n,
            n == responses@.len(),
            first_nonzero_addr(responses@) == first_nonzero_addr(responses@.skip(i as int)),
        decreases n - i,
    {
        proof {
            assert(responses@.skip(i as int)[0] == responses@[i as int]);
            assert(responses@.skip(i as int).drop_first() =~= responses@.skip(i + 1));
        }
        if !responses[i].is_zero() {
            return Some(responses[i]);
        }
        i = i + 1;
    }
    None
}

/// A hex digit rendered by [`hex_ascii_digit`] reads back as its value.
proof fn lemma_hex_ascii_digit_val(n: nat)
    requires
        n < 16,
    ensures
        is_hex_byte(hex_ascii_digit(n)),
        hex_nibble_val(hex_ascii_digit(n)) == n,
{
}

/// Reading a run of digit pairs recovers the bytes they render: two hex
/// digits per byte, most significant first.
proof fn lemma_hex_digits_of_bytes(bytes: Seq<u8>, digits: Seq<u8>)
    requires
        digits.len() == 2 * bytes.len(),
        forall|k: int|
            0 <= k < bytes.len() ==> #[trigger] digits[2 * k] == hex_ascii_digit(
                bytes[k] as nat / 16,
            ) && digits[2 * k + 1] == hex_ascii_digit(bytes[k] as nat % 16),
    ensures
        hex_digits_val(digits) == crate::abi::word_val(bytes),
    decreases bytes.len(),
{
    if bytes.len() > 0 {
        let m = bytes.len() as int;
        let head = digits.take(2 * m - 2);
        assert forall|k: int|
            0 <= k < bytes.drop_last().len() implies #[trigger] head[2 * k] == hex_ascii_digit(
            bytes.drop_last()[k] as nat / 16,
        ) && head[2 * k + 1] == hex_ascii_digit(bytes.drop_last()[k] as nat % 16) by {
            assert(digits[2 * k] == hex_ascii_digit(bytes[k] as nat / 16));
        }
        lemma_hex_digits_of_bytes(bytes.drop_last(), head);
        let b = bytes.last();
        assert(digits[2 * (m - 1)] == hex_ascii_digit(b as nat / 16));
        assert(digits[2 * (m - 1) + 1] == hex_ascii_digit(b as nat % 16));
        lemma_hex_ascii_digit_val(b as nat / 16);
        lemma_hex_ascii_digit_val(b as nat % 16);
        assert(digits.drop_last() =~= head.push(hex_ascii_digit(b as nat / 16)));
        assert(digits.last() == hex_ascii_digit(b as nat % 16));
        assert(head.push(hex_ascii_digit(b as nat / 16)).drop_last() =~= head);
        assert(head.push(hex_ascii_digit(b as nat / 16)).last() == hex_ascii_digit(b as nat / 16));
        assert(hex_digits_val(digits) == hex_digits_val(digits.drop_last()) * 16 + hex_nibble_val(
            digits.last(),
        ));
        assert(hex_nibble_val(digits.last()) == b as nat % 16);
        assert(hex_digits_val(digits.drop_last()) == hex_digits_val(
            head.push(hex_ascii_digit(b as nat / 16)),
        ));
        assert(hex_digits_val(head.push(hex_ascii_digit(b as nat / 16))) == hex_digits_val(head)
            * 16 + b as nat / 16);
        assert(hex_digits_val(digits) == (hex_digits_val(head) * 16 + b as nat / 16) * 16 + (
        b as nat % 16));
        vstd::arithmetic::div_mod::lemma_fundamental_div_mod(b as int, 16);
        assert((hex_digits_val(head) * 16 + b as nat / 16) * 16 + (b as nat % 16)
            == hex_digits_val(head) * 256 + b as nat) by (nonlinear_arith)
            requires
                (b as nat / 16) * 16 + (b as nat % 16) == b as nat,
        ;
    }
}

/// Rendering an address as hex and parsing it back is the identity: the
/// cache rows survive a restart word for word.
pub proof fn lemma_hex_address_round_trip(a: Address)
    ensures
        parse_hex_addr_codes(addr_hex_ascii(a)) == Some(a),
{
    let s = addr_hex_ascii(a);
    let digits = Seq::new(40, |i: int| hex_ascii_digit(addr_nibble(a, i)));
    crate::abi::lemma_be_bytes_len(a.hi as nat, 8);
    crate::abi::lemma_be_bytes_len(a.mid as nat, 8);
    crate::abi::lemma_be_bytes_len(a.lo as nat, 4);
    let bytes = addr_bytes(a);
    assert(bytes.len() == 20);
    assert forall|i: int| 0 <= i < 40 implies addr_nibble(a, i) < 16 by {
        assert(bytes[i / 2] < 256);
    }
    assert forall|i: int| 2 <= i < 42 implies is_hex_byte(#[trigger] s[i]) by {
        assert(s[i] == hex_ascii_digit(addr_nibble(a, i - 2)));
        lemma_hex_ascii_digit_val(addr_nibble(a, i - 2));
    }
    // each 16- or 8-digit group reads back as the backing address words
    let hi_bytes = bytes.subrange(0, 8);
    let mid_bytes = bytes.subrange(8, 16);
    let lo_bytes = bytes.subrange(16, 20);
    assert(hi_bytes =~= be_bytes(a.hi as nat, 8));
    assert(mid_bytes =~= be_bytes(a.mid as nat, 8));
    assert(lo_bytes =~= be_bytes(a.lo as nat, 4));
    assert(s.subrange(2, 18) =~= digits.subrange(0, 16));
    assert(s.subrange(18, 34) =~= digits.subrange(16, 32));
    assert(s.subrange(34, 42) =~= digits.subrange(32, 40));
    assert forall|k: int|
        0 <= k < 8 implies #[trigger] digits.subrange(0, 16)[2 * k] == hex_ascii_digit(
        hi_bytes[k] as nat / 16,
    ) && digits.subrange(0, 16)[2 * k + 1] == hex_ascii_digit(hi_bytes[k] as nat % 16) by {
        assert(digits[2 * k] == hex_ascii_digit(addr_nibble(a, 2 * k)));
        assert((2 * k) / 2 == k && (2 * k) % 2 == 0);
        assert((2 * k + 1) / 2 == k && (2 * k + 1) % 2 == 1);
    }
    lemma_hex_digits_of_bytes(hi_bytes, digits.subrange(0, 16));
    assert forall|k: int|
        0 <= k < 8 implies #[trigger] digits.subrange(16, 32)[2 * k] == hex_ascii_digit(
        mid_bytes[k] as nat / 16,
    ) && digits.subrange(16, 32)[2 * k + 1] == hex_ascii_digit(mid_bytes[k] as nat % 16) by {
        assert(digits[16 + 2 * k] == hex_ascii_digit(addr_nibble(a, 16 + 2 * k)));
        assert((16 + 2 * k) / 2 == 8 + k && (16 + 2 * k) % 2 == 0);
        assert((16 + 2 * k + 1) / 2 == 8 + k && (16 + 2 * k + 1) % 2 == 1);
    }
    lemma_hex_digits_of_bytes(mid_bytes, digits.subrange(16, 32));
    assert forall|k: int|
        0 <= k < 4 implies #[trigger] digits.subrange(32, 40)[2 * k] == hex_ascii_digit(
        lo_bytes[k] as nat / 16,
    ) && digits.subrange(32, 40)[2 * k + 1] == hex_ascii_digit(lo_bytes[k] as nat % 16) by {
        assert(digits[32 + 2 * k] == hex_ascii_digit(addr_nibble(a, 32 + 2 * k)));
        assert((32 + 2 * k) / 2 == 16 + k && (32 + 2 * k) % 2 == 0);
        assert((32 + 2 * k + 1) / 2 == 16 + k && (32 + 2 * k + 1) % 2 == 1);
    }
    lemma_hex_digits_of_bytes(lo_bytes, digits.subrange(32, 40));
    // the byte groups hold exactly the address words
    assert(crate::abi::pow256(8) == 0x1_0000_0000_0000_0000) by {
        reveal_with_fuel(crate::abi::pow256, 9);
    }
    assert(crate::abi::pow256(4) == 0x1_0000_0000) by {
        reveal_with_fuel(crate::abi::pow256, 5);
    }
    crate::abi::lemma_word_val_of_be_bytes(a.hi as nat, 8);
    crate::abi::lemma_word_val_of_be_bytes(a.mid as nat, 8);
    crate::abi::lemma_word_val_of_be_bytes(a.lo as nat, 4);
}

impl Token {
    /// The CSV cache row of this token: hex address, hex implementation
    /// (empty when none), name, symbol, decimals. The address fields are
    /// ASCII bytes ready to be written.
    pub fn cache_row(&self) -> (r: (Vec<u8>, Vec<u8>, String, String, u8))
        ensures
            r.0@ == addr_hex_ascii(self.address),
            match self.implementation {
                Some(imp) => r.1@ == addr_hex_ascii(imp),
                None => r.1@ == Seq::<u8>::empty(),
            },
            r.2 == self.name,
            r.3 == self.symbol,
            r.4 == self.decimals,
    {
        let implementation: Vec<u8> = match &self.implementation {
            Some(imp) => format_hex_address(imp),
            None => Vec::new(),
        };
        (
            format_hex_address(&self.address),
            implementation,
            self.name.clone(),
            self.symbol.clone(),
            self.decimals,
        )
    }

    /// Rebuilds a token from a CSV cache row
    /// `address,implementation,name,symbol,decimals`; an unparsable row
    /// or decimals beyond the 36 the data model allows are rejected as
    /// corrupt.
    pub fn from_cache_row(fields: &Vec<String>) -> (r: Result<Token, CacheCorrupt>)
        ensures
            match r {
                Ok(t) => {
                    &&& fields@.len() >= 5
                    &&& parse_hex_addr(fields@[0]@) == Some(t.address)
                    &&& (fields@[1]@.len() == 0 ==> t.implementation is None)
                    &&& (fields@[1]@.len() > 0 ==> parse_hex_addr(fields@[1]@) == Some(
                        t.implementation->0,
                    ) && t.implementation is Some)
                    &&& t.name == fields@[2]
                    &&& t.symbol == fields@[3]
                    &&& parse_dec_u8(fields@[4]@) == Some(t.decimals)
                    &&& t.decimals <= 36
                },
                Err(_) => fields@.len() < 5 || parse_hex_addr(fields@[0]@) is None || (
                fields@[1]@.len() > 0 && parse_hex_addr(fields@[1]@) is None) || parse_dec_u8(
                    fields@[4]@,
                ) is None || (parse_dec_u8(fields@[4]@) matches Some(d) && d > 36),
            },
    {
        if fields.len() < 5 {
            return Err(CacheCorrupt);
        }
        let address = match parse_hex_address(fields[0].as_str()) {
            Ok(a) => a,
            Err(e) => {
                return Err(e);
            },
        };
        let implementation: Option<Address> = if fields[1].as_str().is_empty() {
            None
        } else {
            match parse_hex_address(fields[1].as_str()) {
                Ok(a) => Some(a),
                Err(e) => {
                    return Err(e);
                },
            }
        };
        let decimals = match parse_decimals(fields[4].as_str()) {
            Ok(d) => d,
            Err(e) => {
                return Err(e);
            },
        };
        if decimals > 36 {
            return Err(CacheCorrupt);
        }
        Ok(
            Token {
                address,
                implementation,
                name: fields[2].clone(),
                symbol: fields[3].clone(),
                decimals,
            },
        )
    }
}

} // verus!
