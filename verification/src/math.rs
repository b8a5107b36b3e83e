//! Integer arithmetic of the swap engine.
//!
//! Amounts are modeled as `u128`; the constant-product quote
//! `aOut = aIn*997*rOut / (rIn*1000 + aIn*997)` needs a 256-bit-wide
//! intermediate product, which [`mul_div`] computes exactly by binary long
//! division.

use vstd::prelude::*;

use vstd::arithmetic::div_mod::{
    lemma_div_denominator, lemma_fundamental_div_mod, lemma_fundamental_div_mod_converse,
};
use vstd::arithmetic::power2::{lemma_pow2_adds, lemma_pow2_pos, pow2};
use vstd::bits::lemma_u128_shr_is_div;

verus! {

/// 2^126, the cap on divisors [`mul_div`] accepts.
pub const MUL_DIV_MAX_DIVISOR: u128 = 0x4000_0000_0000_0000_0000_0000_0000_0000;

/// Ten to the `e`-th power.
pub open spec fn pow10(e: nat) -> nat
    decreases e,
{
    if e == 0 {
        1
    } else {
        10 * pow10((e - 1) as nat)
    }
}

pub proof fn lemma_pow10_increases(a: nat, b: nat)
    requires
        a <= b,
    ensures
        pow10(a) <= pow10(b),
    decreases b,
{
    if a < b {
        lemma_pow10_increases(a, (b - 1) as nat);
        assert(pow10(b) == 10 * pow10((b - 1) as nat));
        assert(pow10((b - 1) as nat) >= 1) by {
            lemma_pow10_pos((b - 1) as nat);
        }
    }
}

pub proof fn lemma_pow10_pos(e: nat)
    ensures
        pow10(e) >= 1,
    decreases e,
{
    if e > 0 {
        lemma_pow10_pos((e - 1) as nat);
    }
}

pub proof fn lemma_pow10_adds(a: nat, b: nat)
    ensures
        pow10(a + b) == pow10(a) * pow10(b),
    decreases b,
{
    if b == 0 {
        assert(pow10(a + 0) == pow10(a) * 1) by (nonlinear_arith)
            requires
                pow10(a + 0) == pow10(a),
        ;
    } else {
        lemma_pow10_adds(a, (b - 1) as nat);
        assert((a + b - 1) as nat == a + (b - 1) as nat);
        assert(pow10(a + b) == 10 * (pow10(a) * pow10((b - 1) as nat)));
        assert(10 * (pow10(a) * pow10((b - 1) as nat)) == pow10(a) * (10 * pow10(
            (b - 1) as nat,
        ))) by (nonlinear_arith);
    }
}

pub proof fn lemma_pow10_38_value()
    ensures
        pow10(38) == 0x4b3b4ca85a86c47a098a224000000000u128,
{
    assert(pow10(10) == 10_000_000_000) by {
        reveal_with_fuel(pow10, 11);
    }
    assert(pow10(8) == 100_000_000) by {
        reveal_with_fuel(pow10, 9);
    }
    lemma_pow10_adds(10, 10);
    lemma_pow10_adds(20, 10);
    lemma_pow10_adds(30, 8);
}

/// 10^e for e up to 38, the largest power of ten a `u128` holds.
pub fn pow10_u128(e: u8) -> (r: u128)
    requires
        e <= 38,
    ensures
        r == pow10(e as nat),
{
    proof {
        lemma_pow10_increases(e as nat, 38);
        lemma_pow10_38_value();
    }
    let mut r: u128 = 1;
    let mut i: u8 = 0;
    while i < e
        invariant
            i <= e <= 38,
            r == pow10(i as nat),
            pow10(e as nat) <= u128::MAX,
        decreases e - i,
    {
        proof {
            lemma_pow10_increases((i + 1) as nat, e as nat);
        }
        r = r * 10;
        i = i + 1;
    }
    r
}

/// `q <= p` whenever `q*d` stays under `(d-1)*p` with a positive divisor.
proof fn lemma_quotient_bound(q: int, d: int, p: int) by (nonlinear_arith)
    requires
        d >= 1,
        p >= 0,
        q >= 0,
        q * d <= (d - 1) * p,
    ensures
        q <= p,
{
}

/// Exact `(a * b) / d` without overflow of the 256-bit product, by binary
/// long division over the bits of `b`.
pub fn mul_div(a: u128, b: u128, d: u128) -> (q: u128)
    requires
        0 < d <= MUL_DIV_MAX_DIVISOR,
        a < d,
    ensures
        q as int == (a as int * b as int) / (d as int),
{
    let mut q: u128 = 0;
    let mut r: u128 = 0;
    let mut i: usize = 0;
    proof {
        vstd::arithmetic::power2::lemma2_to64_rest();
        lemma_pow2_adds(64, 64);
        assert(pow2(128) == 0x1_0000_0000_0000_0000_0000_0000_0000_0000);
        assert((b as nat) / pow2(128) == 0) by {
            vstd::arithmetic::div_mod::lemma_basic_div(b as int, pow2(128) as int);
        }
    }
    while i < 128
        invariant
            0 < d <= MUL_DIV_MAX_DIVISOR,
            a < d,
            i <= 128,
            r < d,
            q * d + r == a * ((b as nat) / pow2((128 - i) as nat)),
            q <= (b as nat) / pow2((128 - i) as nat),
            pow2(128) > b,
        decreases 128 - i,
    {
        let sh: u128 = (127 - i) as u128;
        let p: u128 = b >> sh;
        let bit: u128 = p % 2;
        let ghost prev = (b as nat) / pow2((128 - i) as nat);
        proof {
            lemma_u128_shr_is_div(b, sh);
            assert(p == (b as nat) / pow2((127 - i) as nat));
            lemma_pow2_pos((127 - i) as nat);
            lemma_pow2_adds((127 - i) as nat, 1);
            assert(pow2(1) == 2) by {
                vstd::arithmetic::power2::lemma2_to64();
            }
            lemma_div_denominator(b as int, pow2((127 - i) as nat) as int, 2);
            assert(prev == p as int / 2);
            assert(p == 2 * prev + bit);
            // the previous prefix is at most half of the value range
            if i == 0 {
                assert(prev == 0) by {
                    lemma_pow2_adds(64, 64);
                    vstd::arithmetic::power2::lemma2_to64_rest();
                    vstd::arithmetic::div_mod::lemma_basic_div(b as int, pow2(128) as int);
                }
            } else {
                lemma_pow2_pos((127 - i + 1) as nat);
                assert(prev <= (b as nat) / 2) by {
                    lemma_pow2_adds(1, (127 - i) as nat);
                    lemma_div_denominator(b as int, 2, pow2((127 - i) as nat) as int);
                    vstd::arithmetic::div_mod::lemma_div_is_ordered_by_denominator(
                        b as int,
                        2,
                        2 * pow2((127 - i) as nat) as int,
                    );
                }
            }
            assert(q * 2 <= u128::MAX) by {
                assert(q <= prev);
                assert(prev <= (b as nat) / 2);
            }
        }
        let add_in: u128 = if bit == 1 {
            a
        } else {
            0
        };
        let mut r2: u128 = r * 2 + add_in;
        let mut q2: u128 = q * 2;
        assert(r2 < 3 * d);
        proof {
            assert(q2 * d + r2 == a * (2 * prev) + bit * a) by (nonlinear_arith)
                requires
                    q2 == 2 * q,
                    r2 == 2 * r + bit * a,
                    q * d + r == a * prev,
                    (bit == 0 || bit == 1),
                    (bit == 1 ==> r2 == 2 * r + a),
                    (bit == 0 ==> r2 == 2 * r),
            ;
            assert(a * (2 * prev) + bit * a == a * p) by (nonlinear_arith)
                requires
                    p == 2 * prev + bit,
            ;
            assert(q2 * d <= (d - 1) * (p as int)) by (nonlinear_arith)
                requires
                    q2 * d + r2 == a * p,
                    r2 >= 0,
                    a <= d - 1,
                    p >= 0,
            ;
            lemma_quotient_bound(q2 as int, d as int, p as int);
        }
        if r2 >= d {
            proof {
                assert((q2 + 1) * d + (r2 - d) == q2 * d + r2) by (nonlinear_arith);
                assert((q2 + 1) * d <= (d - 1) * (p as int)) by (nonlinear_arith)
                    requires
                        (q2 + 1) * d + (r2 - d) == a * p,
                        r2 - d >= 0,
                        a <= d - 1,
                        p >= 0,
                ;
                lemma_quotient_bound((q2 + 1) as int, d as int, p as int);
            }
            r2 = r2 - d;
            q2 = q2 + 1;
        }
        assert(r2 < 2 * d);
        if r2 >= d {
            proof {
                assert((q2 + 1) * d + (r2 - d) == q2 * d + r2) by (nonlinear_arith);
                assert((q2 + 1) * d <= (d - 1) * (p as int)) by (nonlinear_arith)
                    requires
                        (q2 + 1) * d + (r2 - d) == a * p,
                        r2 - d >= 0,
                        a <= d - 1,
                        p >= 0,
                ;
                lemma_quotient_bound((q2 + 1) as int, d as int, p as int);
            }
            r2 = r2 - d;
            q2 = q2 + 1;
        }
        assert(r2 < d);
        q = q2;
        r = r2;
        i = i + 1;
        proof {
            assert((128 - i) as nat == (127 - (i - 1)) as nat);
        }
    }
    proof {
        assert(pow2(0) == 1) by {
            vstd::arithmetic::power2::lemma2_to64();
        }
        assert((b as nat) / pow2(0) == b) by {
            vstd::arithmetic::div_mod::lemma_div_basics(b as int);
        }
        lemma_fundamental_div_mod_converse(a as int * b as int, d as int, q as int, r as int);
    }
    q
}

/// The constant-product quote with the canonical 0.3% fee:
/// `aIn*997*rOut / (rIn*1000 + aIn*997)`.
pub open spec fn amount_out_spec(a_in: nat, r_in: nat, r_out: nat) -> nat
    recommends
        r_in >= 1,
{
    (a_in * 997 * r_out) / (r_in * 1000 + a_in * 997)
}

/// Executable constant-product quote, exact against [`amount_out_spec`].
pub fn get_amount_out_u128(a_in: u128, r_in: u128, r_out: u128) -> (r: u128)
    requires
        r_in >= 1,
        r_in * 1000 + a_in * 997 <= MUL_DIV_MAX_DIVISOR,
    ensures
        r == amount_out_spec(a_in as nat, r_in as nat, r_out as nat),
{
    let x: u128 = a_in * 997;
    let d: u128 = r_in * 1000 + x;
    let q = mul_div(x, r_out, d);
    proof {
        assert(x * r_out == a_in * 997 * r_out) by (nonlinear_arith)
            requires
                x == a_in * 997,
        ;
    }
    q
}

/// What a transfer of `x` loses to a token taxing `bps` basis points.
pub open spec fn tax_amount_spec(x: nat, bps: nat) -> nat {
    (x * bps) / 10000
}

/// Executable transfer-tax, exact against [`tax_amount_spec`].
pub fn tax_amount(x: u128, bps: u16) -> (r: u128)
    requires
        bps <= 10000,
    ensures
        r == tax_amount_spec(x as nat, bps as nat),
        r <= x,
    {
    let r = if bps == 10000 {
        proof {
            assert(x * 10000nat / 10000 == x) by (nonlinear_arith);
        }
        x
    } else {
        let t = mul_div(bps as u128, x, 10000);
        proof {
            assert(bps as int * x as int == x as int * bps as int) by (nonlinear_arith);
        }
        t
    };
    proof {
        assert(x * bps / 10000 <= x) by (nonlinear_arith)
            requires
                bps <= 10000,
        ;
    }
    r
}

/// A transfer tax within 100% never exceeds the transferred amount.
pub proof fn lemma_tax_le(x: nat, bps: nat)
    requires
        bps <= 10000,
    ensures
        tax_amount_spec(x, bps) <= x,
{
    assert(x * bps / 10000 <= x) by (nonlinear_arith)
        requires
            bps <= 10000,
            x >= 0,
    ;
}

/// The measured tax rate in basis points when a swap claimed `e` and
/// delivered `a`: `(e - a) * 10000 / e`. A claim of zero counts as total
/// loss.
pub open spec fn tax_rate_bps_spec(e: nat, a: nat) -> nat
    recommends
        a <= e,
{
    if e == 0 {
        10000
    } else {
        ((e - a) * 10000) as nat / e
    }
}

/// Executable tax measurement, exact against [`tax_rate_bps_spec`].
pub fn measure_tax_bps(e: u128, a: u128) -> (r: u64)
    requires
        a <= e,
        e <= 0x1_0000_0000_0000_0000_0000_0000_0000,
    ensures
        r == tax_rate_bps_spec(e as nat, a as nat),
        r <= 10000,
{
    if e == 0 {
        return 10000;
    }
    let q: u128 = ((e - a) * 10000) / e;
    proof {
        assert((e as int - a as int) * 10000 / (e as int) <= 10000) by (nonlinear_arith)
            requires
                0 < e,
                0 <= a <= e,
        ;
    }
    q as u64
}

/// A swap's quote, scaled by the fee denominator, never beats the spot
/// price: `1000 * out * rIn <= 997 * aIn * rOut`.
pub proof fn lemma_hop_spot_bound(a_in: nat, r_in: nat, r_out: nat)
    requires
        r_in >= 1,
    ensures
        1000 * amount_out_spec(a_in, r_in, r_out) * r_in <= 997 * a_in * r_out,
{
    let num = a_in * 997 * r_out;
    let den = r_in * 1000 + a_in * 997;
    let out = amount_out_spec(a_in, r_in, r_out);
    vstd::arithmetic::div_mod::lemma_fundamental_div_mod(num as int, den as int);
    vstd::arithmetic::div_mod::lemma_mod_bound(num as int, den as int);
    assert(out * den <= num) by (nonlinear_arith)
        requires
            num == out * den + (num as int % den as int),
            num as int % den as int >= 0,
    ;
    assert(1000 * out * r_in <= 997 * a_in * r_out) by (nonlinear_arith)
        requires
            out * den <= num,
            num == a_in * 997 * r_out,
            den == r_in * 1000 + a_in * 997,
            out >= 0,
            a_in >= 0,
            r_in >= 1,
            r_out >= 0,
    ;
}

/// A buy followed by selling the entire proceeds on the same untaxed
/// pool returns strictly less than the notional: the two 0.3% fees eat
/// the round trip.
pub proof fn lemma_round_trip_loses(x: nat, r_s: nat, r_t: nat)
    requires
        x >= 1,
        r_s >= 1,
        r_t >= 1,
    ensures
        ({
            let e = amount_out_spec(x, r_s, r_t);
            amount_out_spec(e, (r_t - e) as nat, r_s + x) < x
        }),
{
    let e = amount_out_spec(x, r_s, r_t);
    crate::simulator::lemma_amount_out_lt_reserve(x, r_s, r_t);
    let n1 = x * 997 * r_t;
    let d1 = r_s * 1000 + x * 997;
    vstd::arithmetic::div_mod::lemma_fundamental_div_mod(n1 as int, d1 as int);
    vstd::arithmetic::div_mod::lemma_mod_bound(n1 as int, d1 as int);
    assert(e * d1 <= n1) by (nonlinear_arith)
        requires
            n1 == e * d1 + (n1 as int % d1 as int),
            n1 as int % d1 as int >= 0,
    ;
    // the sell leg prices e against the updated reserves
    let n2 = e * 997 * (r_s + x);
    let d2 = (r_t - e) * 1000 + e * 997;
    assert(d2 == 1000 * r_t - 3 * e);
    assert(d2 > 0) by (nonlinear_arith)
        requires
            d2 == 1000 * r_t - 3 * e,
            e < r_t,
    ;
    // e*x <= x*r_t - 1 since e <= r_t - 1 and x >= 1
    assert(e * x + 1 <= x * r_t) by (nonlinear_arith)
        requires
            e + 1 <= r_t,
            x >= 1,
    ;
    // combine the buy-leg bound with the fee slack
    assert(n2 < x * d2) by (nonlinear_arith)
        requires
            n2 == e * 997 * (r_s + x),
            d2 == 1000 * r_t - 3 * e,
            e * d1 <= n1,
            n1 == x * 997 * r_t,
            d1 == r_s * 1000 + x * 997,
            e * x + 1 <= x * r_t,
            e >= 0,
            r_s >= 1,
            x >= 1,
            r_t >= 1,
    ;
    vstd::arithmetic::div_mod::lemma_multiply_divide_lt(n2 as int, d2 as int, x as int);
}

/// Measuring the claimed-versus-delivered shortfall of a token that
/// burns `p` basis points recovers `p` to within one basis point, as
/// soon as the claim is at least one whole basis-point unit.
pub proof fn lemma_tax_rate_recovered(e: nat, p: nat)
    requires
        e >= 10000,
        p <= 10000,
    ensures
        ({
            let a = (e - tax_amount_spec(e, p)) as nat;
            let m = tax_rate_bps_spec(e, a);
            m <= p && m + 1 >= p
        }),
{
    let t = tax_amount_spec(e, p);
    lemma_tax_le(e, p);
    let a = (e - t) as nat;
    assert(e - a == t);
    vstd::arithmetic::div_mod::lemma_fundamental_div_mod((e * p) as int, 10000);
    vstd::arithmetic::div_mod::lemma_mod_bound((e * p) as int, 10000);
    let m = tax_rate_bps_spec(e, a);
    // upper bound: t * 10000 <= e * p, so m = t*10000/e <= p
    assert(t * 10000 <= e * p) by (nonlinear_arith)
        requires
            e * p == t * 10000 + ((e * p) as int % 10000),
            (e * p) as int % 10000 >= 0,
    ;
    assert(m <= p) by {
        assert(t * 10000 <= e * p);
        vstd::arithmetic::div_mod::lemma_div_is_ordered(
            (t * 10000) as int,
            (e * p) as int,
            e as int,
        );
        vstd::arithmetic::div_mod::lemma_div_multiples_vanish(p as int, e as int);
        assert((e * p) as int / e as int == p);
    }
    // lower bound: t * 10000 >= e*p - 9999 >= (p-1)*e since e >= 10000
    assert(t * 10000 + 10000 > e * p) by (nonlinear_arith)
        requires
            e * p == t * 10000 + ((e * p) as int % 10000),
            (e * p) as int % 10000 < 10000,
    ;
    if p >= 1 {
        assert(t * 10000 >= (p - 1) * e) by (nonlinear_arith)
            requires
                t * 10000 + 10000 > e * p,
                e >= 10000,
                p >= 1,
        ;
        assert(m >= p - 1) by {
            vstd::arithmetic::div_mod::lemma_div_multiples_vanish((p - 1) as int, e as int);
            vstd::arithmetic::div_mod::lemma_div_is_ordered(
                ((p - 1) * e) as int,
                (t * 10000) as int,
                e as int,
            );
            assert(((p - 1) * e) as int / e as int == p - 1);
        }
    }
}

/// Three hops whose pools quote equal implied prices (the reserve
/// products match) cannot return more than went in: the walk pays three
/// fees and the cycle offers no edge.
pub proof fn lemma_cycle_no_profit(
    x: nat,
    r_in1: nat,
    r_out1: nat,
    r_in2: nat,
    r_out2: nat,
    r_in3: nat,
    r_out3: nat,
)
    requires
        r_in1 >= 1,
        r_in2 >= 1,
        r_in3 >= 1,
        r_out1 * r_out2 * r_out3 == r_in1 * r_in2 * r_in3,
    ensures
        ({
            let out1 = amount_out_spec(x, r_in1, r_out1);
            let out2 = amount_out_spec(out1, r_in2, r_out2);
            let out3 = amount_out_spec(out2, r_in3, r_out3);
            out3 <= x
        }),
{
    let out1 = amount_out_spec(x, r_in1, r_out1);
    let out2 = amount_out_spec(out1, r_in2, r_out2);
    let out3 = amount_out_spec(out2, r_in3, r_out3);
    lemma_hop_spot_bound(x, r_in1, r_out1);
    lemma_hop_spot_bound(out1, r_in2, r_out2);
    lemma_hop_spot_bound(out2, r_in3, r_out3);
    let p = r_in1 * r_in2 * r_in3;
    assert(1000 * 1000 * out2 * r_in2 * r_in1 <= 997 * 997 * x * r_out1 * r_out2)
        by (nonlinear_arith)
        requires
            1000 * out2 * r_in2 <= 997 * out1 * r_out2,
            1000 * out1 * r_in1 <= 997 * x * r_out1,
            out1 >= 0,
            out2 >= 0,
            r_in1 >= 1,
            r_in2 >= 1,
            r_out1 >= 0,
            r_out2 >= 0,
            x >= 0,
    ;
    let c = 1000 * 1000 * r_in2 * r_in1;
    vstd::arithmetic::mul::lemma_mul_inequality(
        (1000 * out3 * r_in3) as int,
        (997 * out2 * r_out3) as int,
        c as int,
    );
    let lhs3 = 1000 * 1000 * 1000 * (out3 * r_in3 * r_in2 * r_in1);
    assert((1000 * out3 * r_in3) * c == lhs3) by (nonlinear_arith)
        requires
            c == 1000 * 1000 * r_in2 * r_in1,
            lhs3 == 1000 * 1000 * 1000 * (out3 * r_in3 * r_in2 * r_in1),
    ;
    assert((997 * out2 * r_out3) * c == 997 * r_out3 * (1000 * 1000 * out2 * r_in2 * r_in1))
        by (nonlinear_arith)
        requires
            c == 1000 * 1000 * r_in2 * r_in1,
    ;
    vstd::arithmetic::mul::lemma_mul_inequality(
        (1000 * 1000 * out2 * r_in2 * r_in1) as int,
        (997 * 997 * x * r_out1 * r_out2) as int,
        (997 * r_out3) as int,
    );
    let rhs3 = 997 * 997 * 997 * (x * (r_out1 * r_out2 * r_out3));
    assert(997 * r_out3 * (997 * 997 * x * r_out1 * r_out2) == rhs3) by (nonlinear_arith)
        requires
            rhs3 == 997 * 997 * 997 * (x * (r_out1 * r_out2 * r_out3)),
    ;
    assert(lhs3 <= rhs3) by (nonlinear_arith)
        requires
            (1000 * out3 * r_in3) * c == lhs3,
            (997 * out2 * r_out3) * c == 997 * r_out3 * (1000 * 1000 * out2 * r_in2 * r_in1),
            (1000 * out3 * r_in3) * c <= (997 * out2 * r_out3) * c,
            997 * r_out3 * (1000 * 1000 * out2 * r_in2 * r_in1) <= 997 * r_out3 * (997 * 997 * x
                * r_out1 * r_out2),
            997 * r_out3 * (997 * 997 * x * r_out1 * r_out2) == rhs3,
    ;
    let prod = r_in1 * r_in2 * r_in3;
    assert(prod >= 1) by (nonlinear_arith)
        requires
            prod == r_in1 * r_in2 * r_in3,
            r_in1 >= 1,
            r_in2 >= 1,
            r_in3 >= 1,
    ;
    assert(out3 * r_in3 * r_in2 * r_in1 == out3 * prod) by (nonlinear_arith)
        requires
            prod == r_in1 * r_in2 * r_in3,
    ;
    assert(x * (r_out1 * r_out2 * r_out3) == x * prod) by (nonlinear_arith)
        requires
            r_out1 * r_out2 * r_out3 == r_in1 * r_in2 * r_in3,
            prod == r_in1 * r_in2 * r_in3,
    ;
    assert(out3 <= x) by (nonlinear_arith)
        requires
            1000 * 1000 * 1000 * (out3 * prod) <= 997 * 997 * 997 * (x * prod),
            prod >= 1,
            out3 >= 0,
            x >= 0,
    ;
}

/// The EIP-1559 base-fee update with elasticity 2 and change denominator 8.
pub open spec fn next_base_fee_spec(gas_used: nat, gas_limit: nat, base_fee: nat) -> nat
    recommends
        gas_limit >= 2,
{
    let gas_target = gas_limit / 2;
    if gas_used == gas_target {
        base_fee
    } else if gas_used > gas_target {
        let delta = (base_fee * ((gas_used - gas_target) as nat)) / gas_target / 8;
        base_fee + if delta < 1 {
            1nat
        } else {
            delta
        }
    } else {
        let delta = (base_fee * ((gas_target - gas_used) as nat)) / gas_target / 8;
        (base_fee - if delta <= base_fee {
            delta
        } else {
            base_fee
        }) as nat
    }
}

/// Next-block base fee from the parent block's gas accounting.
pub fn calculate_next_block_base_fee(gas_used: u64, gas_limit: u64, base_fee: u64) -> (r: u64)
    requires
        gas_limit >= 2,
        gas_used <= gas_limit,
        base_fee <= u64::MAX / 2,
    ensures
        r == next_base_fee_spec(gas_used as nat, gas_limit as nat, base_fee as nat),
{
    let gas_target: u64 = gas_limit / 2;
    if gas_used == gas_target {
        base_fee
    } else if gas_used > gas_target {
        let delta: u64 = gas_used - gas_target;
        proof {
            assert(base_fee as int * delta as int <= u128::MAX) by (nonlinear_arith)
                requires
                    base_fee <= 0x7fff_ffff_ffff_ffff,
                    delta <= 0xffff_ffff_ffff_ffff,
            ;
        }
        let wide: u128 = (base_fee as u128) * (delta as u128);
        let q: u128 = (wide / (gas_target as u128)) / 8;
        proof {
            assert((base_fee as int * delta as int) / gas_target as int / 8 <= base_fee as int)
                by (nonlinear_arith)
                requires
                    gas_target >= 1,
                    delta <= 2 * gas_target,
                    base_fee >= 0,
            ;
        }
        let mut fee_delta: u64 = q as u64;
        if fee_delta < 1 {
            fee_delta = 1;
        }
        base_fee + fee_delta
    } else {
        let delta: u64 = gas_target - gas_used;
        proof {
            assert(base_fee as int * delta as int <= u128::MAX) by (nonlinear_arith)
                requires
                    base_fee <= 0x7fff_ffff_ffff_ffff,
                    delta <= 0xffff_ffff_ffff_ffff,
            ;
        }
        let wide: u128 = (base_fee as u128) * (delta as u128);
        let q: u128 = (wide / (gas_target as u128)) / 8;
        proof {
            assert((base_fee as int * delta as int) / gas_target as int / 8 <= base_fee as int)
                by (nonlinear_arith)
                requires
                    gas_target >= 1,
                    delta <= 2 * gas_target,
                    base_fee >= 0,
            ;
        }
        let fee_delta: u64 = q as u64;
        base_fee - fee_delta
    }
}

} // verus!
