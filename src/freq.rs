use vstd::prelude::*;
use vstd::arithmetic::div_mod::{
    lemma_add_mod_noop,
    lemma_div_by_multiple,
    lemma_div_denominator,
    lemma_fundamental_div_mod,
    lemma_fundamental_div_mod_converse_div,
    lemma_mod_pos_bound,
    lemma_mod_breakdown,
    lemma_mul_mod_noop_right,
    lemma_small_mod,
};
use vstd::arithmetic::power2::{
    lemma2_to64,
    lemma_pow2_adds,
    lemma_pow2_pos,
    lemma_pow2_strictly_increases,
};
use vstd::arithmetic::power2::pow2;
use vstd::bits::lemma_u64_shl_is_mul;

verus! {

/// Frequency of the oscillator's reference clock, in hertz.
pub const NCO_CLOCK_HZ: u64 = 16_000_000;

/// The biased exponent field of an IEEE-754 single-precision bit pattern.
pub open spec fn exponent_field(b: u32) -> u32 {
    (b >> 23) & 0xff
}

/// The fraction field of an IEEE-754 single-precision bit pattern.
pub open spec fn fraction_field(b: u32) -> u32 {
    b & 0x7f_ffff
}

/// The sign bit of an IEEE-754 single-precision bit pattern.
pub open spec fn sign_field(b: u32) -> u32 {
    b >> 31
}

/// The integer significand `m` of a finite single-precision value, which is
/// `m * 2^scale(b) / 2^150` in magnitude.
pub open spec fn significand(b: u32) -> nat {
    if exponent_field(b) == 0 {
        fraction_field(b) as nat
    } else {
        (fraction_field(b) + 0x80_0000) as nat
    }
}

/// The power of two that scales `significand(b)`: the magnitude of a finite
/// single-precision value is `significand(b) * 2^scale(b) / 2^150`.
pub open spec fn scale(b: u32) -> nat {
    if exponent_field(b) == 0 {
        1
    } else {
        exponent_field(b) as nat
    }
}

/// A frequency that the oscillator can be asked for: finite and not below
/// zero (negative zero is zero).
pub open spec fn is_valid_frequency(b: u32) -> bool {
    exponent_field(b) != 0xff && (sign_field(b) == 0 || significand(b) == 0)
}

/// `n / d` rounded to the nearest integer, halves away from zero.
pub open spec fn round_div(n: nat, d: nat) -> nat
    recommends
        d > 0,
{
    ((2 * n + d) / (2 * d)) as nat
}

/// The phase-step word for a frequency with bit pattern `b`:
/// `round(2^32 * f / NCO_CLOCK_HZ)`, wrapped into 32 bits, with `f` taken
/// exactly as the rational number `significand(b) * 2^scale(b) / 2^150`.
pub open spec fn phase_step_of(b: u32) -> nat {
    round_div(significand(b) * pow2(scale(b)) * pow2(32), pow2(150) * (NCO_CLOCK_HZ as nat)) % pow2(32)
}

/// A requested output frequency in hertz, held as the bit pattern of a
/// single-precision floating-point number.
#[derive(Clone, Copy, Debug, PartialEq, Eq, Structural)]
pub struct Frequency {
    bits: u32,
}

impl Frequency {
    /// The bit pattern of the frequency.
    pub closed spec fn view(&self) -> u32 {
        self.bits
    }

    /// The frequency whose single-precision bit pattern is `bits`.
    pub fn from_bits(bits: u32) -> (r: Frequency)
        ensures
            r@ == bits,
    {
        Frequency { bits }
    }

    /// The single-precision bit pattern of the frequency.
    pub fn to_bits(&self) -> (r: u32)
        ensures
            r == self@,
    {
        self.bits
    }

    /// Whether the oscillator can be asked for this frequency.
    pub fn is_valid(&self) -> (r: bool)
        ensures
            r == is_valid_frequency(self@),
    {
        let e: u32 = (self.bits >> 23) & 0xff;
        let f: u32 = self.bits & 0x7f_ffff;
        e != 0xff && (self.bits >> 31 == 0 || (e == 0 && f == 0))
    }
}

/// `(c * a) / (c * b) == a / b`.
proof fn lemma_div_cancel(a: int, b: int, c: int)
    requires
        a >= 0,
        b > 0,
        c > 0,
    ensures
        (c * a) / (c * b) == a / b,
{
    lemma_div_denominator(c * a, c, b);
    lemma_div_by_multiple(a, c);
    assert(c * a == a * c) by (nonlinear_arith);
}

/// Reducing the dividend modulo `d * m` before dividing by `d` gives the
/// quotient modulo `m`.
proof fn lemma_div_of_mod(x: int, d: int, m: int)
    requires
        x >= 0,
        d > 0,
        m > 0,
    ensures
        (x % (d * m)) / d == (x / d) % m,
{
    lemma_mod_breakdown(x, d, m);
    lemma_fundamental_div_mod(x, d);
    lemma_mod_pos_bound(x, d);
    assert(d * ((x / d) % m) == ((x / d) % m) * d) by (nonlinear_arith);
    lemma_fundamental_div_mod_converse_div(x % (d * m), d, (x / d) % m, x % d);
}

/// The rounded quotient for a frequency whose scale is at least 128, in
/// terms of a dividend that fits after reduction modulo `31250 * 2^32`.
proof fn lemma_round_high(sig: nat, sc: nat)
    requires
        sc >= 128,
    ensures
        round_div(sig * pow2(sc) * pow2(32), pow2(150) * (NCO_CLOCK_HZ as nat)) == (sig * pow2(
            (sc - 127) as nat,
        ) + 15625) / 31250,
{
    let t = (sc - 127) as nat;
    let n = sig * pow2(sc) * pow2(32);
    let d = pow2(150) * (NCO_CLOCK_HZ as nat);
    let p = pow2(160);
    lemma2_to64();
    lemma_pow2_adds(150, 10);
    lemma_pow2_adds(sc, 32);
    lemma_pow2_adds(sc + 32, 1);
    lemma_pow2_adds(160, t);
    lemma_pow2_pos(160);
    assert(d == p * 15625) by (nonlinear_arith)
        requires
            d == pow2(150) * 16_000_000,
            p == pow2(150) * pow2(10),
            pow2(10) == 1024,
    ;
    assert(2 * n == p * (sig * pow2(t))) by (nonlinear_arith)
        requires
            n == sig * pow2(sc) * pow2(32),
            pow2(sc + 32) == pow2(sc) * pow2(32),
            pow2(sc + 32 + 1) == pow2(sc + 32) * pow2(1),
            pow2(1) == 2,
            sc + 32 + 1 == 160 + t,
            pow2(160 + t) == p * pow2(t),
    ;
    assert(2 * n + d == p * (sig * pow2(t) + 15625)) by (nonlinear_arith)
        requires
            2 * n == p * (sig * pow2(t)),
            d == p * 15625,
    ;
    assert(2 * d == p * 31250) by (nonlinear_arith)
        requires
            d == p * 15625,
    ;
    lemma_div_cancel((sig * pow2(t) + 15625) as int, 31250, p as int);
}

/// The rounded quotient for a frequency whose scale is below 128, with
/// `k = 128 - scale`.
proof fn lemma_round_low(sig: nat, sc: nat)
    requires
        1 <= sc < 128,
    ensures
        round_div(sig * pow2(sc) * pow2(32), pow2(150) * (NCO_CLOCK_HZ as nat)) == (2 * sig + 15625
            * pow2((128 - sc) as nat)) / (31250 * pow2((128 - sc) as nat)),
{
    let k = (128 - sc) as nat;
    let n = sig * pow2(sc) * pow2(32);
    let d = pow2(150) * (NCO_CLOCK_HZ as nat);
    let q = pow2(sc + 32);
    lemma2_to64();
    lemma_pow2_adds(150, 10);
    lemma_pow2_adds(sc, 32);
    lemma_pow2_adds(sc + 32, k);
    lemma_pow2_pos(sc + 32);
    lemma_pow2_pos(k);
    assert(d == q * pow2(k) * 15625) by (nonlinear_arith)
        requires
            d == pow2(150) * 16_000_000,
            pow2(160) == pow2(150) * pow2(10),
            pow2(10) == 1024,
            sc + 32 + k == 160,
            pow2(sc + 32 + k) == q * pow2(k),
    ;
    assert(2 * n == q * (2 * sig)) by (nonlinear_arith)
        requires
            n == sig * pow2(sc) * pow2(32),
            q == pow2(sc) * pow2(32),
    ;
    assert(2 * n + d == q * (2 * sig + 15625 * pow2(k))) by (nonlinear_arith)
        requires
            2 * n == q * (2 * sig),
            d == q * pow2(k) * 15625,
    ;
    assert(2 * d == q * (31250 * pow2(k))) by (nonlinear_arith)
        requires
            d == q * pow2(k) * 15625,
    ;
    lemma_div_cancel((2 * sig + 15625 * pow2(k)) as int, (31250 * pow2(k)) as int, q as int);
}

/// The phase-step word for `freq`: `round(2^32 * freq / NCO_CLOCK_HZ)`,
/// halves rounded away from zero, wrapped into 32 bits.
pub fn phase_step(freq: Frequency) -> (r: u32)
    requires
        is_valid_frequency(freq@),
    ensures
        r as nat == phase_step_of(freq@),
{
    let b = freq.bits;
    let e: u32 = (b >> 23) & 0xff;
    let f: u32 = b & 0x7f_ffff;
    assert(f < 0x80_0000) by (bit_vector)
        requires
            f == b & 0x7f_ffff,
    ;
    let sig: u64 = if e == 0 {
        f as u64
    } else {
        f as u64 + 0x80_0000
    };
    let sc: u32 = if e == 0 {
        1
    } else {
        e
    };
    assert(e <= 0xff) by (bit_vector)
        requires
            e == (b >> 23) & 0xff,
    ;
    assert(sig == significand(b) && sc == scale(b));
    let ghost wrap = pow2(32);
    proof {
        lemma2_to64();
    }
    if sc >= 128 {
        let modulus: u64 = 31250 * 4294967296;
        let steps: u32 = sc - 127;
        let mut v: u64 = sig;
        let mut i: u32 = 0;
        proof {
            lemma_small_mod(sig as nat, modulus as nat);
        }
        while i < steps
            invariant
                i <= steps,
                modulus == 31250 * 4294967296,
                v < modulus,
                v == (sig * pow2(i as nat)) % (modulus as int),
            decreases steps - i,
        {
            proof {
                lemma2_to64();
                lemma_mul_mod_noop_right(2, sig * pow2(i as nat), modulus as int);
                lemma_pow2_adds(i as nat, 1);
                assert(2 * (sig * pow2(i as nat)) == sig * pow2((i + 1) as nat)) by (nonlinear_arith)
                    requires
                        pow2(i as nat + 1) == pow2(i as nat) * pow2(1),
                        pow2(1) == 2,
                ;
            }
            v = (2 * v) % modulus;
            i = i + 1;
        }
        let x: u64 = (v + 15625) % modulus;
        let r: u64 = x / 31250;
        proof {
            let big = sig * pow2(steps as nat) + 15625;
            lemma_add_mod_noop(sig * pow2(steps as nat), 15625, modulus as int);
            lemma_small_mod(15625, modulus as nat);
            lemma_small_mod(v as nat, modulus as nat);
            assert(x == big % (31250 * (wrap as int)));
            lemma_div_of_mod(big, 31250, wrap as int);
            lemma_round_high(sig as nat, sc as nat);
        }
        r as u32
    } else {
        let k: u32 = 128 - sc;
        proof {
            lemma_round_low(sig as nat, sc as nat);
            lemma_pow2_pos(k as nat);
        }
        if k >= 12 {
            proof {
                if k > 12 {
                    lemma_pow2_strictly_increases(12, k as nat);
                }
                assert(2 * sig + 15625 * pow2(k as nat) < 31250 * pow2(k as nat)) by (nonlinear_arith)
                    requires
                        sig < 0x100_0000,
                        pow2(k as nat) >= 4096,
                ;
                assert((2 * sig + 15625 * (pow2(k as nat) as int)) / (31250 * (pow2(k as nat) as int)) == 0) by (nonlinear_arith)
                    requires
                        0 <= 2 * sig + 15625 * pow2(k as nat) < 31250 * pow2(k as nat),
                ;
                lemma_small_mod(0, wrap);
            }
            0
        } else {
            let p: u64 = 1u64 << k as u64;
            proof {
                if k < 11 {
                    lemma_pow2_strictly_increases(k as nat, 11);
                }
                lemma_u64_shl_is_mul(1, k as u64);
                assert(p == pow2(k as nat));
            }
            let r: u64 = (2 * sig + 15625 * p) / (31250 * p);
            proof {
                let num = 2 * sig + 15625 * p;
                let den = 31250 * p;
                assert(num < 1024 * den) by (nonlinear_arith)
                    requires
                        num == 2 * sig + 15625 * p,
                        den == 31250 * p,
                        sig < 0x100_0000,
                        2 <= p,
                ;
                assert(r < 1024) by (nonlinear_arith)
                    requires
                        r == num / den,
                        0 <= num < 1024 * den,
                        den > 0,
                ;
                lemma_small_mod(r as nat, wrap);
            }
            r as u32
        }
    }
}

} // verus!
