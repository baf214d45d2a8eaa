//! Numbers as the evaluation carries them: binary64 bit patterns.
//!
//! The crate never computes with these numbers. It only reads what its
//! decisions depend on -- sign, zero, whether the number is a whole one --
//! straight from the bits, and flips the sign bit to negate.

use vstd::arithmetic::div_mod::{lemma_fundamental_div_mod, lemma_small_mod};
use vstd::arithmetic::power2::{lemma2_to64, lemma2_to64_rest, lemma_pow2_strictly_increases, pow2};
use vstd::bits::{lemma_u64_shl_is_mul, lemma_u64_shr_is_div};
use vstd::prelude::*;

verus! {

/// The bits of the binary64 number nearest to pi.
pub const PI_BITS: u64 = 0x4009_21fb_5444_2d18;

/// The bits of the binary64 number nearest to Euler's number.
pub const E_BITS: u64 = 0x4005_bf0a_8b14_5769;

/// A binary64 number, held as its 64 bits: from the top, one sign bit, eleven
/// bits of exponent, 52 bits of fraction.
///
/// `==` compares the bits: it tells the two zeros apart, and a NaN equals
/// itself.
#[derive(Debug, Clone, Copy, PartialEq, Eq, Structural)]
pub struct Value {
    pub bits: u64,
}

impl Value {
    /// The sign bit: set for numbers below zero and for the negative zero.
    pub open spec fn sign(self) -> bool {
        self.bits >= 0x8000_0000_0000_0000
    }

    /// The exponent as it is stored, from 0 to 2047.
    pub open spec fn exponent_field(self) -> nat {
        ((self.bits / 0x10_0000_0000_0000) % 0x800) as nat
    }

    /// The 52 stored bits of the significand.
    pub open spec fn fraction_field(self) -> nat {
        (self.bits % 0x10_0000_0000_0000) as nat
    }

    /// Not a number.
    pub open spec fn is_nan(self) -> bool {
        self.exponent_field() == 2047 && self.fraction_field() != 0
    }

    /// Neither an infinity nor a NaN.
    pub open spec fn is_finite(self) -> bool {
        self.exponent_field() != 2047
    }

    /// One of the two zeros.
    pub open spec fn is_zero(self) -> bool {
        self.exponent_field() == 0 && self.fraction_field() == 0
    }

    /// Strictly below zero. No NaN is, whatever its sign bit.
    pub open spec fn is_negative(self) -> bool {
        self.sign() && !self.is_nan() && !self.is_zero()
    }

    /// For a finite number, the integer `m` of its magnitude `m * 2^exponent()`.
    pub open spec fn significand(self) -> nat {
        if self.exponent_field() == 0 {
            self.fraction_field()
        } else {
            0x10_0000_0000_0000 + self.fraction_field()
        }
    }

    /// For a finite number, the power of two that scales `significand()`.
    pub open spec fn exponent(self) -> int {
        if self.exponent_field() == 0 {
            -1074
        } else {
            self.exponent_field() - 1075
        }
    }

    /// The number is finite and its magnitude an integer.
    pub open spec fn is_whole(self) -> bool {
        self.is_finite() && (self.exponent() >= 0 || self.significand() % pow2(
            (-self.exponent()) as nat,
        ) == 0)
    }

    /// For a whole number, its magnitude.
    pub open spec fn magnitude(self) -> nat {
        if self.exponent() >= 0 {
            self.significand() * pow2(self.exponent() as nat)
        } else {
            self.significand() / pow2((-self.exponent()) as nat)
        }
    }

    /// The number as a count: defined for the whole numbers that are not
    /// below zero, and capped at the largest `u64`.
    pub open spec fn count(self) -> Option<u64> {
        if self.is_zero() {
            Some(0)
        } else if self.sign() || !self.is_whole() {
            None
        } else if self.magnitude() <= u64::MAX {
            Some(self.magnitude() as u64)
        } else {
            Some(u64::MAX)
        }
    }

    /// The same number with the opposite sign bit.
    pub open spec fn negation(self) -> Value {
        if self.sign() {
            Value { bits: (self.bits - 0x8000_0000_0000_0000) as u64 }
        } else {
            Value { bits: (self.bits + 0x8000_0000_0000_0000) as u64 }
        }
    }

    /// Whether the number compares equal to zero.
    pub fn equals_zero(self) -> (b: bool)
        ensures
            b == self.is_zero(),
    {
        let b = self.bits;
        let low = b & 0x7fff_ffff_ffff_ffff;
        assert(low == 0 <==> (b / 0x10_0000_0000_0000) % 0x800 == 0 && b % 0x10_0000_0000_0000 == 0)
            by (bit_vector)
            requires
                low == b & 0x7fff_ffff_ffff_ffff,
        ;
        low == 0
    }

    /// Whether the number compares below zero.
    pub fn below_zero(self) -> (b: bool)
        ensures
            b == self.is_negative(),
    {
        let b = self.bits;
        let low = b & 0x7fff_ffff_ffff_ffff;
        assert(low == 0 <==> (b / 0x10_0000_0000_0000) % 0x800 == 0 && b % 0x10_0000_0000_0000 == 0)
            by (bit_vector)
            requires
                low == b & 0x7fff_ffff_ffff_ffff,
        ;
        assert(low > 0x7ff0_0000_0000_0000 <==> (b / 0x10_0000_0000_0000) % 0x800 == 2047 && b
            % 0x10_0000_0000_0000 != 0) by (bit_vector)
            requires
                low == b & 0x7fff_ffff_ffff_ffff,
        ;
        b >= 0x8000_0000_0000_0000 && low != 0 && low <= 0x7ff0_0000_0000_0000
    }

    /// Flips the sign.
    pub fn negate(self) -> (r: Value)
        ensures
            r == self.negation(),
    {
        let b = self.bits;
        let flipped = b ^ 0x8000_0000_0000_0000;
        assert(b >= 0x8000_0000_0000_0000 ==> flipped == b - 0x8000_0000_0000_0000) by (bit_vector)
            requires
                flipped == b ^ 0x8000_0000_0000_0000,
        ;
        assert(b < 0x8000_0000_0000_0000 ==> flipped == b + 0x8000_0000_0000_0000) by (bit_vector)
            requires
                flipped == b ^ 0x8000_0000_0000_0000,
        ;
        Value { bits: flipped }
    }

    /// Reads the number as a count, where it is one.
    pub fn to_count(self) -> (r: Option<u64>)
        ensures
            r == self.count(),
    {
        let b = self.bits;
        let e: u64 = (b >> 52) & 0x7ff;
        let f: u64 = b & 0xf_ffff_ffff_ffff;
        assert(e == (b / 0x10_0000_0000_0000) % 0x800 && e <= 2047) by (bit_vector)
            requires
                e == (b >> 52) & 0x7ff,
        ;
        assert(f == b % 0x10_0000_0000_0000 && f < 0x10_0000_0000_0000) by (bit_vector)
            requires
                f == b & 0xf_ffff_ffff_ffff,
        ;
        proof {
            lemma2_to64();
            lemma2_to64_rest();
        }
        if e == 0 {
            if f == 0 {
                Some(0)
            } else {
                proof {
                    lemma_pow2_strictly_increases(52, 1074);
                    lemma_small_mod(f as nat, pow2(1074));
                }
                None
            }
        } else if e == 2047 || b >= 0x8000_0000_0000_0000 {
            None
        } else {
            let m: u64 = f + 0x10_0000_0000_0000;
            if e >= 1075 {
                let shift: u64 = e - 1075;
                if shift <= 11 {
                    proof {
                        if shift < 11 {
                            lemma_pow2_strictly_increases(shift as nat, 11);
                        }
                        assert(m * pow2(shift as nat) <= u64::MAX) by (nonlinear_arith)
                            requires
                                m < 0x20_0000_0000_0000,
                                pow2(shift as nat) <= 2048,
                        ;
                        lemma_u64_shl_is_mul(m, shift);
                    }
                    Some(m << shift)
                } else {
                    proof {
                        if shift > 12 {
                            lemma_pow2_strictly_increases(12, shift as nat);
                        }
                        assert(m * pow2(shift as nat) > u64::MAX) by (nonlinear_arith)
                            requires
                                m >= 0x10_0000_0000_0000,
                                pow2(shift as nat) >= 4096,
                        ;
                    }
                    Some(u64::MAX)
                }
            } else {
                let s: u64 = 1075 - e;
                if s >= 53 {
                    proof {
                        if s > 53 {
                            lemma_pow2_strictly_increases(53, s as nat);
                        }
                        lemma_small_mod(m as nat, pow2(s as nat));
                    }
                    None
                } else {
                    let q: u64 = m >> s;
                    proof {
                        let p = pow2(s as nat);
                        lemma_u64_shr_is_div(m, s);
                        lemma_fundamental_div_mod(m as int, p as int);
                        assert(p * q <= m) by (nonlinear_arith)
                            requires
                                m == p * q + (m as int) % (p as int),
                                0 <= (m as int) % (p as int),
                        ;
                        assert(q * p == p * q) by (nonlinear_arith);
                        lemma_u64_shl_is_mul(q, s);
                    }
                    if (q << s) == m {
                        Some(q)
                    } else {
                        None
                    }
                }
            }
        }
    }
}

} // verus!
