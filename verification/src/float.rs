//! Double-precision numbers, held by their bit pattern.

use vstd::arithmetic::power2::{lemma2_to64, lemma_pow2_adds, lemma_pow2_pos, pow2};
use vstd::bits::{lemma_u64_shl_is_mul, lemma_u64_shr_is_div};
use vstd::prelude::*;

verus! {

/// Weight of the lowest bit of the exponent field.
pub const FRACTION_RANGE: u64 = 0x10_0000_0000_0000;

/// Number of values of the exponent field.
pub const EXPONENT_RANGE: u64 = 0x800;

/// Weight of the sign bit.
pub const SIGN_WEIGHT: u64 = 0x8000_0000_0000_0000;

/// What the exponent field of a number exceeds the scale of its significand by.
pub const SCALE_OFFSET: u64 = 1075;

/// `x`, or the end of `low ..= high` that is nearest to it.
pub open spec fn clamped(x: int, low: int, high: int) -> int {
    if x < low {
        low
    } else if x > high {
        high
    } else {
        x
    }
}

/// An IEEE 754 binary64 number, by its bits: a sign bit, eleven bits of
/// exponent and fifty-two of fraction, from the top down.
#[derive(Clone, Copy, Debug, PartialEq, Eq, Hash, Structural)]
pub struct Float {
    pub bits: u64,
}

impl Float {
    pub open spec fn fraction(self) -> int {
        (self.bits % FRACTION_RANGE) as int
    }

    pub open spec fn exponent(self) -> int {
        (self.bits / FRACTION_RANGE % EXPONENT_RANGE) as int
    }

    /// The sign bit is set.
    pub open spec fn is_negative(self) -> bool {
        self.bits >= SIGN_WEIGHT
    }

    pub open spec fn is_nan(self) -> bool {
        self.exponent() == EXPONENT_RANGE - 1 && self.fraction() != 0
    }

    pub open spec fn is_infinite(self) -> bool {
        self.exponent() == EXPONENT_RANGE - 1 && self.fraction() == 0
    }

    /// The significand as a whole number: with the hidden bit, unless the
    /// number is subnormal.
    pub open spec fn significand(self) -> int {
        if self.exponent() == 0 {
            self.fraction()
        } else {
            self.fraction() + FRACTION_RANGE
        }
    }

    /// The power of two by which the significand is scaled.
    pub open spec fn scale(self) -> int {
        if self.exponent() == 0 {
            1 - SCALE_OFFSET
        } else {
            self.exponent() - SCALE_OFFSET
        }
    }

    /// The absolute value of a finite number, without its fractional part.
    pub open spec fn whole_magnitude(self) -> int {
        if self.scale() >= 0 {
            self.significand() * pow2(self.scale() as nat)
        } else {
            self.significand() / pow2((-self.scale()) as nat) as int
        }
    }

    /// A finite number, rounded toward zero.
    pub open spec fn truncated(self) -> int {
        if self.is_negative() {
            -self.whole_magnitude()
        } else {
            self.whole_magnitude()
        }
    }

    /// The whole number in `low ..= high` that stands for this one: rounded
    /// toward zero, moved to the nearest end where it lies outside, and zero
    /// where it is not a number.
    pub open spec fn saturated(self, low: int, high: int) -> int {
        if self.is_nan() {
            0
        } else if self.is_infinite() {
            if self.is_negative() {
                low
            } else {
                high
            }
        } else {
            clamped(self.truncated(), low, high)
        }
    }

    /// The whole part of the absolute value of a finite number, where it fits.
    fn magnitude(self) -> (r: Option<u64>)
        requires
            !self.is_nan(),
            !self.is_infinite(),
        ensures
            match r {
                Some(v) => v == self.whole_magnitude(),
                None => self.whole_magnitude() > u64::MAX,
            },
    {
        let fraction: u64 = self.bits % FRACTION_RANGE;
        let exponent: u64 = self.bits / FRACTION_RANGE % EXPONENT_RANGE;
        let significand: u64 = if exponent == 0 {
            fraction
        } else {
            fraction + FRACTION_RANGE
        };
        let raised: u64 = if exponent == 0 {
            1
        } else {
            exponent
        };
        proof {
            lemma2_to64();
        }
        if raised >= SCALE_OFFSET {
            let shift: u64 = raised - SCALE_OFFSET;
            if shift > 11 {
                proof {
                    lemma_pow2_adds(12, (shift - 12) as nat);
                    lemma_pow2_pos((shift - 12) as nat);
                    let rest: int = pow2((shift - 12) as nat) as int;
                    let full: int = pow2(shift as nat) as int;
                    let s: int = significand as int;
                    assert(full == 0x1000 * rest);
                    assert(s * full > u64::MAX) by (nonlinear_arith)
                        requires
                            full == 0x1000 * rest,
                            rest >= 1,
                            s >= 0x10_0000_0000_0000,
                    ;
                }
                None
            } else {
                proof {
                    let full: int = pow2(shift as nat) as int;
                    let s: int = significand as int;
                    assert(full <= 0x800);
                    assert(s * full <= u64::MAX) by (nonlinear_arith)
                        requires
                            0 <= full <= 0x800,
                            0 <= s < 0x20_0000_0000_0000,
                    ;
                    lemma_u64_shl_is_mul(significand, shift);
                }
                Some(significand << shift)
            }
        } else {
            let shift: u64 = SCALE_OFFSET - raised;
            if shift >= 64 {
                proof {
                    lemma_pow2_adds(64, (shift - 64) as nat);
                    lemma_pow2_pos((shift - 64) as nat);
                    let rest: int = pow2((shift - 64) as nat) as int;
                    let full: int = pow2(shift as nat) as int;
                    let s: int = significand as int;
                    assert(s / full == 0) by (nonlinear_arith)
                        requires
                            full == 0x1_0000_0000_0000_0000 * rest,
                            rest >= 1,
                            0 <= s < 0x20_0000_0000_0000,
                    ;
                }
                Some(0)
            } else {
                proof {
                    lemma_u64_shr_is_div(significand, shift);
                }
                Some(significand >> shift)
            }
        }
    }

    /// The `u64` that stands for the number: below zero it is zero.
    pub fn to_u64(self) -> (r: u64)
        ensures
            r == self.saturated(0, u64::MAX as int),
    {
        let fraction: u64 = self.bits % FRACTION_RANGE;
        let exponent: u64 = self.bits / FRACTION_RANGE % EXPONENT_RANGE;
        let negative = self.bits >= SIGN_WEIGHT;
        if exponent == EXPONENT_RANGE - 1 {
            if fraction == 0 && !negative {
                u64::MAX
            } else {
                0
            }
        } else {
            match self.magnitude() {
                Some(v) => {
                    if negative {
                        0
                    } else {
                        v
                    }
                },
                None => {
                    if negative {
                        0
                    } else {
                        u64::MAX
                    }
                },
            }
        }
    }

    /// The `i64` that stands for the number.
    pub fn to_i64(self) -> (r: i64)
        ensures
            r == self.saturated(i64::MIN as int, i64::MAX as int),
    {
        let fraction: u64 = self.bits % FRACTION_RANGE;
        let exponent: u64 = self.bits / FRACTION_RANGE % EXPONENT_RANGE;
        let negative = self.bits >= SIGN_WEIGHT;
        if exponent == EXPONENT_RANGE - 1 {
            if fraction != 0 {
                0
            } else if negative {
                i64::MIN
            } else {
                i64::MAX
            }
        } else {
            match self.magnitude() {
                Some(v) if v <= i64::MAX as u64 => {
                    if negative {
                        -(v as i64)
                    } else {
                        v as i64
                    }
                },
                _ => {
                    if negative {
                        i64::MIN
                    } else {
                        i64::MAX
                    }
                },
            }
        }
    }
}

} // verus!
