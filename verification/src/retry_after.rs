//! How long a rate-limited delivery waits: the value of the `Retry-After`
//! header, a binary64 floating-point number of milliseconds, rounded up to
//! whole milliseconds.
//!
//! The number is held by its 64 bits: one bit of sign, eleven bits of
//! exponent and 52 bits of fraction.

use vstd::prelude::*;
use vstd::arithmetic::div_mod::{
    lemma_basic_div, lemma_fundamental_div_mod, lemma_fundamental_div_mod_converse,
};
use vstd::arithmetic::power2::{
    lemma2_to64, lemma2_to64_rest, lemma_pow2_pos, lemma_pow2_strictly_increases,
    lemma_pow2_unfold, pow2,
};

verus! {

/// The bit of the sign.
pub const SIGN_BIT: u64 = 0x8000_0000_0000_0000;

/// Two to the power of 52: one more than the greatest fraction.
pub const FRACTION_SPAN: u64 = 0x10_0000_0000_0000;

/// The exponent of the infinities and of what is not a number.
pub const EXPONENT_MAX: u64 = 2047;

/// The exponent at which the fraction counts in units of one.
pub const EXPONENT_UNIT: u64 = 1075;

/// `n` divided by `d`, rounded up.
pub open spec fn ceil_div(n: int, d: int) -> int {
    (n + d - 1) / d
}

/// `ceil_div(n, d)` is the least whole number that, multiplied by `d`, is at
/// least `n`.
pub proof fn lemma_ceil_div_is_least(n: int, d: int)
    requires
        0 <= n,
        0 < d,
    ensures
        (ceil_div(n, d) - 1) * d < n <= ceil_div(n, d) * d,
{
    let x = n + d - 1;
    let q = x / d;
    lemma_fundamental_div_mod(x, d);
    assert(x == d * q + x % d);
    assert(0 <= x % d < d);
    assert((q - 1) * d == d * q - d) by (nonlinear_arith);
    assert(q * d == d * q) by (nonlinear_arith);
}

/// The value of a `Retry-After` header, held by the bits of the binary64
/// number that it was read as.
#[derive(Debug, Clone, Copy, PartialEq, Eq, Structural)]
pub struct RetryAfter {
    pub bits: u64,
}

impl RetryAfter {
    /// The bit of the sign is set.
    pub open spec fn negative(self) -> bool {
        self.bits >= SIGN_BIT
    }

    /// The eleven bits of the exponent.
    pub open spec fn exponent(self) -> int {
        (self.bits / FRACTION_SPAN) as int % 2048
    }

    /// The 52 bits of the fraction.
    pub open spec fn fraction(self) -> int {
        (self.bits % FRACTION_SPAN) as int
    }

    /// The bits stand for no number.
    pub open spec fn is_nan(self) -> bool {
        self.exponent() == EXPONENT_MAX && self.fraction() != 0
    }

    /// The bits stand for an infinity.
    pub open spec fn is_infinite(self) -> bool {
        self.exponent() == EXPONENT_MAX && self.fraction() == 0
    }

    /// The bits stand for zero, of either sign.
    pub open spec fn is_zero(self) -> bool {
        self.exponent() == 0 && self.fraction() == 0
    }

    /// A finite number is, but for its sign, `significand` times two to the
    /// power of `scale`.
    pub open spec fn significand(self) -> int {
        if self.exponent() == 0 {
            self.fraction()
        } else {
            FRACTION_SPAN + self.fraction()
        }
    }

    pub open spec fn scale(self) -> int {
        if self.exponent() == 0 {
            1 - EXPONENT_UNIT
        } else {
            self.exponent() - EXPONENT_UNIT
        }
    }

    /// The bits stand for a number that is not below zero.
    pub open spec fn usable(self) -> bool {
        !self.is_nan() && (!self.negative() || self.is_zero())
    }

    /// A finite number that is not below zero, rounded up to a whole
    /// number.
    pub open spec fn ceiling(self) -> int {
        if self.scale() >= 0 {
            self.significand() * pow2(self.scale() as nat)
        } else {
            ceil_div(self.significand(), pow2((-self.scale()) as nat) as int)
        }
    }

    /// The milliseconds to wait: the number rounded up, and `u64::MAX` in
    /// place of anything greater; `None` where the bits stand for no number
    /// or for one below zero.
    pub open spec fn delay_spec(self) -> Option<u64> {
        if !self.usable() {
            None
        } else if self.is_infinite() || self.ceiling() > u64::MAX {
            Some(u64::MAX)
        } else {
            Some(self.ceiling() as u64)
        }
    }

    /// The header's value from the bits of the number.
    pub fn from_bits(bits: u64) -> (value: Self)
        ensures
            value.bits == bits,
    {
        RetryAfter { bits }
    }

    /// The milliseconds to wait before the delivery is tried again, if the
    /// header is usable.
    pub fn delay_ms(self) -> (delay: Option<u64>)
        ensures
            delay == self.delay_spec(),
    {
        let negative = self.bits >= SIGN_BIT;
        let exponent = (self.bits / FRACTION_SPAN) % 2048;
        let fraction = self.bits % FRACTION_SPAN;
        proof {
            lemma2_to64();
            lemma2_to64_rest();
        }
        if exponent == EXPONENT_MAX {
            if fraction != 0 || negative {
                None
            } else {
                Some(u64::MAX)
            }
        } else if exponent == 0 {
            let ghost span = pow2(1074) as int;
            proof {
                lemma_pow2_strictly_increases(52, 1074);
            }
            if fraction == 0 {
                proof {
                    lemma_basic_div(span - 1, span);
                }
                Some(0)
            } else if negative {
                None
            } else {
                proof {
                    lemma_fundamental_div_mod_converse(
                        fraction as int + span - 1,
                        span,
                        1,
                        fraction as int - 1,
                    );
                }
                Some(1)
            }
        } else if negative {
            None
        } else {
            let significand = FRACTION_SPAN + fraction;
            if exponent >= EXPONENT_UNIT + 12 {
                proof {
                    let power = pow2((exponent - EXPONENT_UNIT) as nat) as int;
                    if exponent > EXPONENT_UNIT + 12 {
                        lemma_pow2_strictly_increases(12, (exponent - EXPONENT_UNIT) as nat);
                    }
                    assert(significand * power >= 0x10_0000_0000_0000 * 0x1000)
                        by (nonlinear_arith)
                        requires
                            significand >= 0x10_0000_0000_0000,
                            power >= 0x1000,
                    ;
                }
                Some(u64::MAX)
            } else if exponent >= EXPONENT_UNIT {
                let power = two_to(exponent - EXPONENT_UNIT);
                proof {
                    if exponent < EXPONENT_UNIT + 11 {
                        lemma_pow2_strictly_increases((exponent - EXPONENT_UNIT) as nat, 11);
                    }
                    assert(significand * power < 0x20_0000_0000_0000 * 0x800) by (nonlinear_arith)
                        requires
                            0 <= significand < 0x20_0000_0000_0000,
                            0 < power <= 0x800,
                    ;
                }
                Some(significand * power)
            } else {
                let shift = EXPONENT_UNIT - exponent;
                if shift >= 53 {
                    proof {
                        let span = pow2(shift as nat) as int;
                        if shift > 53 {
                            lemma_pow2_strictly_increases(53, shift as nat);
                        }
                        lemma_fundamental_div_mod_converse(
                            significand as int + span - 1,
                            span,
                            1,
                            significand as int - 1,
                        );
                    }
                    Some(1)
                } else {
                    let span = two_to(shift);
                    proof {
                        if shift < 52 {
                            lemma_pow2_strictly_increases(shift as nat, 52);
                        }
                    }
                    Some((significand + span - 1) / span)
                }
            }
        }
    }
}

/// Two to the power of `k`.
fn two_to(k: u64) -> (power: u64)
    requires
        k <= 52,
    ensures
        power == pow2(k as nat),
        power > 0,
{
    let mut power: u64 = 1;
    let mut i: u64 = 0;
    proof {
        lemma2_to64();
        lemma2_to64_rest();
    }
    while i < k
        invariant
            i <= k <= 52,
            power == pow2(i as nat),
            pow2(52) == 0x10_0000_0000_0000,
        decreases k - i,
    {
        proof {
            lemma_pow2_unfold((i + 1) as nat);
            if i + 1 < 52 {
                lemma_pow2_strictly_increases((i + 1) as nat, 52);
            }
        }
        power = power * 2;
        i += 1;
    }
    proof {
        lemma_pow2_pos(k as nat);
    }
    power
}

} // verus!
