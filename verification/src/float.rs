//! Single-precision numbers by their bit patterns. The editor passes them through; what it
//! decides from them it decides on the patterns.
use vstd::arithmetic::power2::pow2;
use vstd::prelude::*;

verus! {

/// A single-precision number, as the 32 bits that represent it: the sign, eight bits of
/// exponent, and twenty-three of fraction.
#[derive(Clone, Copy, Debug, PartialEq, Eq, Structural)]
pub struct FloatBits(pub u32);

/// The pattern of positive infinity, which follows those of all finite positive numbers.
pub const INFINITY_BITS: u32 = 0x7f80_0000;

/// The pattern of `1`.
pub const ONE_BITS: u32 = 0x3f80_0000;

/// The pattern of `2^23`: from here on every number is whole.
pub const WHOLE_BITS: u32 = 0x4b00_0000;

impl FloatBits {
    /// The pattern without its sign.
    pub open spec fn magnitude(self) -> u32 {
        self.0 % 0x8000_0000
    }

    pub open spec fn is_negative(self) -> bool {
        self.0 >= 0x8000_0000
    }

    /// The pattern stands for no number.
    pub open spec fn is_nan(self) -> bool {
        self.magnitude() > INFINITY_BITS
    }

    /// A place in the order of numbers: greater numbers have greater ranks, and the two zeros
    /// the same.
    pub open spec fn rank(self) -> int {
        if self.is_negative() {
            -(self.magnitude() as int)
        } else {
            self.magnitude() as int
        }
    }

    /// Both stand for the same number.
    pub open spec fn same_number(self, other: FloatBits) -> bool {
        !self.is_nan() && !other.is_nan() && self.rank() == other.rank()
    }

    /// The exponent field.
    pub open spec fn exponent(self) -> int {
        self.magnitude() as int / 0x80_0000
    }

    /// The fraction field with the leading bit that it leaves out: a number with exponent field
    /// `e > 0` is `significand * 2^(e - 150)`.
    pub open spec fn significand(self) -> int {
        0x80_0000 + self.magnitude() as int % 0x80_0000
    }

    /// The frame an editor shows: the nearest whole number, halves going up, and 0 for what is
    /// negative or no number. From `2^23` on, where every number is whole, numbers are counted
    /// by their patterns, so that equal results mean equal numbers.
    pub open spec fn shown_frame(self) -> int {
        if self.is_negative() || self.is_nan() || self.exponent() == 0 {
            0
        } else if self.0 >= WHOLE_BITS {
            0x80_0000 + (self.0 - WHOLE_BITS)
        } else {
            let unit = pow2((150 - self.exponent()) as nat) as int;
            (2 * self.significand() + unit) / (2 * unit)
        }
    }

    /// The whole part, without its sign.
    pub open spec fn whole_part(self) -> int {
        if self.exponent() == 0 {
            0
        } else if self.exponent() < 150 {
            self.significand() / (pow2((150 - self.exponent()) as nat) as int)
        } else {
            self.significand() * pow2((self.exponent() - 150) as nat)
        }
    }

    /// The number as a 64-bit integer: rounded toward 0, kept within the range, 0 for no number.
    pub open spec fn to_integer(self) -> int {
        if self.is_nan() {
            0
        } else if self.is_negative() {
            if self.whole_part() > 0x8000_0000_0000_0000 {
                i64::MIN as int
            } else {
                -self.whole_part()
            }
        } else if self.whole_part() > i64::MAX {
            i64::MAX as int
        } else {
            self.whole_part()
        }
    }

    /// Whether the pattern stands for a number.
    pub fn is_number(self) -> (b: bool)
        ensures
            b == !self.is_nan(),
    {
        self.0 % 0x8000_0000 <= INFINITY_BITS
    }

    /// Whether both stand for the same number.
    pub fn equals(self, other: FloatBits) -> (b: bool)
        ensures
            b == self.same_number(other),
    {
        let a: u32 = self.0 % 0x8000_0000;
        let b: u32 = other.0 % 0x8000_0000;
        a <= INFINITY_BITS && b <= INFINITY_BITS && a == b && (a == 0 || self.0 == other.0)
    }

    /// Whether this number is less than `other`. Patterns that stand for no number rank beyond the
    /// infinities.
    pub fn less_than(self, other: FloatBits) -> (b: bool)
        ensures
            b == (self.rank() < other.rank()),
    {
        let a: u32 = self.0 % 0x8000_0000;
        let b: u32 = other.0 % 0x8000_0000;
        if self.0 >= 0x8000_0000 {
            if other.0 >= 0x8000_0000 {
                b < a
            } else {
                a > 0 || b > 0
            }
        } else if other.0 >= 0x8000_0000 {
            false
        } else {
            a < b
        }
    }

    /// The frame an editor shows.
    pub fn displayed(self) -> (frame: u32)
        ensures
            frame == self.shown_frame(),
    {
        if self.0 >= 0x8000_0000 || self.0 > INFINITY_BITS {
            return 0;
        }
        if self.0 >= WHOLE_BITS {
            return 0x80_0000 + (self.0 - WHOLE_BITS);
        }
        let e: u32 = self.0 / 0x80_0000;
        let sig: u64 = (0x80_0000 + self.0 % 0x80_0000) as u64;
        if e == 0 {
            return 0;
        }
        proof {
            assert(e < 150);
        }
        if e < 126 {
            proof {
                vstd::arithmetic::power2::lemma2_to64();
                vstd::arithmetic::power2::lemma2_to64_rest();
                if e < 125 {
                    vstd::arithmetic::power2::lemma_pow2_strictly_increases(
                        25,
                        (150 - e) as nat,
                    );
                }
                let unit = pow2((150 - e) as nat) as int;
                assert(2 * sig < 0x200_0000 <= unit);
                let n: int = 2 * sig + unit;
                assert(n / (2 * unit) == 0) by (nonlinear_arith)
                    requires
                        n == 2 * sig + unit,
                        0 <= 2 * sig < unit,
                ;
                assert(self.exponent() == e && self.significand() == sig);
                assert(self.shown_frame() == n / (2 * unit));
            }
            return 0;
        }
        let unit: u64 = power_of_two(150 - e);
        let doubled: u64 = 2 * sig + unit;
        let frame: u64 = doubled / (2 * unit);
        proof {
            let d: int = 2 * unit;
            assert(doubled as int / d <= doubled) by (nonlinear_arith)
                requires
                    d >= 1,
                    doubled >= 0,
            ;
            assert(frame <= 0x400_0000);
        }
        frame as u32
    }

    /// The number as a 64-bit integer.
    pub fn truncated(self) -> (n: i64)
        ensures
            n == self.to_integer(),
    {
        let m: u32 = self.0 % 0x8000_0000;
        if m > INFINITY_BITS {
            return 0;
        }
        let e: u32 = m / 0x80_0000;
        let sig: u64 = (0x80_0000 + m % 0x80_0000) as u64;
        let negative: bool = self.0 >= 0x8000_0000;
        if e == 0 {
            return 0;
        }
        if e >= 190 {
            proof {
                vstd::arithmetic::power2::lemma2_to64();
                vstd::arithmetic::power2::lemma2_to64_rest();
                if e > 190 {
                    vstd::arithmetic::power2::lemma_pow2_strictly_increases(
                        40,
                        (e - 150) as nat,
                    );
                }
                let unit = pow2((e - 150) as nat) as int;
                assert(sig * unit >= 0x8000_0000_0000_0000) by (nonlinear_arith)
                    requires
                        sig >= 0x80_0000,
                        unit >= 0x100_0000_0000,
                ;
            }
            if negative {
                return i64::MIN;
            } else {
                return i64::MAX;
            }
        }
        let whole: u64 = if e < 126 {
            proof {
                vstd::arithmetic::power2::lemma2_to64();
                vstd::arithmetic::power2::lemma2_to64_rest();
                vstd::arithmetic::power2::lemma_pow2_strictly_increases(24, (150 - e) as nat);
                let unit = pow2((150 - e) as nat) as int;
                assert(sig as int / unit == 0) by (nonlinear_arith)
                    requires
                        0 <= sig < unit,
                ;
            }
            0
        } else if e < 150 {
            let unit: u64 = power_of_two(150 - e);
            proof {
                let d: int = unit as int;
                assert(sig as int / d <= sig) by (nonlinear_arith)
                    requires
                        d >= 1,
                        sig >= 0,
                ;
            }
            sig / unit
        } else {
            let unit: u64 = power_of_two(e - 150);
            proof {
                vstd::arithmetic::power2::lemma2_to64();
                vstd::arithmetic::power2::lemma2_to64_rest();
                if e < 189 {
                    vstd::arithmetic::power2::lemma_pow2_strictly_increases(
                        (e - 150) as nat,
                        39,
                    );
                }
                assert(sig * unit < 0x8000_0000_0000_0000) by (nonlinear_arith)
                    requires
                        0 <= sig < 0x100_0000,
                        0 <= unit <= 0x80_0000_0000,
                ;
            }
            sig * unit
        };
        if negative {
            -(whole as i64)
        } else {
            whole as i64
        }
    }
}

/// `2^n` for a small `n`.
fn power_of_two(n: u32) -> (p: u64)
    requires
        n <= 40,
    ensures
        p == pow2(n as nat),
        1 <= p <= 0x100_0000_0000,
        n <= 24 ==> p <= 0x100_0000,
        n >= 1 ==> p >= 2,
{
    let mut p: u64 = 1;
    let mut k: u32 = 0;
    proof {
        vstd::arithmetic::power2::lemma2_to64();
        vstd::arithmetic::power2::lemma2_to64_rest();
    }
    while k < n
        invariant
            k <= n <= 40,
            p == pow2(k as nat),
            p <= 0x100_0000_0000,
        decreases n - k,
    {
        proof {
            vstd::arithmetic::power2::lemma_pow2_unfold((k + 1) as nat);
            vstd::arithmetic::power2::lemma2_to64();
            vstd::arithmetic::power2::lemma2_to64_rest();
            if k + 1 < 40 {
                vstd::arithmetic::power2::lemma_pow2_strictly_increases((k + 1) as nat, 40);
            }
        }
        p = p * 2;
        k += 1;
    }
    proof {
        vstd::arithmetic::power2::lemma2_to64();
        vstd::arithmetic::power2::lemma2_to64_rest();
        vstd::arithmetic::power2::lemma_pow2_pos(n as nat);
        if n > 1 {
            vstd::arithmetic::power2::lemma_pow2_strictly_increases(1, n as nat);
        }
        if n < 24 {
            vstd::arithmetic::power2::lemma_pow2_strictly_increases(n as nat, 24);
        }
    }
    p
}

// ── Laws ─────────────────────────────────────────────────────────────────────

/// The frame that is shown is the nearest whole number, halves going up: for a number below
/// `2^23`, twice its distance from the frame is at most 1.
pub proof fn law_shown_frame_is_nearest(x: FloatBits)
    requires
        !x.is_negative(),
        x.exponent() > 0,
        x.0 < WHOLE_BITS,
    ensures
        ({
            let unit = pow2((150 - x.exponent()) as nat) as int;
            let frame = x.shown_frame();
            &&& unit > 0
            &&& 2 * (frame * unit) - unit <= 2 * x.significand() < 2 * (frame * unit) + unit
        }),
{
    let e = x.exponent();
    assert(e < 150);
    let unit = pow2((150 - e) as nat) as int;
    vstd::arithmetic::power2::lemma_pow2_pos((150 - e) as nat);
    let n = 2 * x.significand() + unit;
    let frame = n / (2 * unit);
    vstd::arithmetic::div_mod::lemma_fundamental_div_mod(n, 2 * unit);
    let left = n % (2 * unit);
    assert(0 <= left < 2 * unit) by (nonlinear_arith)
        requires
            left == n % (2 * unit),
            unit > 0,
    ;
    assert((2 * unit) * frame == 2 * (frame * unit)) by (nonlinear_arith);
}

/// A number as an integer is its whole part: no greater than the number, and less than 1 away.
pub proof fn law_integers_are_whole_parts(x: FloatBits)
    requires
        0 < x.exponent() < 150,
    ensures
        ({
            let unit = pow2((150 - x.exponent()) as nat) as int;
            let whole = if x.is_negative() {
                -x.to_integer()
            } else {
                x.to_integer()
            };
            whole * unit <= x.significand() < (whole + 1) * unit
        }),
{
    let unit = pow2((150 - x.exponent()) as nat) as int;
    vstd::arithmetic::power2::lemma_pow2_pos((150 - x.exponent()) as nat);
    let whole = x.whole_part();
    let sig = x.significand();
    vstd::arithmetic::div_mod::lemma_fundamental_div_mod(sig, unit);
    let left = sig % unit;
    assert(0 <= left < unit) by (nonlinear_arith)
        requires
            left == sig % unit,
            unit > 0,
    ;
    assert(whole * unit <= sig && sig < (whole + 1) * unit) by (nonlinear_arith)
        requires
            sig == unit * whole + left,
            0 <= left < unit,
    ;
    assert(0 <= whole <= sig) by (nonlinear_arith)
        requires
            whole * unit <= sig,
            sig < (whole + 1) * unit,
            unit >= 1,
            sig >= 0,
    ;
    assert(x.magnitude() <= INFINITY_BITS);
}

/// Ranks put numbers in order: a negative number comes before a positive one, and of two with the
/// same sign the larger magnitude is farther out. The two zeros are the same number.
pub proof fn law_ranks_order_numbers(a: FloatBits, b: FloatBits)
    ensures
        !a.is_negative() && !b.is_negative() ==> (a.rank() < b.rank() <==> a.0 < b.0),
        a.is_negative() && b.is_negative() ==> (a.rank() < b.rank() <==> a.0 > b.0),
        a.is_negative() && !b.is_negative() ==> a.rank() <= b.rank(),
        a.is_negative() && !b.is_negative() && a.rank() == b.rank() ==> a.0 == 0x8000_0000 && b.0
            == 0,
{
}

/// From `2^23` on, two numbers with the same shown frame are the same number.
pub proof fn law_large_frames_are_told_apart(a: FloatBits, b: FloatBits)
    requires
        !a.is_negative() && !b.is_negative(),
        !a.is_nan() && !b.is_nan(),
        a.0 >= WHOLE_BITS,
        b.0 >= WHOLE_BITS,
        a.shown_frame() == b.shown_frame(),
    ensures
        a.0 == b.0,
{
}

/// Two patterns are the same number just where they are equal, or both a zero; what is no number is
/// not even the same as itself.
pub proof fn law_same_numbers(a: FloatBits, b: FloatBits)
    ensures
        a.same_number(b) <==> (a.0 == b.0 || (a.0 % 0x8000_0000 == 0 && b.0 % 0x8000_0000 == 0))
            && a.0 % 0x8000_0000 <= 0x7f80_0000 && b.0 % 0x8000_0000 <= 0x7f80_0000,
{
}

} // verus!
