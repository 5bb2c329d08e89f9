//! Floating point values as bit patterns.
//!
//! The library compares, stores and passes on floating point numbers but never
//! computes with them, so it holds their IEEE 754 bit patterns. Comparison is
//! the comparison of the numbers: a value that is not a number compares with
//! nothing, and the two zeros are equal.

use vstd::arithmetic::power2::lemma_pow2_adds;
use vstd::arithmetic::power2::lemma_pow2_pos;
use vstd::arithmetic::power2::lemma_pow2_strictly_increases;
use vstd::arithmetic::power2::pow2;
use vstd::prelude::*;
use vstd::string::*;
use crate::text::decimal;
use crate::text::decimal_of;
use crate::text::padded_decimal_of;
use crate::text::zero_padded;

verus! {

/// A single precision number, given by its bit pattern.
#[derive(Clone, Copy, Debug, PartialEq, Eq, Structural)]
pub struct Single {
    pub bits: u32,
}

/// A double precision number, given by its bit pattern.
#[derive(Clone, Copy, Debug, PartialEq, Eq, Structural)]
pub struct Double {
    pub bits: u64,
}

impl Single {
    pub open spec fn magnitude(self) -> int {
        if self.bits >= 0x8000_0000 {
            self.bits - 0x8000_0000
        } else {
            self.bits as int
        }
    }

    /// Whether the pattern stands for no number.
    pub open spec fn nan(self) -> bool {
        self.magnitude() > 0x7f80_0000
    }

    /// Numbers are ordered as their ranks are.
    pub open spec fn rank(self) -> int {
        if self.bits >= 0x8000_0000 {
            -self.magnitude()
        } else {
            self.magnitude()
        }
    }

    pub open spec fn less(self, other: Single) -> bool {
        !self.nan() && !other.nan() && self.rank() < other.rank()
    }

    /// `self` forced into the range from `lo` to `hi`; what is not a number stays.
    pub open spec fn clamped(self, lo: Single, hi: Single) -> Single {
        if self.less(lo) {
            lo
        } else if hi.less(self) {
            hi
        } else {
            self
        }
    }

    pub open spec fn within(self, lo: Single, hi: Single) -> bool {
        self.nan() || (!self.less(lo) && !hi.less(self))
    }

    pub fn zero() -> (r: Single)
        ensures
            r == (Single { bits: 0 }),
    {
        Single { bits: 0 }
    }

    pub fn is_nan(self) -> (r: bool)
        ensures
            r == self.nan(),
    {
        if self.bits >= 0x8000_0000 {
            self.bits - 0x8000_0000 > 0x7f80_0000
        } else {
            self.bits > 0x7f80_0000
        }
    }

    pub fn lt(self, other: Single) -> (r: bool)
        ensures
            r == self.less(other),
    {
        if self.is_nan() || other.is_nan() {
            return false;
        }
        let a: i64 = if self.bits >= 0x8000_0000 {
            -((self.bits - 0x8000_0000) as i64)
        } else {
            self.bits as i64
        };
        let b: i64 = if other.bits >= 0x8000_0000 {
            -((other.bits - 0x8000_0000) as i64)
        } else {
            other.bits as i64
        };
        a < b
    }

    pub fn clamp(self, lo: Single, hi: Single) -> (r: Single)
        requires
            !hi.less(lo),
        ensures
            r == self.clamped(lo, hi),
            r.within(lo, hi),
    {
        if self.lt(lo) {
            lo
        } else if hi.lt(self) {
            hi
        } else {
            self
        }
    }
}

impl Double {
    pub open spec fn magnitude(self) -> int {
        if self.bits >= 0x8000_0000_0000_0000 {
            self.bits - 0x8000_0000_0000_0000
        } else {
            self.bits as int
        }
    }

    /// Whether the pattern stands for no number.
    pub open spec fn nan(self) -> bool {
        self.magnitude() > 0x7ff0_0000_0000_0000
    }

    /// Numbers are ordered as their ranks are.
    pub open spec fn rank(self) -> int {
        if self.bits >= 0x8000_0000_0000_0000 {
            -self.magnitude()
        } else {
            self.magnitude()
        }
    }

    pub open spec fn less(self, other: Double) -> bool {
        !self.nan() && !other.nan() && self.rank() < other.rank()
    }

    pub open spec fn at_most(self, other: Double) -> bool {
        !self.nan() && !other.nan() && self.rank() <= other.rank()
    }

    pub fn is_nan(self) -> (r: bool)
        ensures
            r == self.nan(),
    {
        if self.bits >= 0x8000_0000_0000_0000 {
            self.bits - 0x8000_0000_0000_0000 > 0x7ff0_0000_0000_0000
        } else {
            self.bits > 0x7ff0_0000_0000_0000
        }
    }

    fn key(self) -> (r: i64)
        ensures
            r == self.rank(),
    {
        if self.bits >= 0x8000_0000_0000_0000 {
            -((self.bits - 0x8000_0000_0000_0000) as i64)
        } else {
            self.bits as i64
        }
    }

    pub fn lt(self, other: Double) -> (r: bool)
        ensures
            r == self.less(other),
    {
        !self.is_nan() && !other.is_nan() && self.key() < other.key()
    }

    pub fn le(self, other: Double) -> (r: bool)
        ensures
            r == self.at_most(other),
    {
        !self.is_nan() && !other.is_nan() && self.key() <= other.key()
    }
}

// ---------------------------------------------------------------------------
// Decimal notation
// ---------------------------------------------------------------------------

/// `n / d` rounded to the nearest whole number, to the even one of two that are
/// as near.
pub open spec fn rounded(n: int, d: int) -> int {
    let q = n / d;
    let r = n % d;
    if r * 2 > d || (r * 2 == d && q % 2 == 1) {
        q + 1
    } else {
        q
    }
}

impl Single {
    /// The magnitude is `significand * 2^exponent`.
    pub open spec fn significand(self) -> int {
        if self.magnitude() < 0x80_0000 {
            self.magnitude()
        } else {
            self.magnitude() % 0x80_0000 + 0x80_0000
        }
    }

    pub open spec fn exponent(self) -> int {
        if self.magnitude() < 0x80_0000 {
            -149
        } else {
            self.magnitude() / 0x80_0000 - 150
        }
    }

    /// The magnitude in hundredths, rounded.
    pub open spec fn hundredths(self) -> int {
        if self.exponent() >= 0 {
            self.significand() * pow2(self.exponent() as nat) * 100
        } else {
            rounded(self.significand() * 100, pow2((-self.exponent()) as nat) as int)
        }
    }

    /// The number with two decimals.
    pub open spec fn two_decimals(self) -> Seq<char> {
        if self.nan() {
            "NaN"@
        } else {
            let sign = if self.bits >= 0x8000_0000 {
                "-"@
            } else {
                ""@
            };
            sign + if self.magnitude() == 0x7f80_0000 {
                "inf"@
            } else {
                decimal((self.hundredths() / 100) as nat) + "."@ + zero_padded(
                    decimal((self.hundredths() % 100) as nat),
                    2,
                )
            }
        }
    }

    fn magnitude_bits(self) -> (r: u32)
        ensures
            r == self.magnitude(),
    {
        if self.bits >= 0x8000_0000 {
            self.bits - 0x8000_0000
        } else {
            self.bits
        }
    }

    /// Whole part and hundredths of the magnitude.
    fn split_hundredths(self) -> (r: (u128, u128))
        requires
            self.magnitude() < 0x7f80_0000,
        ensures
            r.0 == self.hundredths() / 100,
            r.1 == self.hundredths() % 100,
    {
        let m: u32 = self.magnitude_bits();
        let sig: u128 = if m < 0x80_0000 {
            m as u128
        } else {
            (m % 0x80_0000 + 0x80_0000) as u128
        };
        let biased: u32 = if m < 0x80_0000 {
            1
        } else {
            m / 0x80_0000
        };
        assert(1 <= biased <= 254);
        assert(self.exponent() == biased - 150);
        assert(sig < 0x100_0000);
        if biased >= 150 {
            let e: u32 = biased - 150;
            let p: u128 = power_of_two(e);
            proof {
                lemma_pow2_104();
                if e < 104 {
                    lemma_pow2_strictly_increases(e as nat, 104);
                }
                assert(sig * p <= 0xff_ffff * 0x100_0000_0000_0000_0000_0000_0000) by (nonlinear_arith)
                    requires
                        sig <= 0xff_ffff,
                        p <= 0x100_0000_0000_0000_0000_0000_0000,
                ;
            }
            let whole: u128 = sig * p;
            (whole, 0)
        } else {
            let d: u32 = 150 - biased;
            let n: u128 = sig * 100;
            if d > 40 {
                proof {
                    lemma_pow2_40();
                    lemma_pow2_strictly_increases(40, d as nat);
                    let p = pow2(d as nat) as int;
                    assert(n < p && n * 2 < p);
                    assert(n as int / p == 0 && n as int % p == n) by (nonlinear_arith)
                        requires
                            0 <= n,
                            n < p,
                    ;
                }
                (0, 0)
            } else {
                let p: u128 = power_of_two(d);
                proof {
                    lemma_pow2_40();
                    if d < 40 {
                        lemma_pow2_strictly_increases(d as nat, 40);
                    }
                    lemma_pow2_pos(d as nat);
                }
                let q: u128 = n / p;
                let r: u128 = n % p;
                let h: u128 = if r * 2 > p || (r * 2 == p && q % 2 == 1) {
                    q + 1
                } else {
                    q
                };
                (h / 100, h % 100)
            }
        }
    }

    /// The number in decimal notation with two decimals.
    pub fn fixed2(self) -> (r: String)
        ensures
            r@ == self.two_decimals(),
    {
        if self.is_nan() {
            return "NaN".to_owned();
        }
        let mut s = if self.bits >= 0x8000_0000 {
            "-".to_owned()
        } else {
            "".to_owned()
        };
        let ghost sign = s@;
        if self.magnitude_bits() == 0x7f80_0000 {
            s.append("inf");
            return s;
        }
        let (whole, part) = self.split_hundredths();
        s.append(decimal_of(whole).as_str());
        s.append(".");
        s.append(padded_decimal_of(part, 2).as_str());
        proof {
            assert(s@ =~= sign + (decimal(whole as nat) + "."@ + zero_padded(
                decimal(part as nat),
                2,
            )));
        }
        s
    }
}

proof fn lemma_pow2_40()
    ensures
        pow2(40) == 0x100_0000_0000,
{
    vstd::arithmetic::power2::lemma2_to64();
    lemma_pow2_adds(20, 20);
}

proof fn lemma_pow2_104()
    ensures
        pow2(104) == 0x100_0000_0000_0000_0000_0000_0000,
{
    vstd::arithmetic::power2::lemma2_to64();
    lemma_pow2_adds(26, 26);
    assert(pow2(52) == 0x10_0000_0000_0000);
    lemma_pow2_adds(52, 52);
    assert(0x10_0000_0000_0000 * 0x10_0000_0000_0000
        == 0x100_0000_0000_0000_0000_0000_0000int) by (nonlinear_arith);
}

fn power_of_two(n: u32) -> (r: u128)
    requires
        n <= 104,
    ensures
        r == pow2(n as nat),
{
    let mut r: u128 = 1;
    let mut i: u32 = 0;
    proof {
        vstd::arithmetic::power2::lemma2_to64();
    }
    while i < n
        invariant
            i <= n <= 104,
            r == pow2(i as nat),
        decreases n - i,
    {
        proof {
            vstd::arithmetic::power2::lemma_pow2_unfold((i + 1) as nat);
            lemma_pow2_104();
            if i + 1 < 104 {
                lemma_pow2_strictly_increases((i + 1) as nat, 104);
            }
        }
        r = r * 2;
        i += 1;
    }
    r
}

/// Forcing a number into a range keeps what is in it, and takes the nearer end
/// otherwise.
pub proof fn law_clamping_keeps_the_range(x: Single, lo: Single, hi: Single)
    requires
        !lo.nan() && !hi.nan() && !x.nan(),
        lo.rank() <= hi.rank(),
    ensures
        lo.rank() <= x.clamped(lo, hi).rank() <= hi.rank(),
        lo.rank() <= x.rank() <= hi.rank() ==> x.clamped(lo, hi) == x,
        x.rank() < lo.rank() ==> x.clamped(lo, hi) == lo,
        x.rank() > hi.rank() ==> x.clamped(lo, hi) == hi,
{
}

/// Numbers without a sign are ordered as their patterns are, every number with a sign
/// is below those but for zero, and what is not a number is neither below nor above.
pub proof fn law_patterns_order_numbers(a: Single, b: Single, c: Double, d: Double)
    ensures
        a.bits < b.bits <= 0x7f80_0000 ==> a.less(b) && !b.less(a),
        0x8000_0000 < a.bits <= 0xff80_0000 && b.bits <= 0x7f80_0000 ==> a.less(b),
        a.bits == 0x7fc0_0000 ==> !a.less(b) && !b.less(a),
        c.bits < d.bits <= 0x7ff0_0000_0000_0000 ==> c.less(d) && c.at_most(d) && !d.at_most(c),
        c.bits <= 0x7ff0_0000_0000_0000 ==> c.at_most(c) && !c.less(c),
{
}

/// A fraction is rounded to the nearest whole number, and to the even one of two that
/// are equally near.
pub proof fn law_rounding_is_to_the_nearest(n: int, d: int)
    requires
        d > 0,
        n >= 0,
    ensures
        2 * (rounded(n, d) * d - n) <= d,
        2 * (n - rounded(n, d) * d) <= d,
        2 * (rounded(n, d) * d - n) == d || 2 * (n - rounded(n, d) * d) == d ==> rounded(n, d) % 2
            == 0,
{
    let q = n / d;
    let r = n % d;
    vstd::arithmetic::div_mod::lemma_fundamental_div_mod(n, d);
    vstd::arithmetic::div_mod::lemma_mod_bound(n, d);
    assert(d * q == q * d) by (nonlinear_arith);
    assert((q + 1) * d == q * d + d) by (nonlinear_arith);
}

} // verus!
