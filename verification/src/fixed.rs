//! Signed fixed-point numbers with 32 fractional bits.
//!
//! Audio samples, gains, times in seconds and frequencies in hertz are all
//! carried as [`Fixed`]: exact integer arithmetic on a scaled value, which
//! saturates at the ends of its range.

use vstd::prelude::*;

verus! {

/// The number `raw / 2^32`.
#[derive(Clone, Copy, Debug, PartialEq, Eq, Structural)]
pub struct Fixed {
    pub raw: i64,
}

impl View for Fixed {
    type V = int;

    /// The scaled integer: the number times `2^32`.
    open spec fn view(&self) -> int {
        self.raw as int
    }
}

impl Default for Fixed {
    fn default() -> (r: Fixed)
        ensures
            r == Fixed::zero_spec(),
    {
        Fixed { raw: 0 }
    }
}

impl Fixed {
    /// The scaled integer of the number one.
    pub open spec fn scale() -> int {
        0x1_0000_0000
    }

    /// The nearest integer to `x` that an `i64` holds.
    pub open spec fn clamp(x: int) -> int {
        if x < i64::MIN {
            i64::MIN as int
        } else if x > i64::MAX {
            i64::MAX as int
        } else {
            x
        }
    }

    /// The number whose scaled integer is the nearest to `x` that fits.
    pub open spec fn saturated(x: int) -> Fixed {
        Fixed { raw: Self::clamp(x) as i64 }
    }

    /// The number zero.
    pub open spec fn zero_spec() -> Fixed {
        Fixed { raw: 0 }
    }

    /// The number one.
    pub open spec fn one_spec() -> Fixed {
        Fixed { raw: 0x1_0000_0000 }
    }

    /// The sum, saturating.
    pub open spec fn add_spec(self, rhs: Fixed) -> Fixed {
        Self::saturated(self@ + rhs@)
    }

    /// The difference, saturating.
    pub open spec fn sub_spec(self, rhs: Fixed) -> Fixed {
        Self::saturated(self@ - rhs@)
    }

    /// The product, rounded down to the next step, saturating.
    pub open spec fn mul_spec(self, rhs: Fixed) -> Fixed {
        Self::saturated((self@ * rhs@) / Self::scale())
    }

    /// The point at fraction `t` of the way from `self` to `to`, rounded down
    /// to the next step.
    pub open spec fn lerp_spec(self, to: Fixed, t: Fixed) -> Fixed {
        Self::saturated(self@ + ((to@ - self@) * t@) / Self::scale())
    }

    /// `g` multiplied `k` times onto one.
    pub open spec fn pow_spec(g: Fixed, k: nat) -> Fixed
        decreases k,
    {
        if k == 0 {
            Self::one_spec()
        } else {
            g.mul_spec(Self::pow_spec(g, (k - 1) as nat))
        }
    }

    /// The number times the whole number `k`, saturating.
    pub open spec fn times_spec(self, k: int) -> Fixed {
        Self::saturated(self@ * k)
    }

    /// The opposite number, saturating.
    pub open spec fn neg_spec(self) -> Fixed {
        Self::saturated(-self@)
    }

    /// The number brought within `bound` of zero: `bound` where it lies
    /// above it, the opposite of `bound` where it lies below that.
    pub open spec fn limit_spec(self, bound: Fixed) -> Fixed {
        if self@ > bound@ {
            bound
        } else if self@ < -bound@ {
            bound.neg_spec()
        } else {
            self
        }
    }

    /// Whole samples in `secs` seconds (a scaled integer) at `rate` samples
    /// per second: the nearest integer, halves rounded up, and zero for a
    /// negative time.
    pub open spec fn samples_spec(secs: int, rate: int) -> int {
        if secs <= 0 {
            0
        } else {
            (secs * rate + Self::scale() / 2) / Self::scale()
        }
    }

    /// The time that `count` samples take at `rate` samples per second,
    /// rounded to the nearest step, halves up, saturating.
    pub open spec fn seconds_spec(count: int, rate: int) -> Fixed {
        Self::saturated((count * Self::scale() + rate / 2) / rate)
    }

    /// The number whose scaled integer is `raw`.
    pub fn from_raw(raw: i64) -> (r: Fixed)
        ensures
            r@ == raw,
    {
        Fixed { raw }
    }

    /// The scaled integer of the number.
    pub fn raw(self) -> (r: i64)
        ensures
            r == self@,
    {
        self.raw
    }

    /// The number zero.
    pub fn zero() -> (r: Fixed)
        ensures
            r == Self::zero_spec(),
    {
        Fixed { raw: 0 }
    }

    /// The number one.
    pub fn one() -> (r: Fixed)
        ensures
            r == Self::one_spec(),
    {
        Fixed { raw: 0x1_0000_0000 }
    }

    /// The whole number `n`.
    pub fn from_int(n: i32) -> (r: Fixed)
        ensures
            r@ == n * Self::scale(),
    {
        let wide: i64 = n as i64;
        Fixed { raw: wide * 0x1_0000_0000 }
    }

    /// Whether the number is below zero.
    pub fn is_negative(self) -> (r: bool)
        ensures
            r == (self@ < 0),
    {
        self.raw < 0
    }

    /// The largest whole number not above `self`.
    pub fn floor(self) -> (r: i64)
        ensures
            r == self@ / Self::scale(),
    {
        if self.raw >= 0 {
            self.raw / 0x1_0000_0000
        } else {
            let m: i64 = -(self.raw + 1);
            -(m / 0x1_0000_0000) - 1
        }
    }

    /// What `self` exceeds its floor by: in `[0, 1)`.
    pub fn fract(self) -> (r: Fixed)
        ensures
            r@ == self@ % Self::scale(),
            0 <= r@ < Self::scale(),
    {
        if self.raw >= 0 {
            Fixed { raw: self.raw % 0x1_0000_0000 }
        } else {
            let m: i64 = -(self.raw + 1);
            Fixed { raw: 0xffff_ffff - m % 0x1_0000_0000 }
        }
    }

    fn saturate(x: i128) -> (r: Fixed)
        ensures
            r == Self::saturated(x as int),
    {
        if x < -0x8000_0000_0000_0000 {
            Fixed { raw: i64::MIN }
        } else if x > 0x7fff_ffff_ffff_ffff {
            Fixed { raw: i64::MAX }
        } else {
            Fixed { raw: x as i64 }
        }
    }

    fn floor_div_scale(p: i128) -> (q: i128)
        ensures
            q == (p as int) / Self::scale(),
    {
        if p >= 0 {
            p / 0x1_0000_0000
        } else {
            let m: i128 = -(p + 1);
            -(m / 0x1_0000_0000) - 1
        }
    }

    /// The sum, or the end of the range that it passes.
    pub fn saturating_add(self, rhs: Fixed) -> (r: Fixed)
        ensures
            r == self.add_spec(rhs),
    {
        Self::saturate(self.raw as i128 + rhs.raw as i128)
    }

    /// The difference, or the end of the range that it passes.
    pub fn saturating_sub(self, rhs: Fixed) -> (r: Fixed)
        ensures
            r == self.sub_spec(rhs),
    {
        Self::saturate(self.raw as i128 - rhs.raw as i128)
    }

    /// The product rounded down to the next step, or the end of the range
    /// that it passes.
    pub fn saturating_mul(self, rhs: Fixed) -> (r: Fixed)
        ensures
            r == self.mul_spec(rhs),
    {
        let a: i128 = self.raw as i128;
        let b: i128 = rhs.raw as i128;
        proof {
            lemma_product_bound(a as int, b as int, 0x8000_0000_0000_0000, 0x8000_0000_0000_0000);
        }
        let p: i128 = a * b;
        Self::saturate(Self::floor_div_scale(p))
    }

    /// The point at fraction `t` of the way from `self` to `to`, or the end
    /// of the range that it passes where `t` is not between zero and one.
    pub fn lerp(self, to: Fixed, t: Fixed) -> (r: Fixed)
        ensures
            r == self.lerp_spec(to, t),
    {
        let d: i128 = to.raw as i128 - self.raw as i128;
        let w: i128 = t.raw as i128;
        proof {
            lemma_product_bound(d as int, w as int, 0xffff_ffff_ffff_ffff, 0x8000_0000_0000_0000);
        }
        let p: i128 = d * w;
        let q: i128 = Self::floor_div_scale(p);
        Self::saturate(self.raw as i128 + q)
    }

    /// The number times the whole number `k`.
    pub fn saturating_times(self, k: u32) -> (r: Fixed)
        ensures
            r == self.times_spec(k as int),
    {
        proof {
            lemma_product_bound(self@, k as int, 0x8000_0000_0000_0000, 0xffff_ffff);
        }
        Self::saturate((self.raw as i128) * (k as i128))
    }

    /// The opposite number.
    pub fn saturating_neg(self) -> (r: Fixed)
        ensures
            r == self.neg_spec(),
    {
        Self::saturate(-(self.raw as i128))
    }

    /// The number brought within `bound` of zero.
    pub fn limit(self, bound: Fixed) -> (r: Fixed)
        ensures
            r == self.limit_spec(bound),
    {
        if self.raw > bound.raw {
            bound
        } else if (self.raw as i128) < -(bound.raw as i128) {
            bound.saturating_neg()
        } else {
            self
        }
    }

    /// Whole samples in `self` seconds at `rate` samples per second, to the
    /// nearest; none for a negative time.
    pub fn to_samples(self, rate: u32) -> (r: u64)
        ensures
            r == Self::samples_spec(self@, rate as int),
    {
        if self.raw <= 0 {
            0
        } else {
            let secs: u128 = self.raw as u128;
            let wide: u128 = rate as u128;
            proof {
                assert(secs * wide <= 0x7fff_ffff_ffff_ffff * 0xffff_ffff) by (nonlinear_arith)
                    requires
                        0 <= secs <= 0x7fff_ffff_ffff_ffff,
                        0 <= wide <= 0xffff_ffff,
                ;
            }
            let scaled: u128 = secs * wide + 0x8000_0000;
            (scaled / 0x1_0000_0000) as u64
        }
    }

    /// The time that `count` samples take at `rate` samples per second.
    pub fn from_samples(count: u64, rate: u32) -> (r: Fixed)
        requires
            rate > 0,
        ensures
            r == Self::seconds_spec(count as int, rate as int),
    {
        let scaled: u128 = (count as u128) * 0x1_0000_0000 + (rate / 2) as u128;
        let q: u128 = scaled / (rate as u128);
        if q > 0x7fff_ffff_ffff_ffff {
            Fixed { raw: i64::MAX }
        } else {
            Fixed { raw: q as i64 }
        }
    }
}

/// `|a * b| <= m * k` where `a` is within `m` of zero and `b` within `k`.
pub proof fn lemma_product_bound(a: int, b: int, m: int, k: int)
    requires
        -m <= a <= m,
        -k <= b <= k,
    ensures
        -(m * k) <= a * b <= m * k,
{
    assert(-(m * k) <= a * b <= m * k) by (nonlinear_arith)
        requires
            -m <= a <= m,
            -k <= b <= k,
    ;
}

/// Zero added to a number, on either side, is that number.
pub proof fn lemma_add_zero(x: Fixed)
    ensures
        x.add_spec(Fixed::zero_spec()) == x,
        Fixed::zero_spec().add_spec(x) == x,
{
}

/// A number times zero is zero.
pub proof fn lemma_mul_zero(x: Fixed)
    ensures
        x.mul_spec(Fixed::zero_spec()) == Fixed::zero_spec(),
        Fixed::zero_spec().mul_spec(x) == Fixed::zero_spec(),
{
    assert(x@ * 0 == 0) by (nonlinear_arith);
    assert(0 * x@ == 0) by (nonlinear_arith);
}

/// A number times one is that number.
pub proof fn lemma_mul_one(x: Fixed)
    ensures
        x.mul_spec(Fixed::one_spec()) == x,
        Fixed::one_spec().mul_spec(x) == x,
{
    let s: int = Fixed::scale();
    assert(x@ * s == s * x@) by (nonlinear_arith);
    crate::modular::lemma_div_mod_unique(x@ * s, s, x@, 0);
}

/// An interpolated point lies between its two ends.
pub proof fn lemma_lerp_between(a: Fixed, b: Fixed, t: Fixed)
    requires
        0 <= t@ <= Fixed::scale(),
    ensures
        a@ <= b@ ==> a@ <= a.lerp_spec(b, t)@ <= b@,
        b@ <= a@ ==> b@ <= a.lerp_spec(b, t)@ <= a@,
        a.lerp_spec(b, t)@ == a@ + ((b@ - a@) * t@) / Fixed::scale(),
{
    let s: int = Fixed::scale();
    let d: int = b@ - a@;
    if d >= 0 {
        assert(0 <= d * t@ <= d * s) by (nonlinear_arith)
            requires
                0 <= d,
                0 <= t@ <= s,
        ;
        crate::modular::lemma_div_mod_unique(d * s, s, d, 0);
        crate::modular::lemma_div_monotone(0, d * t@, s);
        crate::modular::lemma_div_monotone(d * t@, d * s, s);
    } else {
        assert(d * s <= d * t@ <= 0) by (nonlinear_arith)
            requires
                d <= 0,
                0 <= t@ <= s,
        ;
        crate::modular::lemma_div_mod_unique(d * s, s, d, 0);
        crate::modular::lemma_div_monotone(d * t@, 0, s);
        crate::modular::lemma_div_monotone(d * s, d * t@, s);
    }
}

/// At fraction zero an interpolated point is the first end.
pub proof fn lemma_lerp_at_zero(a: Fixed, b: Fixed)
    ensures
        a.lerp_spec(b, Fixed::zero_spec()) == a,
{
    assert((b@ - a@) * 0 == 0) by (nonlinear_arith);
}

} // verus!
