//! Exact average rates: a byte count over a span of milliseconds.

use vstd::prelude::*;

verus! {

/// An average rate, kept as the exact fraction `bytes / millis`.
///
/// A span of zero milliseconds stands for the rate zero.
#[derive(Clone, Copy, Debug, PartialEq, Eq)]
pub struct Rate {
    /// Bytes seen over the span.
    pub bytes: u128,
    /// Length of the span in milliseconds.
    pub millis: u64,
}

/// How heavily a host loads the link.
#[derive(Clone, Copy, Debug, PartialEq, Eq)]
pub enum Load {
    /// Above 1,000,000 bytes per second.
    High,
    /// Above 10,000 and at most 1,000,000 bytes per second.
    Medium,
    /// At most 10,000 bytes per second.
    Low,
}

/// Two to the power 64.
pub open spec fn pow64() -> int {
    0x1_0000_0000_0000_0000
}

impl Rate {
    /// Numerator of the fraction that the rate stands for.
    pub open spec fn num(self) -> int {
        if self.millis == 0 {
            0
        } else {
            self.bytes as int
        }
    }

    /// Denominator of the fraction that the rate stands for; always positive.
    pub open spec fn den(self) -> int {
        if self.millis == 0 {
            1
        } else {
            self.millis as int
        }
    }

    /// `self <= other` as fractions.
    pub open spec fn le(self, other: Rate) -> bool {
        self.num() * other.den() <= other.num() * self.den()
    }

    /// `self == other` as fractions.
    pub open spec fn same(self, other: Rate) -> bool {
        self.num() * other.den() == other.num() * self.den()
    }

    /// The rate is exactly `bytes_per_tick` bytes every `tick_ms` milliseconds.
    pub open spec fn is_per_tick(self, bytes_per_tick: int, tick_ms: int) -> bool {
        self.num() * tick_ms == bytes_per_tick * self.den()
    }

    /// The rate zero.
    pub fn zero() -> (r: Rate)
        ensures
            r.bytes == 0,
            r.millis == 0,
            r.num() == 0,
    {
        Rate { bytes: 0, millis: 0 }
    }

    /// Whole bytes per second, rounded down and capped at `u128::MAX`.
    pub fn bytes_per_second(&self) -> (r: u128)
        ensures
            self.num() * 1000 / self.den() <= u128::MAX ==> r == self.num() * 1000 / self.den(),
            self.num() * 1000 / self.den() > u128::MAX ==> r == u128::MAX,
    {
        if self.millis == 0 {
            0
        } else {
            let m: u128 = self.millis as u128;
            let whole: u128 = self.bytes / m;
            let rest: u128 = self.bytes % m;
            // bytes * 1000 / m == whole * 1000 + rest * 1000 / m
            assert(rest * 1000 < pow64() * 1000);
            let tail: u128 = rest * 1000 / m;
            assert((self.bytes as int * 1000) / (m as int) == whole as int * 1000 + tail as int) by {
                assert(self.bytes as int == whole as int * m as int + rest as int) by {
                    vstd::arithmetic::div_mod::lemma_fundamental_div_mod(self.bytes as int, m as int);
                    assert(whole as int * m as int == m as int * whole as int) by (nonlinear_arith);
                }
                assert(self.bytes as int * 1000 == (whole as int * 1000) * m as int + rest as int * 1000)
                    by (nonlinear_arith)
                    requires self.bytes as int == whole as int * m as int + rest as int;
                vstd::arithmetic::div_mod::lemma_div_multiples_vanish_fancy(
                    whole as int * 1000, rest as int * 1000 % (m as int), m as int);
                vstd::arithmetic::div_mod::lemma_fundamental_div_mod(rest as int * 1000, m as int);
                vstd::arithmetic::div_mod::lemma_hoist_over_denominator(
                    rest as int * 1000, whole as int * 1000, m as nat);
            }
            if whole > u128::MAX / 1000 {
                u128::MAX
            } else if whole * 1000 > u128::MAX - tail {
                u128::MAX
            } else {
                whole * 1000 + tail
            }
        }
    }

    /// `self` is strictly above `bytes_per_second`.
    pub open spec fn exceeds(self, bytes_per_second: int) -> bool {
        self.num() * 1000 > bytes_per_second * self.den()
    }

    /// The load that the rate stands for.
    pub open spec fn load(self) -> Load {
        if self.exceeds(1_000_000) {
            Load::High
        } else if self.exceeds(10_000) {
            Load::Medium
        } else {
            Load::Low
        }
    }

    /// Classifies the rate: above 1,000,000 bytes per second, above 10,000,
    /// or neither.
    pub fn load_level(&self) -> (level: Load)
        ensures
            level == self.load(),
    {
        let high = Rate { bytes: 1_000_000, millis: 1000 };
        let medium = Rate { bytes: 10_000, millis: 1000 };
        assert(self.le(high) == !self.exceeds(1_000_000)) by (nonlinear_arith)
            requires
                self.le(high) == (self.num() * 1000 <= 1_000_000 * self.den()),
                self.exceeds(1_000_000) == (self.num() * 1000 > 1_000_000 * self.den()),
        ;
        assert(self.le(medium) == !self.exceeds(10_000)) by (nonlinear_arith)
            requires
                self.le(medium) == (self.num() * 1000 <= 10_000 * self.den()),
                self.exceeds(10_000) == (self.num() * 1000 > 10_000 * self.den()),
        ;
        if !self.at_most(&high) {
            Load::High
        } else if !self.at_most(&medium) {
            Load::Medium
        } else {
            Load::Low
        }
    }

    /// Whether `self <= other` as fractions.
    pub fn at_most(&self, other: &Rate) -> (b: bool)
        ensures
            b == self.le(*other),
    {
        if self.millis == 0 {
            true
        } else if other.millis == 0 {
            assert(self.le(*other) == (self.bytes == 0)) by (nonlinear_arith)
                requires
                    self.den() > 0,
                    self.num() >= 0,
                    other.num() == 0,
                    other.den() == 1,
                    self.num() == self.bytes,
                    self.le(*other) == (self.num() * other.den() <= other.num() * self.den()),
            ;
            self.bytes == 0
        } else {
            let left = mul_wide(self.bytes, other.millis);
            let right = mul_wide(other.bytes, self.millis);
            left.0 < right.0 || (left.0 == right.0 && left.1 <= right.1)
        }
    }
}

/// Full product of a 128-bit and a 64-bit number, as a high part and the low
/// 64 bits.
pub fn mul_wide(x: u128, m: u64) -> (r: (u128, u64))
    ensures
        r.0 as int * pow64() + r.1 as int == x as int * m as int,
{
    let xl: u128 = x % 0x1_0000_0000_0000_0000u128;
    let xh: u128 = x / 0x1_0000_0000_0000_0000u128;
    let mm: u128 = m as u128;
    assert(xl * mm <= 0xffff_ffff_ffff_ffff * 0xffff_ffff_ffff_ffff) by (nonlinear_arith)
        requires
            xl <= 0xffff_ffff_ffff_ffff,
            mm <= 0xffff_ffff_ffff_ffff,
    ;
    assert(xh * mm <= 0xffff_ffff_ffff_ffff * 0xffff_ffff_ffff_ffff) by (nonlinear_arith)
        requires
            xh <= 0xffff_ffff_ffff_ffff,
            mm <= 0xffff_ffff_ffff_ffff,
    ;
    let low_product: u128 = xl * mm;
    let high_product: u128 = xh * mm;
    let lo: u128 = low_product % 0x1_0000_0000_0000_0000u128;
    let carry: u128 = low_product / 0x1_0000_0000_0000_0000u128;
    let hi: u128 = high_product + carry;
    assert(hi as int * pow64() + lo as int == x as int * m as int) by (nonlinear_arith)
        requires
            hi == high_product + carry,
            low_product == carry * pow64() + lo,
            low_product == xl * mm,
            high_product == xh * mm,
            x == xh * pow64() + xl,
            mm == m,
    ;
    (hi, lo as u64)
}

/// The order of rates is transitive.
pub proof fn lemma_rate_le_transitive(a: Rate, b: Rate, c: Rate)
    requires
        a.le(b),
        b.le(c),
    ensures
        a.le(c),
{
    let (an, ad, bn, bd, cn, cd) = (a.num(), a.den(), b.num(), b.den(), c.num(), c.den());
    assert(an * cd <= cn * ad) by (nonlinear_arith)
        requires
            an * bd <= bn * ad,
            bn * cd <= cn * bd,
            ad > 0,
            bd > 0,
            cd > 0,
            an >= 0,
            bn >= 0,
            cn >= 0,
    ;
}

} // verus!
