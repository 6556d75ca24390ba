//! Fixed-point scalars.
//!
//! Every quantity of the renderer (lengths, ray parameters, colour channels,
//! probabilities) is a [`Fixed`]: a signed count of millionths. Arithmetic is
//! total: a result that leaves the 64-bit range is clamped to the nearest end
//! of it, a quotient is rounded toward zero, and a square root is rounded down.
//!
//! The specifications are plain integer expressions. In a proof about
//! particular numbers, the product or quotient of two numbers that the
//! verifier knows only by name is stated with `by (nonlinear_arith)`, and a
//! square root with [`lemma_floor_sqrt_unique`].
use vstd::prelude::*;

verus! {

/// Number of raw units in one whole.
pub const SCALE: i64 = 1_000_000;

/// Largest raw value.
pub const RAW_MAX: i64 = 0x7fff_ffff_ffff_ffff;

/// Smallest raw value.
pub const RAW_MIN: i64 = -0x7fff_ffff_ffff_ffff - 1;

/// Raw value of the circle constant, rounded down.
pub const PI_RAW: i64 = 3_141_592;

/// Raw value of half the circle constant.
pub const HALF_PI_RAW: i64 = 1_570_796;

/// Raw value of a quarter of the circle constant.
pub const QUARTER_PI_RAW: i64 = 785_398;

/// Raw value of twice the circle constant.
pub const TWO_PI_RAW: i64 = 6_283_185;

/// A signed fixed-point number with six decimal places: `raw / SCALE`.
#[derive(Clone, Copy, Debug, PartialEq, Eq, Structural)]
pub struct Fixed {
    pub raw: i64,
}

/// The nearest value of the 64-bit range.
pub open spec fn sat(x: int) -> int {
    if x > RAW_MAX {
        RAW_MAX as int
    } else if x < RAW_MIN {
        RAW_MIN as int
    } else {
        x
    }
}

/// Absolute value of an integer.
pub open spec fn magnitude(x: int) -> int {
    if x < 0 {
        -x
    } else {
        x
    }
}

/// Quotient of `n` by `d`, rounded toward zero; 0 where `d` is 0.
pub open spec fn quot(n: int, d: int) -> int {
    if d == 0 {
        0
    } else if (n < 0) == (d < 0) {
        magnitude(n) / magnitude(d)
    } else {
        -(magnitude(n) / magnitude(d))
    }
}

/// A count of millionths of millionths as a count of millionths, rounded
/// toward zero: `quot(n, SCALE)`.
pub open spec fn scaled_down(n: int) -> int {
    if n < 0 {
        -((-n) / 1_000_000)
    } else {
        n / 1_000_000
    }
}

/// `r` is the square root of `n`, rounded down.
pub open spec fn is_floor_sqrt(n: int, r: int) -> bool {
    0 <= r && r * r <= n && n < (r + 1) * (r + 1)
}

/// The square root of `n`, rounded down, for `n >= 0`. A number is shown to
/// be this root with [`lemma_floor_sqrt_unique`].
pub open spec fn floor_sqrt(n: int) -> int {
    choose|r: int| is_floor_sqrt(n, r)
}

/// At most one number is the rounded-down square root of `n`.
pub proof fn lemma_floor_sqrt_unique(n: int, r: int)
    requires
        is_floor_sqrt(n, r),
    ensures
        floor_sqrt(n) == r,
{
    let s = floor_sqrt(n);
    assert(is_floor_sqrt(n, s));
    if s < r {
        assert((s + 1) * (s + 1) <= r * r) by (nonlinear_arith)
            requires
                0 <= s,
                s + 1 <= r,
        ;
    }
    if r < s {
        assert((r + 1) * (r + 1) <= s * s) by (nonlinear_arith)
            requires
                0 <= r,
                r + 1 <= s,
        ;
    }
}

/// Every number that is not negative has a rounded-down square root.
pub proof fn lemma_floor_sqrt_exists(n: int)
    requires
        n >= 0,
    ensures
        is_floor_sqrt(n, floor_sqrt(n)),
    decreases n,
{
    if n == 0 {
        assert(is_floor_sqrt(0, 0));
    } else {
        lemma_floor_sqrt_exists(n - 1);
        let r = floor_sqrt(n - 1);
        if (r + 1) * (r + 1) <= n {
            assert((r + 2) * (r + 2) > (r + 1) * (r + 1)) by (nonlinear_arith)
                requires
                    r >= 0,
            ;
            assert(is_floor_sqrt(n, r + 1));
        } else {
            assert(is_floor_sqrt(n, r));
        }
    }
}

/// A square root is not negative.
pub proof fn lemma_sqrt_nonneg(a: Fixed)
    ensures
        a.sqrt_spec().raw >= 0,
{
    if a.raw > 0 {
        let n = a.raw * 1_000_000;
        lemma_floor_sqrt_exists(n);
        let r = floor_sqrt(n);
        assert(r < 0x400_0000_0000) by (nonlinear_arith)
            requires
                0 <= r,
                r * r <= n,
                n < 0x10_0000_0000_0000_0000_0000,
        ;
    }
}

/// A product is bounded by the product of its factors' bounds.
pub proof fn lemma_product_bound(a: int, b: int, m: int)
    requires
        -m <= a <= m,
        -m <= b <= m,
    ensures
        -(m * m) <= a * b <= m * m,
{
    assert(-(m * m) <= a * b <= m * m) by (nonlinear_arith)
        requires
            -m <= a <= m,
            -m <= b <= m,
    ;
}

/// A quotient by a positive number grows with the dividend, and a
/// quotient by a negative number falls with it.
pub proof fn lemma_quot_ordered(x: int, y: int, z: int)
    requires
        x <= y,
        z != 0,
    ensures
        z > 0 ==> quot(x, z) <= quot(y, z),
        z < 0 ==> quot(x, z) >= quot(y, z),
{
    let m = magnitude(z);
    if x >= 0 {
        vstd::arithmetic::div_mod::lemma_div_is_ordered(x, y, m);
        vstd::arithmetic::div_mod::lemma_div_is_ordered(0, x, m);
    } else if y >= 0 {
        vstd::arithmetic::div_mod::lemma_div_is_ordered(0, -x, m);
        vstd::arithmetic::div_mod::lemma_div_is_ordered(0, y, m);
    } else {
        vstd::arithmetic::div_mod::lemma_div_is_ordered(-y, -x, m);
        vstd::arithmetic::div_mod::lemma_div_is_ordered(0, -y, m);
    }
}

/// Division by a positive number keeps the order of the dividends.
pub proof fn lemma_div_monotone(a: Fixed, b: Fixed, d: Fixed)
    requires
        a.raw <= b.raw,
        d.raw > 0,
    ensures
        a.div_spec(d).raw <= b.div_spec(d).raw,
{
    lemma_quot_ordered(a.raw * 1_000_000, b.raw * 1_000_000, d.raw as int);
}

/// Division keeps the order of the dividends where the divisor is not
/// negative, and turns it round where the divisor is negative.
pub proof fn lemma_div_ordered(a: Fixed, b: Fixed, d: Fixed)
    requires
        a.raw <= b.raw,
    ensures
        d.raw >= 0 ==> a.div_spec(d).raw <= b.div_spec(d).raw,
        d.raw < 0 ==> a.div_spec(d).raw >= b.div_spec(d).raw,
{
    if d.raw != 0 {
        lemma_quot_ordered(a.raw * 1_000_000, b.raw * 1_000_000, d.raw as int);
    }
}

/// Multiplying by one changes nothing.
pub proof fn lemma_mul_one(a: Fixed)
    ensures
        a.mul_spec(Fixed::one_spec()) == a,
        Fixed::one_spec().mul_spec(a) == a,
{
    let n = a.raw as int;
    if n >= 0 {
        assert((n * 1_000_000) / 1_000_000 == n);
        assert((1_000_000 * n) / 1_000_000 == n);
    } else {
        assert(((-n) * 1_000_000) / 1_000_000 == -n);
        assert(-(n * 1_000_000) == (-n) * 1_000_000);
        assert(-(1_000_000 * n) == (-n) * 1_000_000);
    }
}

/// Multiplication by a number that is not negative keeps the order of the
/// other factors, and multiplication by a number that is not positive
/// turns it round.
pub proof fn lemma_mul_ordered(a: Fixed, b: Fixed, k: Fixed)
    requires
        a.raw <= b.raw,
    ensures
        k.raw >= 0 ==> a.mul_spec(k).raw <= b.mul_spec(k).raw && k.mul_spec(a).raw <= k.mul_spec(
            b,
        ).raw,
        k.raw <= 0 ==> a.mul_spec(k).raw >= b.mul_spec(k).raw && k.mul_spec(a).raw >= k.mul_spec(
            b,
        ).raw,
{
    let x = a.raw as int;
    let y = b.raw as int;
    let z = k.raw as int;
    assert(x * z == z * x && y * z == z * y) by (nonlinear_arith);
    if z >= 0 {
        assert(x * z <= y * z) by (nonlinear_arith)
            requires
                x <= y,
                z >= 0,
        ;
    }
    if z <= 0 {
        assert(x * z >= y * z) by (nonlinear_arith)
            requires
                x <= y,
                z <= 0,
        ;
    }
}

/// A number multiplied by a number of `[0, 1]` lies between zero and
/// itself.
pub proof fn lemma_mul_fraction_signed(a: Fixed, b: Fixed)
    requires
        0 <= a.raw <= SCALE,
    ensures
        b.raw >= 0 ==> 0 <= a.mul_spec(b).raw <= b.raw,
        b.raw <= 0 ==> b.raw <= a.mul_spec(b).raw <= 0,
{
    if b.raw >= 0 {
        lemma_mul_fraction(a, b);
    } else {
        let x = a.raw as int;
        let y = -(b.raw as int);
        assert(0 <= x * y <= 1_000_000 * y && x * (-y) == -(x * y)) by (nonlinear_arith)
            requires
                0 <= x <= 1_000_000,
                0 <= y,
        ;
        assert((x * y) / 1_000_000 <= y);
    }
}

/// The square root of a number that is at most one is at most one.
pub proof fn lemma_sqrt_fraction(a: Fixed)
    requires
        a.raw <= SCALE,
    ensures
        0 <= a.sqrt_spec().raw <= SCALE,
{
    if a.raw > 0 {
        let n = a.raw * 1_000_000;
        lemma_floor_sqrt_exists(n);
        let r = floor_sqrt(n);
        assert(r <= 1_000_000) by (nonlinear_arith)
            requires
                0 <= r,
                r * r <= n,
                n <= 1_000_000 * 1_000_000,
        ;
    }
}

/// Zero times a number is zero, and zero divided by a number is zero.
pub proof fn lemma_zero(a: Fixed)
    ensures
        Fixed::zero_spec().mul_spec(a) == Fixed::zero_spec(),
        a.mul_spec(Fixed::zero_spec()) == Fixed::zero_spec(),
        Fixed::zero_spec().div_spec(a) == Fixed::zero_spec(),
{
    let x = a.raw as int;
    assert(0int * x == 0 && x * 0int == 0) by (nonlinear_arith);
    if x != 0 {
        let m = magnitude(x);
        assert(0int / m == 0) by (nonlinear_arith)
            requires
                m > 0,
        ;
    }
}

/// A positive number divided by itself is one.
pub proof fn lemma_div_self(a: Fixed)
    requires
        a.raw > 0,
    ensures
        a.div_spec(a) == Fixed::one_spec(),
{
    let x = a.raw as int;
    assert((x * 1_000_000) / x == 1_000_000) by (nonlinear_arith)
        requires
            x > 0,
    ;
}

/// Products and quotients of numbers that are not negative are not
/// negative.
pub proof fn lemma_not_negative(a: Fixed, b: Fixed)
    requires
        a.raw >= 0,
        b.raw >= 0,
    ensures
        a.mul_spec(b).raw >= 0,
        a.div_spec(b).raw >= 0,
        a.add_spec(b).raw >= 0,
{
    let x = a.raw as int;
    let y = b.raw as int;
    assert(x * y >= 0) by (nonlinear_arith)
        requires
            x >= 0,
            y >= 0,
    ;
    if y > 0 {
        assert((x * 1_000_000) / y >= 0) by (nonlinear_arith)
            requires
                x >= 0,
                y > 0,
        ;
    }
}

/// A number that is not negative, divided by a positive number that is not
/// smaller, gives a number of `[0, 1]`.
pub proof fn lemma_div_fraction(a: Fixed, b: Fixed)
    requires
        0 <= a.raw <= b.raw,
        b.raw > 0,
    ensures
        0 <= a.div_spec(b).raw <= SCALE,
{
    let x = a.raw as int;
    let y = b.raw as int;
    assert(0 <= (x * 1_000_000) / y <= 1_000_000) by (nonlinear_arith)
        requires
            0 <= x <= y,
            y > 0,
    ;
}

/// A number that is not negative, multiplied by a number of `[0, 1]`,
/// stays between zero and itself.
pub proof fn lemma_mul_fraction(a: Fixed, b: Fixed)
    requires
        0 <= a.raw <= SCALE,
        0 <= b.raw,
    ensures
        0 <= a.mul_spec(b).raw <= b.raw,
        0 <= b.mul_spec(a).raw <= b.raw,
{
    let x = a.raw as int;
    let y = b.raw as int;
    assert(0 <= x * y <= 1_000_000 * y && x * y == y * x) by (nonlinear_arith)
        requires
            0 <= x <= 1_000_000,
            0 <= y,
    ;
    assert((x * y) / 1_000_000 <= y);
    assert(0 <= (x * y) / 1_000_000);
}

fn scale_up(x: i64) -> (r: i128)
    ensures
        r == x * SCALE,
{
    (x as i128) * 1_000_000
}

fn clamp_raw(x: i128) -> (r: i64)
    ensures
        r == sat(x as int),
{
    if x > RAW_MAX as i128 {
        RAW_MAX
    } else if x < RAW_MIN as i128 {
        RAW_MIN
    } else {
        x as i64
    }
}

fn magnitude_wide(x: i128) -> (r: u128)
    requires
        x > i128::MIN,
    ensures
        r == magnitude(x as int),
{
    if x < 0 {
        (-x) as u128
    } else {
        x as u128
    }
}

fn quot_wide(n: i128, d: i128) -> (q: i128)
    requires
        n > i128::MIN,
        d > i128::MIN,
        d != 0,
    ensures
        q == quot(n as int, d as int),
{
    let an: u128 = magnitude_wide(n);
    let ad: u128 = magnitude_wide(d);
    let aq: u128 = an / ad;
    assert(aq <= an) by (nonlinear_arith)
        requires
            aq == an / ad,
            ad >= 1,
    ;
    if (n < 0) == (d < 0) {
        aq as i128
    } else {
        -(aq as i128)
    }
}

/// Square root of `n`, rounded down.
fn floor_sqrt_wide(n: u128) -> (r: u64)
    requires
        n < 0x10_0000_0000_0000_0000_0000,
    ensures
        r == floor_sqrt(n as int),
        is_floor_sqrt(n as int, r as int),
{
    let mut lo: u128 = 0;
    let mut hi: u128 = 0x400_0000_0000;
    while hi - lo > 1
        invariant
            lo < hi <= 0x400_0000_0000,
            lo * lo <= n,
            n < hi * hi,
        decreases hi - lo,
    {
        let mid: u128 = lo + (hi - lo) / 2;
        assert(mid * mid < 0x10_0000_0000_0000_0000_0000) by (nonlinear_arith)
            requires
                mid < 0x400_0000_0000,
        ;
        if mid * mid <= n {
            lo = mid;
        } else {
            hi = mid;
        }
    }
    proof {
        assert(hi == lo + 1);
        lemma_floor_sqrt_unique(n as int, lo as int);
    }
    lo as u64
}

impl Fixed {
    /// Zero.
    pub open spec fn zero_spec() -> Fixed {
        Fixed { raw: 0 }
    }

    /// One.
    pub open spec fn one_spec() -> Fixed {
        Fixed { raw: SCALE }
    }

    /// The whole number `n`, clamped.
    pub open spec fn from_int_spec(n: i64) -> Fixed {
        Fixed { raw: sat(n * SCALE) as i64 }
    }

    /// `n / d`, rounded toward zero and clamped.
    pub open spec fn from_ratio_spec(n: i64, d: i64) -> Fixed {
        if d == 0 {
            Fixed { raw: 0 }
        } else {
            Fixed { raw: sat(quot(n * SCALE, d as int)) as i64 }
        }
    }

    /// Sum, clamped.
    pub open spec fn add_spec(self, other: Fixed) -> Fixed {
        Fixed { raw: sat(self.raw + other.raw) as i64 }
    }

    /// Difference, clamped.
    pub open spec fn sub_spec(self, other: Fixed) -> Fixed {
        Fixed { raw: sat(self.raw - other.raw) as i64 }
    }

    /// Negation, clamped.
    pub open spec fn neg_spec(self) -> Fixed {
        Fixed { raw: sat(-self.raw) as i64 }
    }

    /// Product, rounded toward zero and clamped.
    pub open spec fn mul_spec(self, other: Fixed) -> Fixed {
        Fixed { raw: sat(scaled_down(self.raw * other.raw)) as i64 }
    }

    /// Quotient, rounded toward zero and clamped. Division by zero gives the
    /// end of the range on the dividend's side, and zero for zero by zero.
    pub open spec fn div_spec(self, other: Fixed) -> Fixed {
        if other.raw == 0 {
            if self.raw > 0 {
                Fixed { raw: RAW_MAX }
            } else if self.raw < 0 {
                Fixed { raw: RAW_MIN }
            } else {
                Fixed { raw: 0 }
            }
        } else {
            Fixed { raw: sat(quot(self.raw * SCALE, other.raw as int)) as i64 }
        }
    }

    /// Square root, rounded down; zero for a number that is not positive.
    pub open spec fn sqrt_spec(self) -> Fixed {
        if self.raw <= 0 {
            Fixed { raw: 0 }
        } else {
            Fixed { raw: floor_sqrt(self.raw * SCALE) as i64 }
        }
    }

    /// Magnitude, clamped.
    pub open spec fn abs_spec(self) -> Fixed {
        if self.raw < 0 {
            self.neg_spec()
        } else {
            self
        }
    }

    /// The smaller of two numbers.
    pub open spec fn min_spec(self, other: Fixed) -> Fixed {
        if self.raw <= other.raw {
            self
        } else {
            other
        }
    }

    /// The larger of two numbers.
    pub open spec fn max_spec(self, other: Fixed) -> Fixed {
        if self.raw >= other.raw {
            self
        } else {
            other
        }
    }

    /// The number brought into `[lo, hi]`; `lo` wins where the bounds cross.
    pub open spec fn clamp_spec(self, lo: Fixed, hi: Fixed) -> Fixed {
        if self.raw < lo.raw {
            lo
        } else if self.raw > hi.raw {
            hi
        } else {
            self
        }
    }

    /// The whole part, rounded toward zero.
    pub open spec fn trunc_spec(self) -> int {
        scaled_down(self.raw as int)
    }

    /// Zero.
    pub fn zero() -> (r: Fixed)
        ensures
            r == Fixed::zero_spec(),
    {
        Fixed { raw: 0 }
    }

    /// One.
    pub fn one() -> (r: Fixed)
        ensures
            r == Fixed::one_spec(),
    {
        Fixed { raw: SCALE }
    }

    /// The number of `raw` millionths.
    pub fn from_raw(raw: i64) -> (r: Fixed)
        ensures
            r.raw == raw,
    {
        Fixed { raw }
    }

    /// The whole number `n`, clamped.
    pub fn from_int(n: i64) -> (r: Fixed)
        ensures
            r == Fixed::from_int_spec(n),
    {
        let wide: i128 = scale_up(n);
        Fixed { raw: clamp_raw(wide) }
    }

    /// `n / d`, rounded toward zero and clamped; zero where `d` is zero.
    pub fn from_ratio(n: i64, d: i64) -> (r: Fixed)
        ensures
            r == Fixed::from_ratio_spec(n, d),
    {
        if d == 0 {
            Fixed { raw: 0 }
        } else {
            let wide: i128 = scale_up(n);
            Fixed { raw: clamp_raw(quot_wide(wide, d as i128)) }
        }
    }

    /// Sum, clamped.
    pub fn add(self, other: Fixed) -> (r: Fixed)
        ensures
            r == self.add_spec(other),
    {
        Fixed { raw: clamp_raw(self.raw as i128 + other.raw as i128) }
    }

    /// Difference, clamped.
    pub fn sub(self, other: Fixed) -> (r: Fixed)
        ensures
            r == self.sub_spec(other),
    {
        Fixed { raw: clamp_raw(self.raw as i128 - other.raw as i128) }
    }

    /// Negation, clamped.
    pub fn neg(self) -> (r: Fixed)
        ensures
            r == self.neg_spec(),
    {
        Fixed { raw: clamp_raw(-(self.raw as i128)) }
    }

    /// Product, rounded toward zero and clamped.
    pub fn mul(self, other: Fixed) -> (r: Fixed)
        ensures
            r == self.mul_spec(other),
    {
        let a: i128 = self.raw as i128;
        let b: i128 = other.raw as i128;
        proof {
            lemma_product_bound(a as int, b as int, 0x8000_0000_0000_0000);
        }
        let wide: i128 = a * b;
        Fixed { raw: clamp_raw(quot_wide(wide, SCALE as i128)) }
    }

    /// Quotient, rounded toward zero and clamped; total, see [`Fixed::div_spec`].
    pub fn div(self, other: Fixed) -> (r: Fixed)
        ensures
            r == self.div_spec(other),
    {
        if other.raw == 0 {
            if self.raw > 0 {
                Fixed { raw: RAW_MAX }
            } else if self.raw < 0 {
                Fixed { raw: RAW_MIN }
            } else {
                Fixed { raw: 0 }
            }
        } else {
            let wide: i128 = scale_up(self.raw);
            Fixed { raw: clamp_raw(quot_wide(wide, other.raw as i128)) }
        }
    }

    /// Square root, rounded down; zero for a number that is not positive.
    pub fn sqrt(self) -> (r: Fixed)
        ensures
            r == self.sqrt_spec(),
            r.raw >= 0,
    {
        if self.raw <= 0 {
            Fixed { raw: 0 }
        } else {
            let wide: u128 = (self.raw as u128) * (SCALE as u128);
            let root: u64 = floor_sqrt_wide(wide);
            assert(root < 0x400_0000_0000) by (nonlinear_arith)
                requires
                    root * root <= wide,
                    wide < 0x10_0000_0000_0000_0000_0000,
            ;
            Fixed { raw: root as i64 }
        }
    }

    /// Magnitude, clamped.
    pub fn abs(self) -> (r: Fixed)
        ensures
            r == self.abs_spec(),
            r.raw >= 0,
    {
        if self.raw < 0 {
            self.neg()
        } else {
            self
        }
    }

    /// The smaller of two numbers.
    pub fn min(self, other: Fixed) -> (r: Fixed)
        ensures
            r == self.min_spec(other),
    {
        if self.raw <= other.raw {
            self
        } else {
            other
        }
    }

    /// The larger of two numbers.
    pub fn max(self, other: Fixed) -> (r: Fixed)
        ensures
            r == self.max_spec(other),
    {
        if self.raw >= other.raw {
            self
        } else {
            other
        }
    }

    /// The number brought into `[lo, hi]`.
    pub fn clamp(self, lo: Fixed, hi: Fixed) -> (r: Fixed)
        ensures
            r == self.clamp_spec(lo, hi),
    {
        if self.raw < lo.raw {
            lo
        } else if self.raw > hi.raw {
            hi
        } else {
            self
        }
    }

    /// The whole part, rounded toward zero.
    pub fn trunc(self) -> (r: i64)
        ensures
            r == self.trunc_spec(),
    {
        quot_wide(self.raw as i128, SCALE as i128) as i64
    }
}

} // verus!
