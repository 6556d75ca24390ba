//! Angles from coordinates, in radians.
//!
//! The arc tangent is a cubic fitted to it on `[0, 1]`, within 0.0015 of
//! the true value there; the other functions reduce to it.
use vstd::prelude::*;
use crate::fixed::{
    lemma_div_fraction, lemma_mul_fraction, lemma_sqrt_nonneg, lemma_zero, Fixed, HALF_PI_RAW,
    PI_RAW, QUARTER_PI_RAW, SCALE,
};

verus! {

/// Raw value of the cubic's second coefficient.
pub const BEND_RAW: i64 = 244_700;

/// Raw value of the cubic's third coefficient.
pub const TWIST_RAW: i64 = 66_300;

/// The fitted arc tangent of `z`, for `z` in `[0, 1]`:
/// `z pi/4 + z (1 - z) (0.2447 + 0.0663 z)`.
pub open spec fn atan_unit_spec(z: Fixed) -> Fixed {
    let one = Fixed::one_spec();
    let line = z.mul_spec(Fixed { raw: QUARTER_PI_RAW });
    let curve = z.mul_spec(one.sub_spec(z)).mul_spec(
        Fixed { raw: BEND_RAW }.add_spec(z.mul_spec(Fixed { raw: TWIST_RAW })),
    );
    line.add_spec(curve)
}

/// The angle of the point `(x, y)` against the positive `x` axis, in
/// `[-pi, pi]`; zero for the origin.
pub open spec fn atan2_spec(y: Fixed, x: Fixed) -> Fixed {
    let ax = x.abs_spec();
    let ay = y.abs_spec();
    let first = if ax.raw == 0 && ay.raw == 0 {
        Fixed::zero_spec()
    } else if ax.raw >= ay.raw {
        atan_unit_spec(ay.div_spec(ax))
    } else {
        Fixed { raw: HALF_PI_RAW }.sub_spec(atan_unit_spec(ax.div_spec(ay)))
    };
    let upper = if x.raw < 0 {
        Fixed { raw: PI_RAW }.sub_spec(first)
    } else {
        first
    };
    if y.raw < 0 {
        upper.neg_spec()
    } else {
        upper
    }
}

/// Raw value of a full turn: twice [`PI_RAW`], the span of the angles that
/// [`atan2_spec`] gives.
pub const FULL_TURN_RAW: i64 = 6_283_184;

/// The angle of the point `(x, y)` against the negative `x` axis, in
/// `[0, 2 pi)`: `atan2(y, x) + pi`, where a full turn counts as none. A
/// point of the negative `x` axis itself has the angle zero.
pub open spec fn turn_spec(y: Fixed, x: Fixed) -> Fixed {
    let phi = atan2_spec(y, x).add_spec(Fixed { raw: PI_RAW });
    if phi.raw >= FULL_TURN_RAW {
        Fixed::zero_spec()
    } else {
        phi
    }
}

/// The angle in `[0, pi]` whose cosine is `c`, with `c` brought into
/// `[-1, 1]` first.
pub open spec fn acos_spec(c: Fixed) -> Fixed {
    let one = Fixed::one_spec();
    let cc = c.clamp_spec(one.neg_spec(), one);
    atan2_spec(one.sub_spec(cc.mul_spec(cc)).sqrt_spec(), cc)
}

/// The fitted arc tangent of a number of `[0, 1]` lies between zero and a
/// right angle.
pub proof fn lemma_atan_unit_range(z: Fixed)
    requires
        0 <= z.raw <= SCALE,
    ensures
        0 <= atan_unit_spec(z).raw <= QUARTER_PI_RAW + BEND_RAW + TWIST_RAW,
{
    let one = Fixed::one_spec();
    let rest = one.sub_spec(z);
    lemma_mul_fraction(z, Fixed { raw: QUARTER_PI_RAW });
    lemma_mul_fraction(z, rest);
    lemma_mul_fraction(z, Fixed { raw: TWIST_RAW });
    let inner = Fixed { raw: BEND_RAW }.add_spec(z.mul_spec(Fixed { raw: TWIST_RAW }));
    lemma_mul_fraction(z.mul_spec(rest), inner);
}

/// An angle lies in `[-pi, pi]`, and in `[0, pi]` for a point that is not
/// below the `x` axis.
pub proof fn lemma_atan2_range(y: Fixed, x: Fixed)
    ensures
        -PI_RAW <= atan2_spec(y, x).raw <= PI_RAW,
        y.raw >= 0 ==> atan2_spec(y, x).raw >= 0,
{
    let ax = x.abs_spec();
    let ay = y.abs_spec();
    if ax.raw == 0 && ay.raw == 0 {
    } else if ax.raw >= ay.raw {
        lemma_div_fraction(ay, ax);
        lemma_atan_unit_range(ay.div_spec(ax));
    } else {
        lemma_div_fraction(ax, ay);
        lemma_atan_unit_range(ax.div_spec(ay));
    }
}

/// The angle against the negative `x` axis lies in `[0, 2 pi)`, and is
/// zero on that axis.
pub proof fn lemma_turn_range(y: Fixed, x: Fixed)
    ensures
        0 <= turn_spec(y, x).raw < FULL_TURN_RAW,
        y.raw == 0 && x.raw < 0 ==> turn_spec(y, x) == Fixed::zero_spec(),
{
    lemma_atan2_range(y, x);
    if y.raw == 0 && x.raw < 0 {
        let ax = x.abs_spec();
        lemma_zero(ax);
        lemma_zero(Fixed { raw: QUARTER_PI_RAW });
        lemma_zero(Fixed { raw: TWIST_RAW });
        lemma_zero(Fixed::one_spec());
        lemma_zero(Fixed { raw: BEND_RAW });
        assert(atan_unit_spec(Fixed::zero_spec()) == Fixed::zero_spec());
        assert(atan2_spec(y, x).raw == PI_RAW);
    }
}

/// An arc cosine lies in `[0, pi]`.
pub proof fn lemma_acos_range(c: Fixed)
    ensures
        0 <= acos_spec(c).raw <= PI_RAW,
{
    let one = Fixed::one_spec();
    let cc = c.clamp_spec(one.neg_spec(), one);
    lemma_sqrt_nonneg(one.sub_spec(cc.mul_spec(cc)));
    lemma_atan2_range(one.sub_spec(cc.mul_spec(cc)).sqrt_spec(), cc);
}

/// The fitted arc tangent of a number of `[0, 1]`.
pub fn atan_unit(z: Fixed) -> (r: Fixed)
    ensures
        r == atan_unit_spec(z),
{
    let one = Fixed::one();
    let line = z.mul(Fixed { raw: QUARTER_PI_RAW });
    let curve = z.mul(one.sub(z)).mul(Fixed { raw: BEND_RAW }.add(z.mul(Fixed { raw: TWIST_RAW })));
    line.add(curve)
}

/// The angle of the point `(x, y)` against the positive `x` axis.
pub fn atan2(y: Fixed, x: Fixed) -> (r: Fixed)
    ensures
        r == atan2_spec(y, x),
{
    let ax = x.abs();
    let ay = y.abs();
    let first = if ax.raw == 0 && ay.raw == 0 {
        Fixed::zero()
    } else if ax.raw >= ay.raw {
        atan_unit(ay.div(ax))
    } else {
        Fixed { raw: HALF_PI_RAW }.sub(atan_unit(ax.div(ay)))
    };
    let upper = if x.raw < 0 {
        Fixed { raw: PI_RAW }.sub(first)
    } else {
        first
    };
    if y.raw < 0 {
        upper.neg()
    } else {
        upper
    }
}

/// The angle of the point `(x, y)` against the negative `x` axis.
pub fn turn(y: Fixed, x: Fixed) -> (r: Fixed)
    ensures
        r == turn_spec(y, x),
        0 <= r.raw < FULL_TURN_RAW,
        y.raw == 0 && x.raw < 0 ==> r.raw == 0,
{
    proof {
        lemma_turn_range(y, x);
    }
    let phi = atan2(y, x).add(Fixed { raw: PI_RAW });
    if phi.raw >= FULL_TURN_RAW {
        Fixed::zero()
    } else {
        phi
    }
}

/// The angle whose cosine is `c`.
pub fn acos(c: Fixed) -> (r: Fixed)
    ensures
        r == acos_spec(c),
{
    let one = Fixed::one();
    let cc = c.clamp(one.neg(), one);
    atan2(one.sub(cc.mul(cc)).sqrt(), cc)
}

} // verus!
