//! Points of the complex plane with fixed-point coordinates.

use crate::fixed::{div_toward_zero, fits, narrow, toward_zero, Fixed, SCALE};
use vstd::prelude::*;

verus! {

/// A point of the plane as a pair of raw counts: the model of a [`Complex`].
pub struct Point {
    pub re: int,
    pub im: int,
}

/// The sum of two points.
pub open spec fn sum(a: Point, b: Point) -> Point {
    Point { re: a.re + b.re, im: a.im + b.im }
}

/// The product of two points, each coordinate rounded toward zero to a
/// multiple of 2^-48.
pub open spec fn product(a: Point, b: Point) -> Point {
    Point {
        re: toward_zero(a.re * b.re - a.im * b.im, SCALE as int),
        im: toward_zero(a.re * b.im + a.im * b.re, SCALE as int),
    }
}

/// The squared magnitude of a point, exactly, in units of 2^-96.
pub open spec fn norm_sqr_wide(a: Point) -> int {
    a.re * a.re + a.im * a.im
}

/// The squared magnitude of a point, rounded down to a multiple of 2^-48.
pub open spec fn norm_sqr(a: Point) -> int {
    norm_sqr_wide(a) / (SCALE as int)
}

/// The mirror image of a point in the real axis.
pub open spec fn conjugate(a: Point) -> Point {
    Point { re: a.re, im: -a.im }
}

/// `Some` of the point `p` where both coordinates fit, else `None`.
pub open spec fn checked_point(p: Point) -> Option<Complex> {
    if fits(p.re) && fits(p.im) {
        Some(Complex { re: Fixed { bits: p.re as i64 }, im: Fixed { bits: p.im as i64 } })
    } else {
        None
    }
}

/// A complex number `re + im·i`.
#[derive(Clone, Copy, Debug, PartialEq, Eq, Hash)]
pub struct Complex {
    pub re: Fixed,
    pub im: Fixed,
}

impl View for Complex {
    type V = Point;

    open spec fn view(&self) -> Point {
        Point { re: self.re@, im: self.im@ }
    }
}

/// The product of two 64-bit counts stays within 2^126 in magnitude.
pub proof fn lemma_product_range(a: int, b: int)
    by (nonlinear_arith)
    requires
        fits(a),
        fits(b),
    ensures
        -0x4000_0000_0000_0000_0000_0000_0000_0000 < a * b
            <= 0x4000_0000_0000_0000_0000_0000_0000_0000,
{
}

impl Complex {
    /// The number `re + im·i`.
    pub fn new(re: Fixed, im: Fixed) -> (r: Complex)
        ensures
            r.re == re,
            r.im == im,
    {
        Complex { re, im }
    }

    /// The origin of the plane.
    pub fn zero() -> (r: Complex)
        ensures
            r@ == (Point { re: 0, im: 0 }),
    {
        Complex { re: Fixed { bits: 0 }, im: Fixed { bits: 0 } }
    }

    /// The sum, or `None` where a coordinate of it is out of range.
    pub fn checked_add(self, rhs: Complex) -> (r: Option<Complex>)
        ensures
            r == checked_point(sum(self@, rhs@)),
    {
        match (self.re.checked_add(rhs.re), self.im.checked_add(rhs.im)) {
            (Some(re), Some(im)) => Some(Complex { re, im }),
            _ => None,
        }
    }

    /// The product, or `None` where a coordinate of it is out of range.
    pub fn checked_mul(self, rhs: Complex) -> (r: Option<Complex>)
        ensures
            r == checked_point(product(self@, rhs@)),
    {
        proof {
            lemma_product_range(self.re@, rhs.re@);
            lemma_product_range(self.im@, rhs.im@);
            lemma_product_range(self.re@, rhs.im@);
            lemma_product_range(self.im@, rhs.re@);
        }
        let a: i128 = self.re.bits as i128;
        let b: i128 = self.im.bits as i128;
        let c: i128 = rhs.re.bits as i128;
        let d: i128 = rhs.im.bits as i128;
        let re_wide: i128 = a * c - b * d;
        let im_wide: i128 = match (a * d).checked_add(b * c) {
            Some(s) => s,
            None => {
                return None;
            },
        };
        match (narrow(div_toward_zero(re_wide, SCALE as i128)), narrow(div_toward_zero(im_wide, SCALE as i128))) {
            (Some(re), Some(im)) => Some(Complex { re, im }),
            _ => None,
        }
    }

    /// The squared magnitude, exactly, in units of 2^-96.
    pub fn norm_sqr_wide(self) -> (r: u128)
        ensures
            r == norm_sqr_wide(self@),
    {
        proof {
            lemma_product_range(self.re@, self.re@);
            lemma_product_range(self.im@, self.im@);
            assert(self.re@ * self.re@ >= 0 && self.im@ * self.im@ >= 0) by (nonlinear_arith);
        }
        let a: i128 = self.re.bits as i128;
        let b: i128 = self.im.bits as i128;
        (a * a) as u128 + (b * b) as u128
    }

    /// The squared magnitude, rounded down to a multiple of 2^-48, or `None`
    /// where it is out of range.
    pub fn norm_sqr(self) -> (r: Option<Fixed>)
        ensures
            r == crate::fixed::checked(norm_sqr(self@)),
    {
        let q: u128 = self.norm_sqr_wide() / (SCALE as u128);
        if q > i64::MAX as u128 {
            None
        } else {
            Some(Fixed { bits: q as i64 })
        }
    }
}

} // verus!
