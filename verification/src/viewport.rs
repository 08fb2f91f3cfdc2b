//! The rectangle of the plane that a grid samples, and the point that each
//! pixel stands for.

use crate::complex::{Complex, Point};
use crate::fixed::Fixed;
use vstd::prelude::*;

verus! {

/// A rectangle of the plane in raw counts: the model of a [`Viewport`].
pub struct Region {
    pub x_min: int,
    pub x_max: int,
    pub y_min: int,
    pub y_max: int,
}

impl Region {
    /// Whether the rectangle has an interior: `x_min < x_max` and
    /// `y_min < y_max`.
    pub open spec fn proper(self) -> bool {
        self.x_min < self.x_max && self.y_min < self.y_max
    }
}

/// The coordinate that lies `k` `n`-ths of the way from `lo` to `hi`,
/// rounded down to a multiple of 2^-48.
pub open spec fn interpolate(lo: int, hi: int, k: nat, n: nat) -> int {
    lo + (hi - lo) * k / (n as int)
}

/// The point that pixel `(px, py)` of a `width` by `height` grid stands
/// for. The fractions are taken of the full extents, so the last column and
/// the last row lie strictly inside the region.
pub open spec fn point_at(region: Region, px: nat, py: nat, width: nat, height: nat) -> Point {
    Point {
        re: interpolate(region.x_min, region.x_max, px, width),
        im: interpolate(region.y_min, region.y_max, py, height),
    }
}

/// A rectangle of the complex plane with `x_min < x_max` and `y_min < y_max`.
#[derive(Clone, Copy, Debug, PartialEq, Eq, Hash)]
pub struct Viewport {
    x_min: Fixed,
    x_max: Fixed,
    y_min: Fixed,
    y_max: Fixed,
}

impl View for Viewport {
    type V = Region;

    closed spec fn view(&self) -> Region {
        Region { x_min: self.x_min@, x_max: self.x_max@, y_min: self.y_min@, y_max: self.y_max@ }
    }
}

/// An interpolated coordinate lies within the interval, short of its end.
pub proof fn lemma_interpolate_range(lo: int, hi: int, k: nat, n: nat)
    by (nonlinear_arith)
    requires
        lo < hi,
        k < n,
    ensures
        lo <= interpolate(lo, hi, k, n) < hi,
        k == 0 ==> interpolate(lo, hi, k, n) == lo,
{
}

/// The coordinate `k` `n`-ths of the way from `lo` to `hi`.
fn interpolate_exec(lo: Fixed, hi: Fixed, k: usize, n: usize) -> (r: Fixed)
    requires
        lo@ < hi@,
        k < n,
    ensures
        r@ == interpolate(lo@, hi@, k as nat, n as nat),
{
    let span: u128 = (hi.bits as i128 - lo.bits as i128) as u128;
    proof {
        lemma_interpolate_range(lo@, hi@, k as nat, n as nat);
        assert(span * k <= 0xffff_ffff_ffff_ffff * 0xffff_ffff_ffff_ffff) by (nonlinear_arith)
            requires
                span <= 0xffff_ffff_ffff_ffff,
                k <= 0xffff_ffff_ffff_ffff,
        ;
    }
    let offset: u128 = span * (k as u128) / (n as u128);
    Fixed { bits: (lo.bits as i128 + offset as i128) as i64 }
}

impl Viewport {
    /// The rectangle with the given bounds, or `None` unless
    /// `x_min < x_max` and `y_min < y_max`.
    pub fn new(x_min: Fixed, x_max: Fixed, y_min: Fixed, y_max: Fixed) -> (r: Option<Viewport>)
        ensures
            r is Some <==> x_min@ < x_max@ && y_min@ < y_max@,
            r matches Some(v) ==> v@.proper(),
            r matches Some(v) ==> v@ == (Region {
                x_min: x_min@,
                x_max: x_max@,
                y_min: y_min@,
                y_max: y_max@,
            }),
    {
        if x_min.bits < x_max.bits && y_min.bits < y_max.bits {
            Some(Viewport { x_min, x_max, y_min, y_max })
        } else {
            None
        }
    }

    #[verifier::type_invariant]
    spec fn well_formed(self) -> bool {
        self.x_min@ < self.x_max@ && self.y_min@ < self.y_max@
    }

    /// The left edge.
    pub fn x_min(&self) -> (r: Fixed)
        ensures
            r@ == self@.x_min,
            self@.proper(),
    {
        proof {
            use_type_invariant(self);
        }
        self.x_min
    }

    /// The right edge.
    pub fn x_max(&self) -> (r: Fixed)
        ensures
            r@ == self@.x_max,
            self@.proper(),
    {
        proof {
            use_type_invariant(self);
        }
        self.x_max
    }

    /// The edge of row 0.
    pub fn y_min(&self) -> (r: Fixed)
        ensures
            r@ == self@.y_min,
            self@.proper(),
    {
        proof {
            use_type_invariant(self);
        }
        self.y_min
    }

    /// The edge beyond the last row.
    pub fn y_max(&self) -> (r: Fixed)
        ensures
            r@ == self@.y_max,
            self@.proper(),
    {
        proof {
            use_type_invariant(self);
        }
        self.y_max
    }

    /// The point that pixel `(px, py)` of a `width` by `height` grid
    /// stands for.
    pub fn map(&self, px: usize, py: usize, width: usize, height: usize) -> (c: Complex)
        requires
            px < width,
            py < height,
        ensures
            c@ == point_at(self@, px as nat, py as nat, width as nat, height as nat),
            self@.x_min <= c@.re < self@.x_max,
            self@.y_min <= c@.im < self@.y_max,
    {
        proof {
            use_type_invariant(self);
            lemma_interpolate_range(self@.x_min, self@.x_max, px as nat, width as nat);
            lemma_interpolate_range(self@.y_min, self@.y_max, py as nat, height as nat);
        }
        Complex {
            re: interpolate_exec(self.x_min, self.x_max, px, width),
            im: interpolate_exec(self.y_min, self.y_max, py, height),
        }
    }
}

} // verus!
