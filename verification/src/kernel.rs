//! The escape-time kernel: how many steps the orbit of a point stays
//! within the bailout radius.

use crate::complex::{conjugate, norm_sqr_wide, product, sum, Complex, Point};
use crate::fixed::{fits, lemma_toward_zero_odd, lemma_toward_zero_range, SCALE};
use vstd::prelude::*;

verus! {

/// The squared bailout radius, the number four, in units of 2^-96.
pub const BAILOUT_SQR: u128 = 0x4_0000_0000_0000_0000_0000_0000;

/// One step of the orbit of `c`: `z·z + c`.
pub open spec fn step(z: Point, c: Point) -> Point {
    sum(product(z, z), c)
}

/// The `n`-th point of the orbit of `c`, which starts at the origin.
pub open spec fn orbit(c: Point, n: nat) -> Point
    decreases n,
{
    if n == 0 {
        Point { re: 0, im: 0 }
    } else {
        step(orbit(c, (n - 1) as nat), c)
    }
}

/// Whether `z` lies outside the bailout radius: its squared magnitude,
/// taken exactly, exceeds four.
pub open spec fn escaped(z: Point) -> bool {
    norm_sqr_wide(z) > BAILOUT_SQR
}

/// Whether none of the first `n` points of the orbit of `c` has escaped.
pub open spec fn bounded_before(c: Point, n: nat) -> bool {
    forall|j: nat| j < n ==> !escaped(#[trigger] orbit(c, j))
}

/// Whether `t` is the escape time of `c` under `budget`: the index of the
/// first orbit point that has escaped, or `budget` where none of the points
/// before index `budget` has.
pub open spec fn is_escape_time(c: Point, budget: nat, t: nat) -> bool {
    &&& t <= budget
    &&& bounded_before(c, t)
    &&& t < budget ==> escaped(orbit(c, t))
}

/// The escape time of `c` under `budget`.
pub open spec fn escape_time(c: Point, budget: nat) -> nat
    decreases budget,
{
    if budget == 0 {
        0
    } else {
        let earlier = escape_time(c, (budget - 1) as nat);
        if earlier < budget - 1 {
            earlier
        } else if escaped(orbit(c, (budget - 1) as nat)) {
            (budget - 1) as nat
        } else {
            budget
        }
    }
}

/// `escape_time` is an escape time.
pub proof fn lemma_escape_time_holds(c: Point, budget: nat)
    ensures
        is_escape_time(c, budget, escape_time(c, budget)),
    decreases budget,
{
    if budget > 0 {
        lemma_escape_time_holds(c, (budget - 1) as nat);
    }
}

/// There is no other escape time than `escape_time`.
pub proof fn lemma_escape_time_unique(c: Point, budget: nat, t: nat)
    requires
        is_escape_time(c, budget, t),
    ensures
        t == escape_time(c, budget),
{
    lemma_escape_time_holds(c, budget);
    let u = escape_time(c, budget);
    if t < u {
        assert(!escaped(orbit(c, t)));
    } else if u < t {
        assert(!escaped(orbit(c, u)));
    }
}

/// The orbit of the origin stays at the origin.
pub proof fn lemma_origin_orbit(n: nat)
    ensures
        orbit(Point { re: 0, im: 0 }, n) == (Point { re: 0, im: 0 }),
    decreases n,
{
    if n > 0 {
        lemma_origin_orbit((n - 1) as nat);
    }
}

/// The origin never escapes: under every budget its escape time is the
/// budget itself.
pub proof fn lemma_origin_never_escapes(budget: nat)
    ensures
        escape_time(Point { re: 0, im: 0 }, budget) == budget,
{
    let o = Point { re: 0, im: 0 };
    assert forall|j: nat| j < budget implies !escaped(#[trigger] orbit(o, j)) by {
        lemma_origin_orbit(j);
    }
    lemma_escape_time_unique(o, budget, budget);
}

/// A point that itself lies outside the bailout radius escapes at the first
/// step, whatever the budget, provided that there is a first step.
pub proof fn lemma_outside_escapes_at_once(c: Point, budget: nat)
    requires
        escaped(c),
        budget >= 1,
    ensures
        escape_time(c, budget) == 1,
{
    assert(orbit(c, 0) == (Point { re: 0, im: 0 }));
    assert(orbit(c, 1) == step(orbit(c, 0), c));
    assert(orbit(c, 1) == c);
    lemma_escape_time_unique(c, budget, 1);
}

/// A point and its mirror image in the real axis lie on the same side of the
/// bailout radius.
pub proof fn lemma_conjugate_escaped(z: Point)
    ensures
        escaped(conjugate(z)) == escaped(z),
{
    assert((-z.im) * (-z.im) == z.im * z.im) by (nonlinear_arith);
}

/// A step from the mirror image of a point, in the orbit of the mirror image
/// of `c`, leads to the mirror image of the step.
pub proof fn lemma_conjugate_step(z: Point, c: Point)
    ensures
        step(conjugate(z), conjugate(c)) == conjugate(step(z, c)),
{
    let a = z.re;
    let b = z.im;
    assert(a * a - (-b) * (-b) == a * a - b * b) by (nonlinear_arith);
    assert(a * (-b) + (-b) * a == -(a * b + b * a)) by (nonlinear_arith);
    lemma_toward_zero_odd(a * b + b * a, SCALE as int);
}

/// The orbit of the mirror image of `c` is the mirror image of the orbit of
/// `c`.
pub proof fn lemma_conjugate_orbit(c: Point, n: nat)
    ensures
        orbit(conjugate(c), n) == conjugate(orbit(c, n)),
    decreases n,
{
    if n > 0 {
        lemma_conjugate_orbit(c, (n - 1) as nat);
        lemma_conjugate_step(orbit(c, (n - 1) as nat), c);
    }
}

/// The escape time is symmetric about the real axis: a point and its mirror
/// image have the same escape time under every budget.
pub proof fn lemma_conjugate_escape_time(c: Point, budget: nat)
    ensures
        escape_time(conjugate(c), budget) == escape_time(c, budget),
{
    let t = escape_time(c, budget);
    lemma_escape_time_holds(c, budget);
    assert forall|j: nat| j < t implies !escaped(#[trigger] orbit(conjugate(c), j)) by {
        lemma_conjugate_orbit(c, j);
        lemma_conjugate_escaped(orbit(c, j));
    }
    if t < budget {
        lemma_conjugate_orbit(c, t);
        lemma_conjugate_escaped(orbit(c, t));
    }
    lemma_escape_time_unique(conjugate(c), budget, t);
}

/// A point within the bailout radius has both coordinates within two.
pub proof fn lemma_within_bailout(z: Point)
    requires
        !escaped(z),
    ensures
        -2 * SCALE <= z.re <= 2 * SCALE,
        -2 * SCALE <= z.im <= 2 * SCALE,
{
    let s = SCALE as int;
    assert(4 * s * s == BAILOUT_SQR) by (nonlinear_arith)
        requires
            s == 0x1_0000_0000_0000,
            BAILOUT_SQR == 0x4_0000_0000_0000_0000_0000_0000,
    ;
    assert(z.re * z.re >= 0 && z.im * z.im >= 0) by (nonlinear_arith);
    assert(-2 * s <= z.re <= 2 * s) by (nonlinear_arith)
        requires
            z.re * z.re <= 4 * s * s,
            s >= 1,
    ;
    assert(-2 * s <= z.im <= 2 * s) by (nonlinear_arith)
        requires
            z.im * z.im <= 4 * s * s,
            s >= 1,
    ;
}

/// The square of a point within the bailout radius is in range.
pub proof fn lemma_square_fits(z: Point)
    requires
        !escaped(z),
    ensures
        fits(product(z, z).re),
        fits(product(z, z).im),
{
    lemma_within_bailout(z);
    let s = SCALE as int;
    let a = z.re;
    let b = z.im;
    assert(0 <= a * a <= 4 * s * s && 0 <= b * b <= 4 * s * s && -4 * s * s <= a * b <= 4 * s * s)
        by (nonlinear_arith)
        requires
            -2 * s <= a <= 2 * s,
            -2 * s <= b <= 2 * s,
            s > 0,
    ;
    assert(b * a == a * b) by (nonlinear_arith);
    assert(8 * s * s == (8 * s) * s && 4 * s * s == (4 * s) * s) by (nonlinear_arith);
    lemma_toward_zero_range(a * a - b * b, s, 4 * s);
    lemma_toward_zero_range(a * b + b * a, s, 8 * s);
}

/// A point with a coordinate out of range lies outside the bailout radius.
pub proof fn lemma_out_of_range_escaped(z: Point)
    requires
        !fits(z.re) || !fits(z.im),
    ensures
        escaped(z),
{
    let m: int = 0x7fff_ffff_ffff_ffff;
    assert(z.re * z.re >= 0 && z.im * z.im >= 0) by (nonlinear_arith);
    if !fits(z.re) {
        assert(z.re * z.re >= m * m) by (nonlinear_arith)
            requires
                z.re > m || z.re < -m,
                m > 0,
        ;
    } else {
        assert(z.im * z.im >= m * m) by (nonlinear_arith)
            requires
                z.im > m || z.im < -m,
                m > 0,
        ;
    }
    assert(m * m > BAILOUT_SQR) by (nonlinear_arith)
        requires
            m == 0x7fff_ffff_ffff_ffff,
            BAILOUT_SQR == 0x4_0000_0000_0000_0000_0000_0000,
    ;
}

/// Whether `z` lies outside the bailout radius.
pub fn has_escaped(z: Complex) -> (b: bool)
    ensures
        b == escaped(z@),
{
    z.norm_sqr_wide() > BAILOUT_SQR
}

/// The escape time of `c`: the index of the first point of its orbit that
/// lies outside the bailout radius, or `budget` where none of the points
/// before index `budget` does.
pub fn escape(c: Complex, budget: usize) -> (t: usize)
    ensures
        t == escape_time(c@, budget as nat),
        is_escape_time(c@, budget as nat, t as nat),
        t <= budget,
{
    let mut z = Complex::zero();
    let mut i: usize = 0;
    while i < budget
        invariant
            i <= budget,
            z@ == orbit(c@, i as nat),
            bounded_before(c@, i as nat),
        decreases budget - i,
    {
        if has_escaped(z) {
            proof {
                lemma_escape_time_unique(c@, budget as nat, i as nat);
            }
            return i;
        }
        proof {
            lemma_square_fits(z@);
            assert(orbit(c@, (i + 1) as nat) == step(z@, c@));
        }
        let next = match z.checked_mul(z) {
            Some(square) => square.checked_add(c),
            None => None,
        };
        match next {
            Some(n) => {
                z = n;
            },
            None => {
                // a point out of range is outside the bailout radius too
                proof {
                    lemma_out_of_range_escaped(step(z@, c@));
                    lemma_escape_time_unique(c@, budget as nat, (i + 1) as nat);
                }
                return i + 1;
            },
        }
        i = i + 1;
    }
    proof {
        lemma_escape_time_unique(c@, budget as nat, budget as nat);
    }
    budget
}

} // verus!
