//! The zoom: for each frame of an animation, the viewport that it shows and
//! the iteration budget that it is computed under.

use crate::fixed::{fits, Fixed, SCALE};
use crate::root::{
    floor_sqrt, is_floor_sqrt, lemma_floor_sqrt_holds, lemma_floor_sqrt_monotone,
    lemma_floor_sqrt_unique, sqrt,
};
use crate::viewport::{Region, Viewport};
use vstd::prelude::*;

verus! {

/// The number one in units of 2^-32.
pub const ONE_Q32: u128 = 0x1_0000_0000;

/// What an animation is made from: the point that it closes in on, the
/// radii of the first frame, the factor by which each frame divides them,
/// the width of the output in pixels, and the gain of the budget.
#[derive(Clone, Copy, Debug, PartialEq, Eq)]
pub struct ZoomConfig {
    pub x_focus: Fixed,
    pub y_focus: Fixed,
    pub rad_x: Fixed,
    pub rad_y: Fixed,
    pub multiplier: Fixed,
    pub output_width: u32,
    pub gain: Fixed,
}

/// One frame of an animation.
#[derive(Clone, Copy, Debug, PartialEq, Eq)]
pub struct Frame {
    pub index: usize,
    pub viewport: Viewport,
    pub budget: usize,
}

/// The radius `radius` after `n` frames: divided `n` times by
/// `multiplier`, each time rounded down to a multiple of 2^-48.
pub open spec fn contracted(radius: int, multiplier: int, n: nat) -> int
    decreases n,
{
    if n == 0 {
        radius
    } else {
        contracted(radius, multiplier, (n - 1) as nat) * SCALE / multiplier
    }
}

/// Five times the scale, pixels of width per unit of height, in units of
/// 2^-32.
pub open spec fn five_scale(width: nat, span: int) -> nat {
    (5 * width * SCALE * 0x1_0000_0000 / span) as nat
}

/// The square root of a number in units of 2^-32, in the same units. Below
/// 2^32 the root is rounded down to a multiple of 2^-32, from there on to a
/// multiple of 2^-16.
pub open spec fn root_q32(n: nat) -> nat {
    if n < 0x1_0000_0000_0000_0000 {
        floor_sqrt(n * 0x1_0000_0000)
    } else {
        floor_sqrt(n) * 0x1_0000
    }
}

/// The iteration budget for a scale: the fourth root of twice the distance
/// between one and the square root of five times the scale, times the gain.
/// The distance is taken in units of 2^-32, the fourth root is rounded down
/// to a multiple of 2^-16 and the product to a whole number; a gain below
/// zero gives the budget zero.
pub open spec fn budget_for(five_scale: nat, gain: int) -> nat {
    let root = root_q32(five_scale);
    let gap = if root >= ONE_Q32 {
        root - ONE_Q32
    } else {
        ONE_Q32 - root
    };
    let quart = floor_sqrt(floor_sqrt((2 * gap * 0x1_0000_0000) as nat));
    if gain <= 0 {
        0
    } else {
        (quart * gain / 0x1_0000_0000_0000_0000) as nat
    }
}

impl ZoomConfig {
    /// Whether the radii are positive and the multiplier is above one.
    pub open spec fn valid(self) -> bool {
        self.rad_x@ > 0 && self.rad_y@ > 0 && self.multiplier@ > SCALE
    }

    /// The rectangle that frame `n` shows.
    pub open spec fn region(self, n: nat) -> Region {
        let rad_x = contracted(self.rad_x@, self.multiplier@, n);
        let rad_y = contracted(self.rad_y@, self.multiplier@, n);
        Region {
            x_min: self.x_focus@ - rad_x,
            x_max: self.x_focus@ + rad_x,
            y_min: self.y_focus@ - rad_y,
            y_max: self.y_focus@ + rad_y,
        }
    }

    /// The iteration budget of frame `n`.
    pub open spec fn budget(self, n: nat) -> nat {
        let region = self.region(n);
        budget_for(five_scale(self.output_width as nat, region.y_max - region.y_min), self.gain@)
    }

    /// Whether frame `n` can be shown: its rectangle has an interior and
    /// its bounds are in range.
    pub open spec fn shows(self, n: nat) -> bool {
        let region = self.region(n);
        &&& region.proper()
        &&& fits(region.x_min)
        &&& fits(region.x_max)
        &&& fits(region.y_min)
        &&& fits(region.y_max)
    }

    /// Whether the radii are positive and the multiplier is above one.
    pub fn is_valid(&self) -> (b: bool)
        ensures
            b == self.valid(),
    {
        self.rad_x.bits > 0 && self.rad_y.bits > 0 && self.multiplier.bits > SCALE
    }
}

/// A radius never grows, and never falls below zero.
pub proof fn lemma_contracted_range(radius: int, multiplier: int, n: nat)
    requires
        radius >= 0,
        multiplier > SCALE,
    ensures
        0 <= contracted(radius, multiplier, n) <= radius,
    decreases n,
{
    if n > 0 {
        lemma_contracted_range(radius, multiplier, (n - 1) as nat);
        let p = contracted(radius, multiplier, (n - 1) as nat);
        let s = SCALE as int;
        assert(0 <= p * s / multiplier <= p) by (nonlinear_arith)
            requires
                p >= 0,
                multiplier > s,
                s > 0,
        ;
    }
}

/// Successive radii strictly decrease, as long as they are above zero.
pub proof fn lemma_radius_shrinks(radius: int, multiplier: int, n: nat)
    requires
        multiplier > SCALE,
        contracted(radius, multiplier, n) > 0,
    ensures
        contracted(radius, multiplier, n + 1) < contracted(radius, multiplier, n),
{
    let p = contracted(radius, multiplier, n);
    let s = SCALE as int;
    assert(contracted(radius, multiplier, n + 1) == p * s / multiplier);
    assert(p * s / multiplier < p) by (nonlinear_arith)
        requires
            p > 0,
            multiplier > s,
            s > 0,
    ;
}

/// A radius that has reached zero stays there.
pub proof fn lemma_contracted_stays_zero(radius: int, multiplier: int, i: nat, n: nat)
    requires
        multiplier > 0,
        contracted(radius, multiplier, i) == 0,
        i <= n,
    ensures
        contracted(radius, multiplier, n) == 0,
    decreases n,
{
    if i < n {
        lemma_contracted_stays_zero(radius, multiplier, i, (n - 1) as nat);
        assert(0 * (SCALE as int) / multiplier == 0) by (nonlinear_arith)
            requires
                multiplier > 0,
        ;
    }
}

/// The radius `radius` after `n` frames.
pub fn radius_at(radius: Fixed, multiplier: Fixed, n: usize) -> (r: Fixed)
    requires
        radius@ >= 0,
        multiplier@ > SCALE,
    ensures
        r@ == contracted(radius@, multiplier@, n as nat),
        0 <= r@ <= radius@,
{
    let mut r: i64 = radius.bits;
    let mut i: usize = 0;
    proof {
        lemma_contracted_range(radius@, multiplier@, n as nat);
    }
    while i < n
        invariant
            i <= n,
            radius@ >= 0,
            multiplier@ > SCALE,
            r == contracted(radius@, multiplier@, i as nat),
            0 <= r <= radius@,
        decreases n - i,
    {
        if r == 0 {
            proof {
                lemma_contracted_stays_zero(radius@, multiplier@, i as nat, n as nat);
            }
            return Fixed { bits: 0 };
        }
        proof {
            lemma_contracted_range(radius@, multiplier@, (i + 1) as nat);
        }
        let wide: u128 = (r as u128) * (SCALE as u128);
        r = (wide / (multiplier.bits as u128)) as i64;
        i = i + 1;
    }
    Fixed { bits: r }
}

/// The square root of a number in units of 2^-32, in the same units.
fn fine_root(n: u128) -> (r: u128)
    ensures
        r == root_q32(n as nat),
        r < 0x1_0000_0000_0000_0000_0000,
{
    if n < 0x1_0000_0000_0000_0000 {
        sqrt(n * 0x1_0000_0000) as u128
    } else {
        (sqrt(n) as u128) * 0x1_0000
    }
}

/// A larger number has no smaller root.
pub proof fn lemma_root_q32_monotone(a: nat, b: nat)
    requires
        a <= b,
    ensures
        root_q32(a) <= root_q32(b),
{
    let limit: nat = 0x1_0000_0000_0000_0000;
    if b < limit {
        lemma_floor_sqrt_monotone(a * 0x1_0000_0000, b * 0x1_0000_0000);
    } else if a >= limit {
        lemma_floor_sqrt_monotone(a, b);
    } else {
        // the root of `a` is below 2^48, that of `b` is not
        let low = floor_sqrt(a * 0x1_0000_0000);
        lemma_floor_sqrt_holds(a * 0x1_0000_0000);
        assert(low < 0x1_0000_0000_0000) by (nonlinear_arith)
            requires
                low * low <= a * 0x1_0000_0000,
                a < 0x1_0000_0000_0000_0000,
        ;
        assert(is_floor_sqrt(limit, 0x1_0000_0000)) by (nonlinear_arith)
            requires
                limit == 0x1_0000_0000_0000_0000,
        ;
        lemma_floor_sqrt_unique(limit, 0x1_0000_0000);
        lemma_floor_sqrt_monotone(limit, b);
    }
}

/// The iteration budget for a viewport that is drawn `output_width` pixels
/// wide: the budget for the scale of `output_width` to the viewport's
/// height.
pub fn iteration_budget(viewport: &Viewport, output_width: u32, gain: Fixed) -> (b: usize)
    ensures
        b == budget_for(
            five_scale(output_width as nat, viewport@.y_max - viewport@.y_min),
            gain@,
        ),
{
    let span: u128 = (viewport.y_max().bits as i128 - viewport.y_min().bits as i128) as u128;
    let numerator: u128 = 5 * (output_width as u128) * (SCALE as u128) * 0x1_0000_0000;
    let scaled: u128 = numerator / span;
    let root: u128 = fine_root(scaled);
    let gap: u128 = if root >= ONE_Q32 {
        root - ONE_Q32
    } else {
        ONE_Q32 - root
    };
    let inner: u64 = sqrt(2 * gap * 0x1_0000_0000);
    let quart: u64 = sqrt(inner as u128);
    if gain.bits <= 0 {
        return 0;
    }
    proof {
        assert(quart < 0x1_0000_0000) by (nonlinear_arith)
            requires
                quart * quart <= inner,
                inner < 0x1_0000_0000_0000_0000,
        ;
        assert(0 <= quart * gain.bits < 0x1_0000_0000 * 0x8000_0000_0000_0000) by (nonlinear_arith)
            requires
                0 <= quart < 0x1_0000_0000,
                0 < gain.bits < 0x8000_0000_0000_0000,
        ;
    }
    let product: u128 = (quart as u128) * (gain.bits as u128);
    (product / 0x1_0000_0000_0000_0000) as usize
}

/// The viewport and the iteration budget of frame `frame_index`, or `None`
/// unless the configuration is valid and the frame can be shown.
pub fn frame_params(frame_index: usize, config: &ZoomConfig) -> (r: Option<Frame>)
    ensures
        r is Some <==> config.valid() && config.shows(frame_index as nat),
        r matches Some(frame) ==> {
            &&& frame.index == frame_index
            &&& frame.viewport@ == config.region(frame_index as nat)
            &&& frame.budget == config.budget(frame_index as nat)
        },
{
    if !config.is_valid() {
        return None;
    }
    let rad_x = radius_at(config.rad_x, config.multiplier, frame_index);
    let rad_y = radius_at(config.rad_y, config.multiplier, frame_index);
    let x_min = config.x_focus.checked_sub(rad_x);
    let x_max = config.x_focus.checked_add(rad_x);
    let y_min = config.y_focus.checked_sub(rad_y);
    let y_max = config.y_focus.checked_add(rad_y);
    match (x_min, x_max, y_min, y_max) {
        (Some(x_min), Some(x_max), Some(y_min), Some(y_max)) => {
            match Viewport::new(x_min, x_max, y_min, y_max) {
                Some(viewport) => {
                    let budget = iteration_budget(&viewport, config.output_width, config.gain);
                    Some(Frame { index: frame_index, viewport, budget })
                },
                None => None,
            }
        },
        _ => None,
    }
}

/// Five times the scale does not fall as the viewport gets lower or the
/// output wider.
pub proof fn lemma_five_scale_monotone(width_a: nat, span_a: int, width_b: nat, span_b: int)
    requires
        width_a <= width_b,
        0 < span_b <= span_a,
    ensures
        five_scale(width_a, span_a) <= five_scale(width_b, span_b),
{
    let a = 5 * width_a * SCALE * 0x1_0000_0000;
    let b = 5 * width_b * SCALE * 0x1_0000_0000;
    assert(0 <= a <= b) by (nonlinear_arith)
        requires
            width_a <= width_b,
            a == 5 * width_a * SCALE * 0x1_0000_0000,
            b == 5 * width_b * SCALE * 0x1_0000_0000,
            SCALE > 0,
    ;
    assert(0 <= a / span_a <= b / span_b) by (nonlinear_arith)
        requires
            0 <= a <= b,
            0 < span_b <= span_a,
    ;
}

/// The iteration budget does not fall as the scale rises, from the scale
/// of one fifth on.
pub proof fn lemma_budget_monotone(five_scale_a: nat, five_scale_b: nat, gain: int)
    requires
        0x1_0000_0000 <= five_scale_a <= five_scale_b,
    ensures
        budget_for(five_scale_a, gain) <= budget_for(five_scale_b, gain),
{
    let root_a = root_q32(five_scale_a);
    let root_b = root_q32(five_scale_b);
    lemma_root_q32_monotone(0x1_0000_0000, five_scale_a);
    lemma_root_q32_monotone(five_scale_a, five_scale_b);
    assert(root_q32(0x1_0000_0000) == 0x1_0000_0000) by {
        assert(is_floor_sqrt(0x1_0000_0000_0000_0000, 0x1_0000_0000)) by (nonlinear_arith);
        lemma_floor_sqrt_unique(0x1_0000_0000_0000_0000, 0x1_0000_0000);
    }
    let gap_a = (root_a - ONE_Q32) as nat;
    let gap_b = (root_b - ONE_Q32) as nat;
    let inner_a = (2 * gap_a * 0x1_0000_0000) as nat;
    let inner_b = (2 * gap_b * 0x1_0000_0000) as nat;
    lemma_floor_sqrt_monotone(inner_a, inner_b);
    lemma_floor_sqrt_monotone(floor_sqrt(inner_a), floor_sqrt(inner_b));
    let quart_a = floor_sqrt(floor_sqrt(inner_a));
    let quart_b = floor_sqrt(floor_sqrt(inner_b));
    if gain > 0 {
        assert(0 <= quart_a * gain / 0x1_0000_0000_0000_0000 <= quart_b * gain
            / 0x1_0000_0000_0000_0000) by (nonlinear_arith)
            requires
                quart_a <= quart_b,
                gain > 0,
        ;
    }
}

/// Along a zoom the iteration budget does not fall from one frame to the
/// next, from the scale of one fifth on and as long as the radius is above
/// zero.
pub proof fn lemma_budget_along_zoom(config: ZoomConfig, n: nat)
    requires
        config.valid(),
        contracted(config.rad_y@, config.multiplier@, n + 1) > 0,
        five_scale(
            config.output_width as nat,
            2 * contracted(config.rad_y@, config.multiplier@, n),
        ) >= 0x1_0000_0000,
    ensures
        config.budget(n) <= config.budget(n + 1),
{
    let here = contracted(config.rad_y@, config.multiplier@, n);
    let next = contracted(config.rad_y@, config.multiplier@, n + 1);
    lemma_contracted_range(config.rad_y@, config.multiplier@, n);
    if here == 0 {
        lemma_contracted_stays_zero(config.rad_y@, config.multiplier@, n, n + 1);
    }
    lemma_radius_shrinks(config.rad_y@, config.multiplier@, n);
    let width = config.output_width as nat;
    lemma_five_scale_monotone(width, 2 * here, width, 2 * next);
    lemma_budget_monotone(five_scale(width, 2 * here), five_scale(width, 2 * next), config.gain@);
}

} // verus!
