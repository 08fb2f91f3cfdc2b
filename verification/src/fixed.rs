//! Signed fixed-point numbers with 48 fractional bits.

use vstd::prelude::*;

verus! {

/// Number of fractional bits of a [`Fixed`].
pub const FRAC_BITS: u32 = 48;

/// The raw count that stands for the number one: 2^48.
pub const SCALE: i64 = 0x1_0000_0000_0000;

/// Whether a raw count can be held by a [`Fixed`].
pub open spec fn fits(v: int) -> bool {
    i64::MIN <= v <= i64::MAX
}

/// The quotient `n / d` rounded toward zero, for a divisor above zero. The
/// rounding is symmetric in sign: the quotient of `-n` is minus the quotient
/// of `n`.
pub open spec fn toward_zero(n: int, d: int) -> int {
    if n >= 0 {
        n / d
    } else {
        -((-n) / d)
    }
}

/// `Some` of the number with raw count `v` where it fits, else `None`.
pub open spec fn checked(v: int) -> Option<Fixed> {
    if fits(v) {
        Some(Fixed { bits: v as i64 })
    } else {
        None
    }
}

/// A real number `bits / 2^48`, held as the signed 64-bit count `bits`.
///
/// The view of a `Fixed` is its raw count as a mathematical integer.
#[derive(Clone, Copy, Debug, PartialEq, Eq, PartialOrd, Ord, Hash)]
pub struct Fixed {
    pub bits: i64,
}

impl View for Fixed {
    type V = int;

    open spec fn view(&self) -> int {
        self.bits as int
    }
}

impl Fixed {
    /// The whole number `n`.
    pub fn from_int(n: i16) -> (r: Fixed)
        ensures
            r@ == n * SCALE,
    {
        Fixed { bits: (n as i64) * SCALE }
    }

    /// The quotient `num / den`, rounded toward zero to a multiple of
    /// 2^-48.
    ///
    /// `None` where `den` is zero or the quotient is out of range.
    pub fn from_ratio(num: i64, den: u64) -> (r: Option<Fixed>)
        ensures
            den == 0 ==> r is None,
            den != 0 ==> r == checked(toward_zero(num * SCALE, den as int)),
    {
        if den == 0 {
            return None;
        }
        assert(i128::MIN <= num * SCALE <= i128::MAX) by (nonlinear_arith)
            requires
                fits(num as int),
                SCALE == 0x1_0000_0000_0000,
        ;
        let scaled: i128 = (num as i128) * (SCALE as i128);
        let q: i128 = div_toward_zero(scaled, den as i128);
        narrow(q)
    }

    /// The sum, or `None` where it is out of range.
    pub fn checked_add(self, rhs: Fixed) -> (r: Option<Fixed>)
        ensures
            r == checked(self@ + rhs@),
    {
        match self.bits.checked_add(rhs.bits) {
            Some(bits) => Some(Fixed { bits }),
            None => None,
        }
    }

    /// The difference, or `None` where it is out of range.
    pub fn checked_sub(self, rhs: Fixed) -> (r: Option<Fixed>)
        ensures
            r == checked(self@ - rhs@),
    {
        match self.bits.checked_sub(rhs.bits) {
            Some(bits) => Some(Fixed { bits }),
            None => None,
        }
    }
}

/// The quotient of `-n` is minus the quotient of `n`.
pub proof fn lemma_toward_zero_odd(n: int, d: int)
    requires
        d > 0,
    ensures
        toward_zero(-n, d) == -toward_zero(n, d),
{
    assert(0int / d == 0) by (nonlinear_arith)
        requires
            d > 0,
    ;
}

/// A dividend within `bound` times the divisor has a quotient within
/// `bound`.
pub proof fn lemma_toward_zero_range(n: int, d: int, bound: int)
    by (nonlinear_arith)
    requires
        d > 0,
        bound >= 0,
        -bound * d <= n <= bound * d,
    ensures
        -bound <= toward_zero(n, d) <= bound,
{
}

/// The quotient `n / d` rounded toward zero.
pub(crate) fn div_toward_zero(n: i128, d: i128) -> (q: i128)
    requires
        d > 0,
    ensures
        q == toward_zero(n as int, d as int),
{
    proof {
        let m: int = if n >= 0 {
            n as int
        } else {
            -(n as int)
        };
        assert(0 <= m / (d as int) <= m) by (nonlinear_arith)
            requires
                d > 0,
                m >= 0,
        ;
    }
    match n.checked_div(d) {
        Some(q) => q,
        None => 0,
    }
}

/// The number with raw count `v`, or `None` where `v` is out of range.
pub(crate) fn narrow(v: i128) -> (r: Option<Fixed>)
    ensures
        r == checked(v as int),
{
    if v < i64::MIN as i128 || v > i64::MAX as i128 {
        None
    } else {
        Some(Fixed { bits: v as i64 })
    }
}

} // verus!
