//! Summation helpers for the filter specifications, and the three-channel
//! integer accumulator the filters use to gather per-channel sums.

use vstd::prelude::*;

verus! {

/// The sum of `f(i)` for `i` in `[lo, hi)`.
pub open spec fn sum1d(lo: int, hi: int, f: spec_fn(int) -> int) -> int
    decreases hi - lo,
{
    if hi <= lo {
        0
    } else {
        sum1d(lo, hi - 1, f) + f(hi - 1)
    }
}

/// The sum of `f(x, y)` over the rectangle `[x0, x1) x [y0, y1)`.
pub open spec fn sum2d(x0: int, x1: int, y0: int, y1: int, f: spec_fn(int, int) -> int) -> int {
    sum1d(y0, y1, |y: int| sum1d(x0, x1, |x: int| f(x, y)))
}

/// Sums only depend on the summand's values inside the range.
pub proof fn lemma_sum1d_ext(lo: int, hi: int, f: spec_fn(int) -> int, g: spec_fn(int) -> int)
    requires
        forall|i: int| lo <= i < hi ==> #[trigger] f(i) == g(i),
    ensures
        sum1d(lo, hi, f) == sum1d(lo, hi, g),
    decreases hi - lo,
{
    if hi > lo {
        lemma_sum1d_ext(lo, hi - 1, f, g);
    }
}

/// A sum of values between `0` and `b` lies between `0` and `(hi - lo) * b`.
pub proof fn lemma_sum1d_bounds(lo: int, hi: int, f: spec_fn(int) -> int, b: int)
    requires
        lo <= hi,
        forall|i: int| lo <= i < hi ==> 0 <= #[trigger] f(i) <= b,
    ensures
        0 <= sum1d(lo, hi, f) <= (hi - lo) * b,
    decreases hi - lo,
{
    if hi > lo {
        lemma_sum1d_bounds(lo, hi - 1, f, b);
        assert((hi - 1 - lo) * b + b == (hi - lo) * b) by (nonlinear_arith);
    } else {
        assert((hi - lo) * b == 0) by (nonlinear_arith)
            requires hi == lo;
    }
}

/// A sum of nonnegative values is nonnegative.
pub proof fn lemma_sum1d_nonneg(lo: int, hi: int, f: spec_fn(int) -> int)
    requires
        forall|i: int| lo <= i < hi ==> #[trigger] f(i) >= 0,
    ensures
        sum1d(lo, hi, f) >= 0,
    decreases hi - lo,
{
    if hi > lo {
        lemma_sum1d_nonneg(lo, hi - 1, f);
    }
}

/// A sum of nonnegative values is at least any one of them.
pub proof fn lemma_sum1d_lower_one(lo: int, hi: int, f: spec_fn(int) -> int, p: int)
    requires
        lo <= p < hi,
        forall|i: int| lo <= i < hi ==> #[trigger] f(i) >= 0,
    ensures
        sum1d(lo, hi, f) >= f(p),
    decreases hi - lo,
{
    if p == hi - 1 {
        lemma_sum1d_nonneg(lo, hi - 1, f);
    } else {
        lemma_sum1d_lower_one(lo, hi - 1, f, p);
    }
}

/// A rectangle sum of nonnegative values is at least any one of them.
pub proof fn lemma_sum2d_lower_one(
    x0: int, x1: int, y0: int, y1: int, f: spec_fn(int, int) -> int, px: int, py: int,
)
    requires
        x0 <= px < x1,
        y0 <= py < y1,
        forall|x: int, y: int| x0 <= x < x1 && y0 <= y < y1 ==> #[trigger] f(x, y) >= 0,
    ensures
        sum2d(x0, x1, y0, y1, f) >= f(px, py),
{
    let rf = |y: int| sum1d(x0, x1, |x: int| f(x, y));
    assert forall|y: int| y0 <= y < y1 implies #[trigger] rf(y) >= 0 by {
        lemma_sum1d_nonneg(x0, x1, |x: int| f(x, y));
    }
    assert(rf(py) >= f(px, py)) by {
        lemma_sum1d_lower_one(x0, x1, |x: int| f(x, py), px);
    }
    lemma_sum1d_lower_one(y0, y1, rf, py);
}

/// Pointwise ordering of summands carries over to the sums.
pub proof fn lemma_sum1d_le(lo: int, hi: int, f: spec_fn(int) -> int, g: spec_fn(int) -> int)
    requires
        forall|i: int| lo <= i < hi ==> #[trigger] f(i) <= #[trigger] g(i),
    ensures
        sum1d(lo, hi, f) <= sum1d(lo, hi, g),
    decreases hi - lo,
{
    if hi > lo {
        lemma_sum1d_le(lo, hi - 1, f, g);
    }
}

/// A common factor moves out of a sum: if `fc` is pointwise `f` times `c`,
/// its sum is the sum of `f` times `c`.
pub proof fn lemma_sum1d_scale(
    lo: int, hi: int, f: spec_fn(int) -> int, fc: spec_fn(int) -> int, c: int,
)
    requires
        forall|i: int| lo <= i < hi ==> #[trigger] fc(i) == f(i) * c,
    ensures
        sum1d(lo, hi, fc) == sum1d(lo, hi, f) * c,
    decreases hi - lo,
{
    if hi > lo {
        lemma_sum1d_scale(lo, hi - 1, f, fc, c);
        assert((sum1d(lo, hi - 1, f) + f(hi - 1)) * c == sum1d(lo, hi - 1, f) * c + f(hi - 1) * c)
            by (nonlinear_arith);
    } else {
        assert(sum1d(lo, hi, f) * c == 0) by (nonlinear_arith)
            requires sum1d(lo, hi, f) == 0;
    }
}

/// A sum of a constant summand is the count times the constant.
pub proof fn lemma_sum1d_const(lo: int, hi: int, f: spec_fn(int) -> int, c: int)
    requires
        lo <= hi,
        forall|i: int| lo <= i < hi ==> #[trigger] f(i) == c,
    ensures
        sum1d(lo, hi, f) == (hi - lo) * c,
    decreases hi - lo,
{
    if hi > lo {
        lemma_sum1d_const(lo, hi - 1, f, c);
        assert((hi - 1 - lo) * c + c == (hi - lo) * c) by (nonlinear_arith);
    } else {
        assert((hi - lo) * c == 0) by (nonlinear_arith)
            requires hi == lo;
    }
}

/// A rectangle sum of values between `0` and `b` lies between `0` and area times `b`.
pub proof fn lemma_sum2d_bounds(
    x0: int, x1: int, y0: int, y1: int, f: spec_fn(int, int) -> int, b: int,
)
    requires
        x0 <= x1,
        y0 <= y1,
        0 <= b,
        forall|x: int, y: int| x0 <= x < x1 && y0 <= y < y1 ==> 0 <= #[trigger] f(x, y) <= b,
    ensures
        0 <= sum2d(x0, x1, y0, y1, f) <= (x1 - x0) * (y1 - y0) * b,
{
    let rf = |y: int| sum1d(x0, x1, |x: int| f(x, y));
    let rb = (x1 - x0) * b;
    assert forall|y: int| y0 <= y < y1 implies 0 <= #[trigger] rf(y) <= rb by {
        lemma_sum1d_bounds(x0, x1, |x: int| f(x, y), b);
    }
    assert(0 <= (x1 - x0) * b) by (nonlinear_arith)
        requires 0 <= x1 - x0, 0 <= b;
    lemma_sum1d_bounds(y0, y1, rf, rb);
    assert((y1 - y0) * ((x1 - x0) * b) == (x1 - x0) * (y1 - y0) * b) by (nonlinear_arith);
}

/// Pointwise ordering of summands carries over to rectangle sums.
pub proof fn lemma_sum2d_le(
    x0: int, x1: int, y0: int, y1: int,
    f: spec_fn(int, int) -> int, g: spec_fn(int, int) -> int,
)
    requires
        forall|x: int, y: int| x0 <= x < x1 && y0 <= y < y1 ==> #[trigger] f(x, y) <= #[trigger] g(x, y),
    ensures
        sum2d(x0, x1, y0, y1, f) <= sum2d(x0, x1, y0, y1, g),
{
    let rf = |y: int| sum1d(x0, x1, |x: int| f(x, y));
    let rg = |y: int| sum1d(x0, x1, |x: int| g(x, y));
    assert forall|y: int| y0 <= y < y1 implies #[trigger] rf(y) <= #[trigger] rg(y) by {
        lemma_sum1d_le(x0, x1, |x: int| f(x, y), |x: int| g(x, y));
    }
    lemma_sum1d_le(y0, y1, rf, rg);
}

/// A common factor moves out of a rectangle sum: if `fc` is pointwise `f`
/// times `c`, its rectangle sum is the rectangle sum of `f` times `c`.
pub proof fn lemma_sum2d_scale(
    x0: int, x1: int, y0: int, y1: int,
    f: spec_fn(int, int) -> int, fc: spec_fn(int, int) -> int, c: int,
)
    requires
        forall|x: int, y: int| x0 <= x < x1 && y0 <= y < y1 ==> #[trigger] fc(x, y) == f(x, y) * c,
    ensures
        sum2d(x0, x1, y0, y1, fc) == sum2d(x0, x1, y0, y1, f) * c,
{
    let rf = |y: int| sum1d(x0, x1, |x: int| f(x, y));
    let rfc = |y: int| sum1d(x0, x1, |x: int| fc(x, y));
    assert forall|y: int| y0 <= y < y1 implies #[trigger] rfc(y) == rf(y) * c by {
        lemma_sum1d_scale(x0, x1, |x: int| f(x, y), |x: int| fc(x, y), c);
    }
    lemma_sum1d_scale(y0, y1, rf, rfc, c);
}

/// A rectangle sum of a constant summand is the area times the constant.
pub proof fn lemma_sum2d_const(
    x0: int, x1: int, y0: int, y1: int, f: spec_fn(int, int) -> int, c: int,
)
    requires
        x0 <= x1,
        y0 <= y1,
        forall|x: int, y: int| x0 <= x < x1 && y0 <= y < y1 ==> #[trigger] f(x, y) == c,
    ensures
        sum2d(x0, x1, y0, y1, f) == (x1 - x0) * (y1 - y0) * c,
{
    let rf = |y: int| sum1d(x0, x1, |x: int| f(x, y));
    assert forall|y: int| y0 <= y < y1 implies #[trigger] rf(y) == (x1 - x0) * c by {
        lemma_sum1d_const(x0, x1, |x: int| f(x, y), c);
    }
    lemma_sum1d_const(y0, y1, rf, (x1 - x0) * c);
    assert((y1 - y0) * ((x1 - x0) * c) == (x1 - x0) * (y1 - y0) * c) by (nonlinear_arith);
}

/// Three per-channel totals, wide enough that sums over any window of
/// 8-bit channel values, possibly weighted, cannot overflow.
#[derive(Clone, Copy, PartialEq, Eq, Structural, Debug)]
pub struct TripleNums {
    pub c0: u128,
    pub c1: u128,
    pub c2: u128,
}

impl TripleNums {
    /// The additive identity.
    pub fn zero() -> (r: TripleNums)
        ensures
            r.c0 == 0 && r.c1 == 0 && r.c2 == 0,
    {
        TripleNums { c0: 0, c1: 0, c2: 0 }
    }

    /// Elementwise addition.
    pub fn add3(self, rhs: TripleNums) -> (r: TripleNums)
        requires
            self.c0 + rhs.c0 <= u128::MAX,
            self.c1 + rhs.c1 <= u128::MAX,
            self.c2 + rhs.c2 <= u128::MAX,
        ensures
            r.c0 == self.c0 + rhs.c0,
            r.c1 == self.c1 + rhs.c1,
            r.c2 == self.c2 + rhs.c2,
    {
        TripleNums { c0: self.c0 + rhs.c0, c1: self.c1 + rhs.c1, c2: self.c2 + rhs.c2 }
    }

    /// Elementwise multiplication by a scalar.
    pub fn mul_scalar(self, k: u128) -> (r: TripleNums)
        requires
            self.c0 * k <= u128::MAX,
            self.c1 * k <= u128::MAX,
            self.c2 * k <= u128::MAX,
        ensures
            r.c0 == self.c0 * k,
            r.c1 == self.c1 * k,
            r.c2 == self.c2 * k,
    {
        TripleNums { c0: self.c0 * k, c1: self.c1 * k, c2: self.c2 * k }
    }

    /// Elementwise truncating division by a scalar.
    pub fn div_scalar(self, k: u128) -> (r: TripleNums)
        requires
            k > 0,
        ensures
            r.c0 == self.c0 as int / k as int,
            r.c1 == self.c1 as int / k as int,
            r.c2 == self.c2 as int / k as int,
    {
        TripleNums { c0: self.c0 / k, c1: self.c1 / k, c2: self.c2 / k }
    }

    /// The truncating cast to 8-bit channels, taken only where each total
    /// already fits.
    pub fn to_u8(self) -> (r: (u8, u8, u8))
        requires
            self.c0 <= 255,
            self.c1 <= 255,
            self.c2 <= 255,
        ensures
            r.0 == self.c0,
            r.1 == self.c1,
            r.2 == self.c2,
    {
        (self.c0 as u8, self.c1 as u8, self.c2 as u8)
    }
}

} // verus!
