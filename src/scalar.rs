//! A totally ordered fixed-point scalar.
//!
//! A `Scalar` holds `raw`, the value times `SCALE`. Results that leave the
//! range `[-LIMIT, LIMIT]` saturate at its ends, which stand for minus and
//! plus infinity. Products and quotients are truncated toward zero.

use vstd::prelude::*;

verus! {

/// Number of raw units in one unit.
pub const SCALE: i128 = 1_000_000_000;

/// Largest raw magnitude; `LIMIT` itself stands for infinity.
pub const LIMIT: i128 = 10_000_000_000_000_000_000;

/// Saturates an exact value into the representable range.
pub open spec fn clamp(x: int) -> int {
    if x > LIMIT {
        LIMIT as int
    } else if x < -LIMIT {
        -LIMIT
    } else {
        x
    }
}

/// Integer division truncated toward zero, for a positive divisor.
pub open spec fn tdiv(n: int, d: int) -> int
    recommends
        d > 0,
{
    if n >= 0 {
        n / d
    } else {
        -((-n) / d)
    }
}

pub open spec fn add_spec(a: int, b: int) -> int {
    clamp(a + b)
}

pub open spec fn sub_spec(a: int, b: int) -> int {
    clamp(a - b)
}

pub open spec fn mul_spec(a: int, b: int) -> int {
    clamp(tdiv(a * b, SCALE as int))
}

/// Quotient of two raw values; a zero divisor gives an infinity of the
/// dividend's sign (zero over zero gives zero).
pub open spec fn div_spec(a: int, b: int) -> int {
    if b == 0 {
        if a > 0 {
            LIMIT as int
        } else if a < 0 {
            -LIMIT
        } else {
            0
        }
    } else if b > 0 {
        clamp(tdiv(a * SCALE, b))
    } else {
        clamp(tdiv(-a * SCALE, -b))
    }
}

pub open spec fn half_spec(a: int) -> int {
    tdiv(a, 2)
}

pub open spec fn min_spec(a: int, b: int) -> int {
    if a <= b {
        a
    } else {
        b
    }
}

pub open spec fn max_spec(a: int, b: int) -> int {
    if a >= b {
        a
    } else {
        b
    }
}

pub open spec fn abs_spec(a: int) -> int {
    if a >= 0 {
        a
    } else {
        -a
    }
}

/// `r` is the integer square root of `n`: the largest `r` with `r * r <= n`.
pub open spec fn is_isqrt(n: int, r: int) -> bool {
    0 <= r && r * r <= n && n < (r + 1) * (r + 1)
}

/// Raw value of the square root of the raw value `a`, rounded down.
pub open spec fn sqrt_spec(a: int) -> int {
    choose|r: int| #[trigger] is_isqrt(a * SCALE, r)
}

/// A fixed-point number: `raw / SCALE`.
#[derive(Clone, Copy, Debug, PartialEq, Eq, PartialOrd, Ord, Hash, Structural)]
pub struct Scalar {
    pub raw: i128,
}

impl View for Scalar {
    type V = int;

    open spec fn view(&self) -> int {
        self.raw as int
    }
}

impl Scalar {
    /// The raw value lies in the saturating range.
    pub open spec fn wf(self) -> bool {
        -LIMIT <= self.raw <= LIMIT
    }

    pub fn zero() -> (r: Scalar)
        ensures
            r.wf(),
            r@ == 0,
    {
        Scalar { raw: 0 }
    }

    pub fn one() -> (r: Scalar)
        ensures
            r.wf(),
            r@ == SCALE,
    {
        Scalar { raw: SCALE }
    }

    /// Plus infinity.
    pub fn infinity() -> (r: Scalar)
        ensures
            r.wf(),
            r@ == LIMIT,
    {
        Scalar { raw: LIMIT }
    }

    /// The value `raw / SCALE`, saturated.
    pub fn from_raw(raw: i128) -> (r: Scalar)
        ensures
            r.wf(),
            r@ == clamp(raw as int),
    {
        if raw > LIMIT {
            Scalar { raw: LIMIT }
        } else if raw < -LIMIT {
            Scalar { raw: -LIMIT }
        } else {
            Scalar { raw }
        }
    }

    /// The integer `n`, saturated.
    pub fn from_int(n: i64) -> (r: Scalar)
        ensures
            r.wf(),
            r@ == clamp(n * SCALE),
    {
        let raw: i128 = (n as i128) * SCALE;
        Scalar::from_raw(raw)
    }

    /// The fraction `n / d`, truncated toward zero.
    pub fn ratio(n: i64, d: i64) -> (r: Scalar)
        ensures
            r.wf(),
            r@ == div_spec(clamp(n * SCALE), clamp(d * SCALE)),
    {
        Scalar::from_int(n).div(Scalar::from_int(d))
    }

    pub fn is_infinite(self) -> (r: bool)
        ensures
            r == (self@ >= LIMIT || self@ <= -LIMIT),
    {
        self.raw >= LIMIT || self.raw <= -LIMIT
    }

    pub fn add(self, o: Scalar) -> (r: Scalar)
        requires
            self.wf(),
            o.wf(),
        ensures
            r.wf(),
            r@ == add_spec(self@, o@),
    {
        Scalar::from_raw(self.raw + o.raw)
    }

    pub fn sub(self, o: Scalar) -> (r: Scalar)
        requires
            self.wf(),
            o.wf(),
        ensures
            r.wf(),
            r@ == sub_spec(self@, o@),
    {
        Scalar::from_raw(self.raw - o.raw)
    }

    pub fn neg(self) -> (r: Scalar)
        requires
            self.wf(),
        ensures
            r.wf(),
            r@ == -self@,
    {
        Scalar { raw: -self.raw }
    }

    /// Half the value, truncated toward zero.
    pub fn half(self) -> (r: Scalar)
        requires
            self.wf(),
        ensures
            r.wf(),
            r@ == half_spec(self@),
    {
        let q: i128 = if self.raw >= 0 {
            self.raw / 2
        } else {
            -((-self.raw) / 2)
        };
        Scalar { raw: q }
    }

    pub fn abs(self) -> (r: Scalar)
        requires
            self.wf(),
        ensures
            r.wf(),
            r@ == abs_spec(self@),
    {
        if self.raw >= 0 {
            self
        } else {
            Scalar { raw: -self.raw }
        }
    }

    pub fn mul(self, o: Scalar) -> (r: Scalar)
        requires
            self.wf(),
            o.wf(),
        ensures
            r.wf(),
            r@ == mul_spec(self@, o@),
    {
        let a = self.raw;
        let b = o.raw;
        proof {
            lemma_product_fits(a as int, b as int);
        }
        let p: i128 = a * b;
        let q: i128 = if p >= 0 {
            p / SCALE
        } else {
            -((-p) / SCALE)
        };
        Scalar::from_raw(q)
    }

    pub fn div(self, o: Scalar) -> (r: Scalar)
        requires
            self.wf(),
            o.wf(),
        ensures
            r.wf(),
            r@ == div_spec(self@, o@),
    {
        let a = self.raw;
        let b = o.raw;
        if b == 0 {
            if a > 0 {
                Scalar { raw: LIMIT }
            } else if a < 0 {
                Scalar { raw: -LIMIT }
            } else {
                Scalar { raw: 0 }
            }
        } else {
            let (n, d): (i128, i128) = if b > 0 {
                (a * SCALE, b)
            } else {
                (-a * SCALE, -b)
            };
            let q: i128 = if n >= 0 {
                n / d
            } else {
                -((-n) / d)
            };
            proof {
                lemma_quotient_bound(n as int, d as int);
            }
            Scalar::from_raw(q)
        }
    }

    pub fn min(self, o: Scalar) -> (r: Scalar)
        requires
            self.wf(),
            o.wf(),
        ensures
            r.wf(),
            r@ == min_spec(self@, o@),
    {
        if self.raw <= o.raw {
            self
        } else {
            o
        }
    }

    pub fn max(self, o: Scalar) -> (r: Scalar)
        requires
            self.wf(),
            o.wf(),
        ensures
            r.wf(),
            r@ == max_spec(self@, o@),
    {
        if self.raw >= o.raw {
            self
        } else {
            o
        }
    }

    pub fn lt(self, o: Scalar) -> (r: bool)
        ensures
            r == (self@ < o@),
    {
        self.raw < o.raw
    }

    pub fn le(self, o: Scalar) -> (r: bool)
        ensures
            r == (self@ <= o@),
    {
        self.raw <= o.raw
    }

    pub fn eq(self, o: Scalar) -> (r: bool)
        ensures
            r == (self@ == o@),
    {
        self.raw == o.raw
    }
}

/// The integer square root is unique.
pub proof fn lemma_isqrt_unique(n: int, r1: int, r2: int)
    requires
        is_isqrt(n, r1),
        is_isqrt(n, r2),
    ensures
        r1 == r2,
{
    if r1 < r2 {
        assert((r1 + 1) * (r1 + 1) <= r2 * r2) by (nonlinear_arith)
            requires
                0 <= r1 < r2,
        ;
    } else if r2 < r1 {
        assert((r2 + 1) * (r2 + 1) <= r1 * r1) by (nonlinear_arith)
            requires
                0 <= r2 < r1,
        ;
    }
}

/// Largest raw value that a square root of an in-range value can reach, plus one.
const SQRT_BOUND: i128 = 100_000_000_000_001;

impl Scalar {
    /// The square root, rounded down to the scalar's resolution.
    pub fn sqrt(self) -> (r: Scalar)
        requires
            self.wf(),
            self@ >= 0,
        ensures
            r.wf(),
            r@ == sqrt_spec(self@),
            is_isqrt(self@ * SCALE, r@),
    {
        let n: i128 = self.raw * SCALE;
        let mut lo: i128 = 0;
        let mut hi: i128 = SQRT_BOUND;
        assert(n < SQRT_BOUND * SQRT_BOUND);
        while hi - lo > 1
            invariant
                0 <= lo < hi <= SQRT_BOUND,
                n == self@ * SCALE,
                lo * lo <= n,
                n < hi * hi,
            decreases hi - lo,
        {
            let mid: i128 = lo + (hi - lo) / 2;
            assert(mid * mid <= SQRT_BOUND * SQRT_BOUND) by (nonlinear_arith)
                requires
                    0 <= mid <= SQRT_BOUND,
            ;
            if mid * mid <= n {
                lo = mid;
            } else {
                hi = mid;
            }
        }
        proof {
            assert(is_isqrt(n as int, lo as int));
            let c = choose|r: int| #[trigger] is_isqrt(n as int, r);
            lemma_isqrt_unique(n as int, lo as int, c);
        }
        Scalar { raw: lo }
    }
}

proof fn lemma_product_fits(a: int, b: int)
    requires
        -LIMIT <= a <= LIMIT,
        -LIMIT <= b <= LIMIT,
    ensures
        -LIMIT * LIMIT <= a * b <= LIMIT * LIMIT,
{
    assert(-LIMIT * LIMIT <= a * b <= LIMIT * LIMIT) by (nonlinear_arith)
        requires
            -LIMIT <= a <= LIMIT,
            -LIMIT <= b <= LIMIT,
    ;
}

proof fn lemma_quotient_bound(n: int, d: int)
    requires
        d > 0,
    ensures
        0 <= n ==> 0 <= n / d <= n,
        n < 0 ==> 0 <= (-n) / d <= -n,
{
    if n >= 0 {
        assert(0 <= n / d <= n) by (nonlinear_arith)
            requires
                d > 0,
                n >= 0,
        ;
    } else {
        assert(0 <= (-n) / d <= -n) by (nonlinear_arith)
            requires
                d > 0,
                n < 0,
        ;
    }
}

} // verus!
