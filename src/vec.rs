//! Two-dimensional vectors of scalars.

use vstd::prelude::*;
use crate::card::Card;
use crate::scalar::{
    add_spec, div_spec, is_isqrt, lemma_isqrt_unique, mul_spec, sqrt_spec, sub_spec, tdiv, Scalar,
    SCALE,
};

verus! {

/// A 2-D Cartesian vector.
#[derive(Clone, Copy, Debug, PartialEq, Eq, PartialOrd, Ord, Hash, Structural)]
pub struct Vec2 {
    /// The x-coordinate.
    pub x: Scalar,
    /// The y-coordinate.
    pub y: Scalar,
}

/// The difference `a - b`.
pub open spec fn sub_vec(a: Vec2, b: Vec2) -> Vec2 {
    Vec2 {
        x: Scalar { raw: sub_spec(a.x@, b.x@) as i128 },
        y: Scalar { raw: sub_spec(a.y@, b.y@) as i128 },
    }
}

pub open spec fn dot_spec(a: Vec2, b: Vec2) -> int {
    add_spec(mul_spec(a.x@, b.x@), mul_spec(a.y@, b.y@))
}

pub open spec fn len_sq_spec(v: Vec2) -> int {
    dot_spec(v, v)
}

pub open spec fn len_spec(v: Vec2) -> int {
    sqrt_spec(len_sq_spec(v))
}

/// `v` scaled to unit length.
pub open spec fn unit_of(v: Vec2) -> Vec2 {
    Vec2 {
        x: Scalar { raw: div_spec(v.x@, len_spec(v)) as i128 },
        y: Scalar { raw: div_spec(v.y@, len_spec(v)) as i128 },
    }
}

/// The unit vector of a direction.
pub open spec fn card_vec(c: Card) -> Vec2 {
    match c {
        Card::MinusX => Vec2 { x: Scalar { raw: (-SCALE) as i128 }, y: Scalar { raw: 0 } },
        Card::PlusX => Vec2 { x: Scalar { raw: SCALE }, y: Scalar { raw: 0 } },
        Card::MinusY => Vec2 { x: Scalar { raw: 0 }, y: Scalar { raw: (-SCALE) as i128 } },
        Card::PlusY => Vec2 { x: Scalar { raw: 0 }, y: Scalar { raw: SCALE } },
    }
}

/// The unit vector of a direction has length one and is its own unit vector.
pub proof fn lemma_card_vec_unit(c: Card)
    ensures
        len_spec(card_vec(c)) == SCALE,
        unit_of(card_vec(c)) == card_vec(c),
        card_vec(c).wf(),
{
    let v = card_vec(c);
    let s = SCALE as int;
    assert((s * s) / s == s) by (nonlinear_arith)
        requires
            s > 0,
    ;
    assert(((-s) * (-s)) / s == s) by (nonlinear_arith)
        requires
            s > 0,
    ;
    assert(mul_spec(s, s) == s);
    assert(mul_spec(-s, -s) == s);
    assert(mul_spec(0, 0) == 0);
    assert(len_sq_spec(v) == SCALE);
    assert(is_isqrt(SCALE * SCALE, SCALE as int));
    let r = choose|r: int| #[trigger] is_isqrt(SCALE * SCALE, r);
    lemma_isqrt_unique(SCALE * SCALE, r, SCALE as int);
    assert(len_spec(v) == SCALE);
}

/// A square is never negative after rounding and saturation.
pub proof fn lemma_mul_self_nonneg(x: int)
    ensures
        mul_spec(x, x) >= 0,
{
    assert(x * x >= 0) by (nonlinear_arith);
    assert(tdiv(x * x, SCALE as int) >= 0);
}

pub proof fn lemma_len_sq_nonneg(v: Vec2)
    ensures
        len_sq_spec(v) >= 0,
{
    lemma_mul_self_nonneg(v.x@);
    lemma_mul_self_nonneg(v.y@);
}

/// Shorthand for `Vec2::new`.
pub fn v2(x: Scalar, y: Scalar) -> (r: Vec2)
    ensures
        r.x == x,
        r.y == y,
{
    Vec2 { x, y }
}

impl Vec2 {
    /// Both coordinates lie in the scalar's range.
    pub open spec fn wf(self) -> bool {
        self.x.wf() && self.y.wf()
    }

    /// Constructs a vector with the given coordinates.
    pub fn new(x: Scalar, y: Scalar) -> (r: Vec2)
        ensures
            r.x == x,
            r.y == y,
    {
        Vec2 { x, y }
    }

    /// The vector (0, 0).
    pub fn zero() -> (r: Vec2)
        ensures
            r.wf(),
            r.x@ == 0,
            r.y@ == 0,
    {
        Vec2 { x: Scalar::zero(), y: Scalar::zero() }
    }

    /// The unit vector pointing in direction `card`.
    pub fn from_card(card: Card) -> (r: Vec2)
        ensures
            r.wf(),
            r == card_vec(card),
            r.x@ == match card {
                Card::MinusX => -SCALE,
                Card::PlusX => SCALE as int,
                _ => 0,
            },
            r.y@ == match card {
                Card::MinusY => -SCALE,
                Card::PlusY => SCALE as int,
                _ => 0,
            },
    {
        let one = Scalar::one();
        let zero = Scalar::zero();
        match card {
            Card::MinusX => v2(one.neg(), zero),
            Card::MinusY => v2(zero, one.neg()),
            Card::PlusX => v2(one, zero),
            Card::PlusY => v2(zero, one),
        }
    }

    pub fn add(self, o: Vec2) -> (r: Vec2)
        requires
            self.wf(),
            o.wf(),
        ensures
            r.wf(),
            r.x@ == add_spec(self.x@, o.x@),
            r.y@ == add_spec(self.y@, o.y@),
    {
        Vec2 { x: self.x.add(o.x), y: self.y.add(o.y) }
    }

    pub fn sub(self, o: Vec2) -> (r: Vec2)
        requires
            self.wf(),
            o.wf(),
        ensures
            r.wf(),
            r.x@ == sub_spec(self.x@, o.x@),
            r.y@ == sub_spec(self.y@, o.y@),
    {
        Vec2 { x: self.x.sub(o.x), y: self.y.sub(o.y) }
    }

    pub fn neg(self) -> (r: Vec2)
        requires
            self.wf(),
        ensures
            r.wf(),
            r.x@ == -self.x@,
            r.y@ == -self.y@,
    {
        Vec2 { x: self.x.neg(), y: self.y.neg() }
    }

    /// Multiplies both coordinates by `k`.
    pub fn scale(self, k: Scalar) -> (r: Vec2)
        requires
            self.wf(),
            k.wf(),
        ensures
            r.wf(),
            r.x@ == mul_spec(self.x@, k@),
            r.y@ == mul_spec(self.y@, k@),
    {
        Vec2 { x: self.x.mul(k), y: self.y.mul(k) }
    }

    /// The dot product.
    pub fn dot(self, o: Vec2) -> (r: Scalar)
        requires
            self.wf(),
            o.wf(),
        ensures
            r.wf(),
            r@ == dot_spec(self, o),
    {
        self.x.mul(o.x).add(self.y.mul(o.y))
    }

    /// The square of the Euclidean length.
    pub fn len_sq(&self) -> (r: Scalar)
        requires
            self.wf(),
        ensures
            r.wf(),
            r@ == len_sq_spec(*self),
            r@ >= 0,
    {
        proof {
            lemma_len_sq_nonneg(*self);
        }
        self.dot(*self)
    }

    /// The Euclidean length, rounded down to the scalar's resolution.
    pub fn len(&self) -> (r: Scalar)
        requires
            self.wf(),
        ensures
            r.wf(),
            r@ == len_spec(*self),
            r@ >= 0,
    {
        self.len_sq().sqrt()
    }

    /// The vector of (about) unit length in the direction of `self`, or
    /// `None` when the length of `self` is zero.
    pub fn normalize(&self) -> (r: Option<Vec2>)
        requires
            self.wf(),
        ensures
            r.is_none() <==> len_spec(*self) == 0,
            r matches Some(u) ==> u.wf() && u.x@ == div_spec(self.x@, len_spec(*self)) && u.y@
                == div_spec(self.y@, len_spec(*self)),
    {
        let len = self.len();
        if len.raw == 0 {
            None
        } else {
            Some(Vec2 { x: self.x.div(len), y: self.y.div(len) })
        }
    }

    /// The square of the Euclidean distance between two points.
    pub fn dist_sq(&self, other: &Vec2) -> (r: Scalar)
        requires
            self.wf(),
            other.wf(),
        ensures
            r.wf(),
            r@ == len_sq_spec(
                Vec2 {
                    x: Scalar { raw: sub_spec(self.x@, other.x@) as i128 },
                    y: Scalar { raw: sub_spec(self.y@, other.y@) as i128 },
                },
            ),
    {
        let d = self.sub(*other);
        d.len_sq()
    }

    /// The Euclidean distance between two points.
    pub fn dist(&self, other: &Vec2) -> (r: Scalar)
        requires
            self.wf(),
            other.wf(),
        ensures
            r.wf(),
            r@ == len_spec(
                Vec2 {
                    x: Scalar { raw: sub_spec(self.x@, other.x@) as i128 },
                    y: Scalar { raw: sub_spec(self.y@, other.y@) as i128 },
                },
            ),
    {
        let d = self.sub(*other);
        d.len()
    }

    /// Interpolates linearly: `ratio = 0` gives `self`, `ratio = 1` gives
    /// `other`; other ratios extrapolate.
    pub fn lerp(&self, other: Vec2, ratio: Scalar) -> (r: Vec2)
        requires
            self.wf(),
            other.wf(),
            ratio.wf(),
        ensures
            r.wf(),
            r.x@ == add_spec(
                mul_spec(sub_spec(SCALE as int, ratio@), self.x@),
                mul_spec(ratio@, other.x@),
            ),
            r.y@ == add_spec(
                mul_spec(sub_spec(SCALE as int, ratio@), self.y@),
                mul_spec(ratio@, other.y@),
            ),
    {
        let keep = Scalar::one().sub(ratio);
        Vec2 {
            x: keep.mul(self.x).add(ratio.mul(other.x)),
            y: keep.mul(self.y).add(ratio.mul(other.y)),
        }
    }
}

/// A 2-D vector kept as a unit direction and a signed length, so that a
/// vector of length zero still has a direction.
#[derive(Clone, Copy, Debug, PartialEq, Eq, Structural)]
pub struct DirVec2 {
    pub dir: Vec2,
    pub len: Scalar,
}

impl DirVec2 {
    pub open spec fn wf(self) -> bool {
        self.dir.wf() && self.len.wf()
    }

    /// Constructs a vector with direction `dir`, normalized, and length `len`.
    pub fn new(dir: Vec2, len: Scalar) -> (r: DirVec2)
        requires
            dir.wf(),
            len.wf(),
            len_spec(dir) != 0,
        ensures
            r.wf(),
            r.dir.x@ == div_spec(dir.x@, len_spec(dir)),
            r.dir.y@ == div_spec(dir.y@, len_spec(dir)),
            r.dir == unit_of(dir),
            r.len == len,
    {
        let unit = dir.normalize();
        match unit {
            Some(u) => DirVec2 { dir: u, len },
            None => DirVec2 { dir, len },
        }
    }

    /// The direction, as a unit vector.
    pub fn dir(&self) -> (r: Vec2)
        ensures
            r == self.dir,
    {
        self.dir
    }

    /// The signed length.
    pub fn len(&self) -> (r: Scalar)
        ensures
            r == self.len,
    {
        self.len
    }

    /// The same length with the opposite direction.
    pub fn flip(&self) -> (r: DirVec2)
        requires
            self.wf(),
        ensures
            r.wf(),
            r.len == self.len,
            r.dir.x@ == -self.dir.x@,
            r.dir.y@ == -self.dir.y@,
    {
        DirVec2 { dir: self.dir.neg(), len: self.len }
    }

    /// The plain vector: the direction times the length.
    pub fn to_vec2(&self) -> (r: Vec2)
        requires
            self.wf(),
        ensures
            r.wf(),
            r.x@ == mul_spec(self.dir.x@, self.len@),
            r.y@ == mul_spec(self.dir.y@, self.len@),
    {
        self.dir.scale(self.len)
    }
}

} // verus!
