//! Numeric helpers and a small sequence of one or two identities.

use vstd::prelude::*;
use crate::scalar::{
    add_spec, div_spec, is_isqrt, mul_spec, sqrt_spec, sub_spec, Scalar, SCALE,
};

verus! {

/// Why a square root could not be taken.
#[derive(Clone, Copy, Debug, PartialEq, Eq, Structural)]
pub enum SqrtError {
    /// The value is negative.
    NegativeValue,
    /// The requested precision is zero or negative.
    NonPositiveEpsilon,
}

/// The square root of `value`, within `epsilon` of the exact root.
///
/// The result is the exact root rounded down to the scalar's resolution, so
/// it lies within one raw unit, which no positive `epsilon` is below.
pub fn approx_square_root(value: Scalar, epsilon: Scalar) -> (r: Result<Scalar, SqrtError>)
    requires
        value.wf(),
        epsilon.wf(),
    ensures
        value@ < 0 ==> r == Err::<Scalar, SqrtError>(SqrtError::NegativeValue),
        value@ >= 0 && epsilon@ <= 0 ==> r == Err::<Scalar, SqrtError>(
            SqrtError::NonPositiveEpsilon,
        ),
        value@ >= 0 && epsilon@ > 0 ==> (r matches Ok(x) && x.wf() && x@ == sqrt_spec(value@)
            && is_isqrt(value@ * SCALE, x@)),
{
    if value.raw < 0 {
        Err(SqrtError::NegativeValue)
    } else if epsilon.raw <= 0 {
        Err(SqrtError::NonPositiveEpsilon)
    } else {
        Ok(value.sqrt())
    }
}

/// The discriminant `b * b - a * c * 4` of `a x^2 + b x + c`.
pub open spec fn discriminant_spec(a: int, b: int, c: int) -> int {
    sub_spec(mul_spec(b, b), mul_spec(mul_spec(a, c), 4 * SCALE))
}

/// The ascending root of `a x^2 + b x + c`: none when the discriminant is not
/// positive; otherwise `2c / (-b - sqrt(d))` when `b >= 0` and
/// `(-b + sqrt(d)) / 2a` when `b < 0`, the forms that avoid cancellation.
pub open spec fn quad_root_spec(a: int, b: int, c: int) -> Option<int> {
    let d = discriminant_spec(a, b, c);
    if d <= 0 {
        None
    } else if b >= 0 {
        Some(div_spec(mul_spec(c, 2 * SCALE), sub_spec(-b, sqrt_spec(d))))
    } else {
        Some(div_spec(add_spec(-b, sqrt_spec(d)), mul_spec(a, 2 * SCALE)))
    }
}

/// The ascending root of the quadratic polynomial `a x^2 + b x + c`.
pub fn quad_root_ascending(a: Scalar, b: Scalar, c: Scalar) -> (r: Option<Scalar>)
    requires
        a.wf(),
        b.wf(),
        c.wf(),
    ensures
        r.is_some() == quad_root_spec(a@, b@, c@).is_some(),
        r matches Some(x) ==> x.wf() && Some(x@) == quad_root_spec(a@, b@, c@),
{
    let two = Scalar::from_int(2);
    let four = Scalar::from_int(4);
    let det = b.mul(b).sub(a.mul(c).mul(four));
    if det.raw <= 0 {
        None
    } else {
        let root = det.sqrt();
        if b.raw >= 0 {
            Some(c.mul(two).div(b.neg().sub(root)))
        } else {
            Some(b.neg().add(root).div(a.mul(two)))
        }
    }
}

/// Identity of a hitbox.
pub type HbId = u64;

/// A sequence of one or two identities that needs no allocation.
#[derive(Clone, Copy, Debug, PartialEq, Eq, PartialOrd, Ord, Hash, Structural)]
pub enum OneOrTwo {
    One(HbId),
    Two(HbId, HbId),
}

impl OneOrTwo {
    /// The identities, in order.
    pub open spec fn items(self) -> Seq<HbId> {
        match self {
            OneOrTwo::One(a) => seq![a],
            OneOrTwo::Two(a, b) => seq![a, b],
        }
    }

    /// The identity paired with `id`: `None` for a single `id`, the other
    /// member of a pair otherwise. `id` must be a member.
    pub fn other_id(self, id: HbId) -> (r: Option<HbId>)
        requires
            self.items().contains(id),
        ensures
            r == match self {
                OneOrTwo::One(_) => None,
                OneOrTwo::Two(a, b) => if a == id {
                    Some(b)
                } else {
                    Some(a)
                },
            },
    {
        proof {
            let s = self.items();
            let i = choose|i: int| 0 <= i < s.len() && s[i] == id;
            assert(s[i] == id);
        }
        match self {
            OneOrTwo::One(_) => None,
            OneOrTwo::Two(a, b) => if a == id {
                Some(b)
            } else {
                Some(a)
            },
        }
    }

    /// A cursor over the identities, from the first.
    pub fn iter(self) -> (r: Iter)
        ensures
            r.one_or_two == self,
            r.index == 0,
    {
        Iter { one_or_two: self, index: 0 }
    }
}

/// A cursor over a `OneOrTwo`.
#[derive(Clone, Copy, Debug, PartialEq, Eq, PartialOrd, Ord, Hash, Structural)]
pub struct Iter {
    pub one_or_two: OneOrTwo,
    pub index: u8,
}

impl Iter {
    /// The identity at the cursor, if any, and the cursor moved past it.
    pub fn next(&mut self) -> (r: Option<HbId>)
        ensures
            final(self).one_or_two == old(self).one_or_two,
            old(self).index < old(self).one_or_two.items().len() ==> r == Some(
                old(self).one_or_two.items()[old(self).index as int],
            ) && final(self).index == old(self).index + 1,
            old(self).index >= old(self).one_or_two.items().len() ==> r.is_none()
                && final(self).index == old(self).index,
    {
        let result = match (self.one_or_two, self.index) {
            (OneOrTwo::One(val), 0) => Some(val),
            (OneOrTwo::Two(val, _), 0) => Some(val),
            (OneOrTwo::Two(_, val), 1) => Some(val),
            _ => None,
        };
        if result.is_some() {
            self.index = self.index + 1;
        }
        result
    }
}

} // verus!
