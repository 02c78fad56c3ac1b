//! Hitboxes that move and resize linearly over a duration, and the solver
//! for the times at which two of them start and stop touching.

use vstd::prelude::*;
use crate::scalar::{Scalar, LIMIT};
use crate::shape::{advance_spec, bounding_box_spec, placed_in_range, PlacedShape, Shape, ShapeKind};
use crate::solvers::{collide_time, collide_time_spec, separate_time, separate_time_spec};
use crate::vec::Vec2;

verus! {

/// The motion of a hitbox: velocity of its center, rate of change of its
/// dimensions, and the time for which the hitbox lasts.
#[derive(Clone, Copy, Debug, PartialEq, Eq, PartialOrd, Ord, Hash, Structural)]
pub struct DurHbVel {
    pub value: Vec2,
    pub resize: Vec2,
    pub duration: Scalar,
}

/// A placed shape with a motion, valid from time zero to its duration.
#[derive(Clone, Copy, Debug, PartialEq, Eq, PartialOrd, Ord, Hash, Structural)]
pub struct DurHitbox {
    pub value: PlacedShape,
    pub vel: DurHbVel,
}

impl DurHbVel {
    pub open spec fn in_range(self) -> bool {
        self.value.wf() && self.resize.wf() && self.duration.wf()
    }

    pub open spec fn is_still_spec(self) -> bool {
        self.value.x@ == 0 && self.value.y@ == 0 && self.resize.x@ == 0 && self.resize.y@ == 0
    }

    /// No motion, lasting forever.
    pub fn still() -> (r: DurHbVel)
        ensures
            r.in_range(),
            r.is_still_spec(),
            r.duration@ == LIMIT,
    {
        DurHbVel { value: Vec2::zero(), resize: Vec2::zero(), duration: Scalar::infinity() }
    }

    pub fn is_still(&self) -> (r: bool)
        ensures
            r == self.is_still_spec(),
    {
        self.value.x.raw == 0 && self.value.y.raw == 0 && self.resize.x.raw == 0
            && self.resize.y.raw == 0
    }

    /// The same motion run backward.
    pub fn negate(&self) -> (r: DurHbVel)
        requires
            self.in_range(),
        ensures
            r.in_range(),
            r == negate_spec(*self),
    {
        DurHbVel { value: self.value.neg(), resize: self.resize.neg(), duration: self.duration }
    }
}

pub open spec fn neg_vec(v: Vec2) -> Vec2 {
    Vec2 { x: Scalar { raw: (-v.x@) as i128 }, y: Scalar { raw: (-v.y@) as i128 } }
}

pub open spec fn negate_spec(v: DurHbVel) -> DurHbVel {
    DurHbVel { value: neg_vec(v.value), resize: neg_vec(v.resize), duration: v.duration }
}

/// Every scalar of the hitbox lies in range.
pub open spec fn hitbox_in_range(h: DurHitbox) -> bool {
    placed_in_range(h.value) && h.vel.in_range()
}

/// The hitbox advanced to time `t`, keeping its motion.
pub open spec fn moved_spec(h: DurHitbox, t: int) -> DurHitbox {
    DurHitbox { value: advance_spec(h.value, h.vel.value, h.vel.resize, t), vel: h.vel }
}

impl DurHitbox {
    /// A valid hitbox: its shape is valid, it lasts a non-negative time, a
    /// circle resizes equally along both axes, and its dimensions are still
    /// non-negative when it ends.
    pub open spec fn wf(self) -> bool {
        &&& self.value.wf()
        &&& self.vel.in_range()
        &&& self.vel.duration@ >= 0
        &&& (self.value.shape.kind == ShapeKind::Circle ==> self.vel.resize.x == self.vel.resize.y)
        &&& advance_spec(
            self.value,
            self.vel.value,
            self.vel.resize,
            self.vel.duration@,
        ).shape.dims.x@ >= 0
        &&& advance_spec(
            self.value,
            self.vel.value,
            self.vel.resize,
            self.vel.duration@,
        ).shape.dims.y@ >= 0
    }

    /// A hitbox that stays still forever.
    pub fn new(value: PlacedShape) -> (r: DurHitbox)
        ensures
            r.value == value,
            r.vel.is_still_spec(),
            r.vel.in_range(),
            r.vel.duration@ == LIMIT,
    {
        DurHitbox { value, vel: DurHbVel::still() }
    }

    /// The shape at time `time`.
    pub fn advanced_shape(&self, time: Scalar) -> (r: PlacedShape)
        requires
            hitbox_in_range(*self),
            time.wf(),
        ensures
            placed_in_range(r),
            r == advance_spec(self.value, self.vel.value, self.vel.resize, time@),
    {
        self.value.moved(self.vel.value, self.vel.resize, time)
    }

    /// The rectangle that holds the hitbox over its whole duration.
    pub fn bounding_box(&self) -> (r: PlacedShape)
        requires
            hitbox_in_range(*self),
        ensures
            placed_in_range(r),
            r == bounding_box_for_spec(*self, self.vel.duration@),
    {
        self.bounding_box_for(self.vel.duration)
    }

    /// The rectangle that holds the hitbox from time zero to `duration`.
    pub fn bounding_box_for(&self, duration: Scalar) -> (r: PlacedShape)
        requires
            hitbox_in_range(*self),
            duration.wf(),
        ensures
            placed_in_range(r),
            r == bounding_box_for_spec(*self, duration@),
    {
        if self.vel.is_still() {
            self.value.as_rect()
        } else {
            let end_value = self.advanced_shape(duration);
            self.value.bounding_box(&end_value)
        }
    }

    /// The earliest time at which the two hitboxes touch, or infinity.
    pub fn collide_time(&self, other: &DurHitbox) -> (r: Scalar)
        requires
            hitbox_in_range(*self),
            hitbox_in_range(*other),
        ensures
            r.wf(),
            r@ == collide_time_spec(*self, *other),
            0 <= r@ <= LIMIT,
    {
        collide_time(self, other)
    }

    /// The earliest time at which the two hitboxes are `padding` apart, or
    /// infinity.
    pub fn separate_time(&self, other: &DurHitbox, padding: Scalar) -> (r: Scalar)
        requires
            hitbox_in_range(*self),
            hitbox_in_range(*other),
            padding.wf(),
        ensures
            r.wf(),
            r@ == separate_time_spec(*self, *other, padding@),
            0 <= r@ <= LIMIT,
    {
        separate_time(self, other, padding)
    }
}

pub open spec fn bounding_box_for_spec(h: DurHitbox, duration: int) -> PlacedShape {
    if h.vel.is_still_spec() {
        PlacedShape {
            pos: h.value.pos,
            shape: Shape { kind: ShapeKind::Rect, dims: h.value.shape.dims },
        }
    } else {
        bounding_box_spec(h.value, advance_spec(h.value, h.vel.value, h.vel.resize, duration))
    }
}

} // verus!
