//! The collide and separate times of two hitboxes.

use vstd::prelude::*;
use crate::card::{card_at, card_index, flip_spec, Card};
use crate::dur_hitbox::{
    bounding_box_for_spec, hitbox_in_range, moved_spec, negate_spec, DurHbVel, DurHitbox,
};
use crate::scalar::{
    abs_spec, add_spec, clamp, div_spec, half_spec, max_spec, min_spec, mul_spec, sub_spec, tdiv,
    Scalar, LIMIT, SCALE,
};
use crate::shape::{
    bounds_card_overlap, bounds_corner, boxes_overlap_spec, card_overlap_spec, corner_spec,
    sector_spec, PlacedShape, Shape, ShapeKind,
};
use crate::util::{quad_root_ascending, quad_root_spec};
use crate::vec::{dot_spec, len_sq_spec, sub_vec, Vec2};

verus! {

/// Present overlap of the bounding rectangles of `a` and `b` along `card`.
pub open spec fn axis_overlap(a: DurHitbox, b: DurHitbox, card: Card) -> int {
    card_overlap_spec(a.value.pos, a.value.shape.dims, b.value.pos, b.value.shape.dims, card)
}

/// Rate at which that overlap grows.
pub open spec fn axis_rate(a: DurHitbox, b: DurHitbox, card: Card) -> int {
    card_overlap_spec(a.vel.value, a.vel.resize, b.vel.value, b.vel.resize, card)
}

/// The time at which the overlap along `card` becomes zero.
pub open spec fn axis_root(a: DurHitbox, b: DurHitbox, card: Card) -> int {
    div_spec(-axis_overlap(a, b, card), axis_rate(a, b, card))
}

/// The time from which an axis that is apart now overlaps (zero for an axis
/// that overlaps now).
pub open spec fn entry_term(a: DurHitbox, b: DurHitbox, card: Card) -> int {
    if axis_overlap(a, b, card) < 0 {
        axis_root(a, b, card)
    } else {
        0
    }
}

/// The time until which an axis that overlaps now keeps overlapping
/// (infinity when it never stops).
pub open spec fn exit_term(a: DurHitbox, b: DurHitbox, card: Card) -> int {
    if axis_overlap(a, b, card) >= 0 && axis_rate(a, b, card) < 0 {
        axis_root(a, b, card)
    } else {
        LIMIT as int
    }
}

/// Start of the interval in which the first `n` axes overlap together.
pub open spec fn start_upto(a: DurHitbox, b: DurHitbox, n: int) -> int
    decreases n,
{
    if n <= 0 {
        0
    } else {
        max_spec(start_upto(a, b, n - 1), entry_term(a, b, card_at(n - 1)))
    }
}

/// End of the interval in which the first `n` axes overlap together.
pub open spec fn end_upto(a: DurHitbox, b: DurHitbox, n: int) -> int
    decreases n,
{
    if n <= 0 {
        LIMIT as int
    } else {
        min_spec(end_upto(a, b, n - 1), exit_term(a, b, card_at(n - 1)))
    }
}

/// The axis `card` rules out an answer: for a collision, it is apart and not
/// closing; for a separation, it is apart or only touching already.
pub open spec fn axis_blocks(a: DurHitbox, b: DurHitbox, for_collide: bool, card: Card) -> bool {
    if for_collide {
        axis_overlap(a, b, card) < 0 && axis_rate(a, b, card) <= 0
    } else {
        axis_overlap(a, b, card) <= 0
    }
}

pub open spec fn some_axis_blocks(a: DurHitbox, b: DurHitbox, for_collide: bool, n: int) -> bool {
    exists|i: int| 0 <= i < n && #[trigger] axis_blocks(a, b, for_collide, card_at(i))
}

/// Collision or separation time of two rectangles, ignoring durations. The
/// four axes overlap or touch together over `[start, end]`: a collision is
/// at `start`, a separation at `end`. A blocking axis or an empty interval
/// (`start > end`) gives infinity for a collision and zero for a
/// separation; a single instant counts, as a touch.
pub open spec fn rect_rect_spec(a: DurHitbox, b: DurHitbox, for_collide: bool) -> int {
    let start = start_upto(a, b, 4);
    let end = end_upto(a, b, 4);
    if some_axis_blocks(a, b, for_collide, 4) || start > end {
        if for_collide {
            LIMIT as int
        } else {
            0
        }
    } else if for_collide {
        start
    } else {
        end
    }
}

proof fn lemma_upto_monotone(a: DurHitbox, b: DurHitbox, i: int, n: int)
    requires
        0 <= i <= n,
    ensures
        start_upto(a, b, i) <= start_upto(a, b, n),
        end_upto(a, b, n) <= end_upto(a, b, i),
    decreases n - i,
{
    if i < n {
        lemma_upto_monotone(a, b, i, n - 1);
    }
}

fn rect_rect_time(a: &DurHitbox, b: &DurHitbox, for_collide: bool) -> (r: Scalar)
    requires
        hitbox_in_range(*a),
        hitbox_in_range(*b),
    ensures
        r.wf(),
        r@ == rect_rect_spec(*a, *b, for_collide),
        0 <= r@ <= LIMIT,
{
    let mut overlap_start = Scalar::zero();
    let mut overlap_end = Scalar::infinity();
    let cards = Card::values();
    let mut i: usize = 0;
    while i < 4
        invariant
            hitbox_in_range(*a),
            hitbox_in_range(*b),
            0 <= i <= 4,
            forall|j: int| 0 <= j < 4 ==> #[trigger] cards@[j] == card_at(j),
            overlap_start.wf(),
            overlap_end.wf(),
            overlap_start@ == start_upto(*a, *b, i as int),
            overlap_end@ == end_upto(*a, *b, i as int),
            !some_axis_blocks(*a, *b, for_collide, i as int),
            overlap_start@ <= overlap_end@,
            0 <= overlap_start@,
            overlap_end@ <= LIMIT,
        decreases 4 - i,
    {
        let card = cards[i];
        let overlap = bounds_card_overlap(
            &a.value.pos,
            &a.value.shape.dims,
            &b.value.pos,
            &b.value.shape.dims,
            card,
        );
        let overlap_vel = bounds_card_overlap(
            &a.vel.value,
            &a.vel.resize,
            &b.vel.value,
            &b.vel.resize,
            card,
        );
        if !for_collide && overlap.raw <= 0 {
            proof {
                assert(axis_blocks(*a, *b, for_collide, card_at(i as int)));
                assert(some_axis_blocks(*a, *b, for_collide, 4));
            }
            return Scalar::zero();
        }
        if overlap.raw < 0 {
            if overlap_vel.raw <= 0 {
                proof {
                    assert(axis_blocks(*a, *b, for_collide, card_at(i as int)));
                    assert(some_axis_blocks(*a, *b, for_collide, 4));
                }
                return if for_collide {
                    Scalar::infinity()
                } else {
                    Scalar::zero()
                };
            } else {
                overlap_start = overlap_start.max(overlap.neg().div(overlap_vel));
            }
        } else if overlap_vel.raw < 0 {
            overlap_end = overlap_end.min(overlap.neg().div(overlap_vel));
        }
        assert(overlap_start@ == start_upto(*a, *b, i + 1));
        assert(overlap_end@ == end_upto(*a, *b, i + 1));
        assert(!some_axis_blocks(*a, *b, for_collide, i + 1)) by {
            if some_axis_blocks(*a, *b, for_collide, i + 1) {
                let j = choose|j: int|
                    0 <= j < i + 1 && #[trigger] axis_blocks(*a, *b, for_collide, card_at(j));
                if j < i {
                    assert(some_axis_blocks(*a, *b, for_collide, i as int));
                }
            }
        }
        if overlap_start.raw > overlap_end.raw {
            proof {
                lemma_upto_monotone(*a, *b, i + 1, 4);
            }
            return if for_collide {
                Scalar::infinity()
            } else {
                Scalar::zero()
            };
        }
        i = i + 1;
    }
    if for_collide {
        overlap_start
    } else {
        overlap_end
    }
}


/// `x` for a collision, `-x` for a separation.
pub open spec fn signed(x: int, for_collide: bool) -> int {
    if for_collide {
        x
    } else {
        -x
    }
}

/// Sum of the two radii.
pub open spec fn net_rad(a: DurHitbox, b: DurHitbox) -> int {
    half_spec(add_spec(a.value.shape.dims.x@, b.value.shape.dims.x@))
}

/// Rate of change of the sum of the two radii.
pub open spec fn net_rad_vel(a: DurHitbox, b: DurHitbox) -> int {
    half_spec(add_spec(a.vel.resize.x@, b.vel.resize.x@))
}

pub open spec fn center_offset(a: DurHitbox, b: DurHitbox) -> Vec2 {
    sub_vec(a.value.pos, b.value.pos)
}

pub open spec fn center_offset_vel(a: DurHitbox, b: DurHitbox) -> Vec2 {
    sub_vec(a.vel.value, b.vel.value)
}

/// The circles touch when `r(t)^2 = d(t)^2`, with `r` the sum of the radii
/// and `d` the distance of the centers; that is `A t^2 + B t + C = 0`, with
/// the sign chosen so that the root sought is the ascending one.
pub open spec fn coeff_a(a: DurHitbox, b: DurHitbox, for_collide: bool) -> int {
    let rv = net_rad_vel(a, b);
    signed(sub_spec(mul_spec(rv, rv), len_sq_spec(center_offset_vel(a, b))), for_collide)
}

pub open spec fn coeff_b(a: DurHitbox, b: DurHitbox, for_collide: bool) -> int {
    let inner = sub_spec(
        mul_spec(net_rad(a, b), net_rad_vel(a, b)),
        dot_spec(center_offset(a, b), center_offset_vel(a, b)),
    );
    signed(mul_spec(2 * SCALE, inner), for_collide)
}

pub open spec fn coeff_c(a: DurHitbox, b: DurHitbox, for_collide: bool) -> int {
    let r = net_rad(a, b);
    signed(sub_spec(mul_spec(r, r), len_sq_spec(center_offset(a, b))), for_collide)
}

/// Collision or separation time of two circles, ignoring durations: zero
/// when it holds already (the circles touch or overlap, for a collision; they
/// touch or are apart, for a separation), else the ascending root when it is not negative,
/// else infinity.
pub open spec fn circle_circle_spec(a: DurHitbox, b: DurHitbox, for_collide: bool) -> int {
    if coeff_c(a, b, for_collide) >= 0 {
        0
    } else {
        match quad_root_spec(
            coeff_a(a, b, for_collide),
            coeff_b(a, b, for_collide),
            coeff_c(a, b, for_collide),
        ) {
            Some(r) => if r >= 0 {
                r
            } else {
                LIMIT as int
            },
            None => LIMIT as int,
        }
    }
}

fn signed_scalar(x: Scalar, for_collide: bool) -> (r: Scalar)
    requires
        x.wf(),
    ensures
        r.wf(),
        r@ == signed(x@, for_collide),
{
    if for_collide {
        x
    } else {
        x.neg()
    }
}

fn circle_circle_time(a: &DurHitbox, b: &DurHitbox, for_collide: bool) -> (r: Scalar)
    requires
        hitbox_in_range(*a),
        hitbox_in_range(*b),
    ensures
        r.wf(),
        r@ == circle_circle_spec(*a, *b, for_collide),
        0 <= r@ <= LIMIT,
{
    let net_rad = a.value.shape.dims.x.add(b.value.shape.dims.x).half();
    let dist = a.value.pos.sub(b.value.pos);
    let c = signed_scalar(net_rad.mul(net_rad).sub(dist.len_sq()), for_collide);
    if c.raw >= 0 {
        return Scalar::zero();
    }
    let net_rad_vel = a.vel.resize.x.add(b.vel.resize.x).half();
    let dist_vel = a.vel.value.sub(b.vel.value);
    let qa = signed_scalar(net_rad_vel.mul(net_rad_vel).sub(dist_vel.len_sq()), for_collide);
    let two = Scalar::from_int(2);
    let qb = signed_scalar(two.mul(net_rad.mul(net_rad_vel).sub(dist.dot(dist_vel))), for_collide);
    match quad_root_ascending(qa, qb, c) {
        Some(result) => if result.raw >= 0 {
            result
        } else {
            Scalar::infinity()
        },
        None => Scalar::infinity(),
    }
}

// ---------------------------------------------------------------------------
/// A circle of diameter zero at the corner of `rect` given by `sector`,
/// moving with that corner.
pub open spec fn corner_hitbox(rect: DurHitbox, sector: crate::shape::Sector) -> DurHitbox {
    let c = corner_spec(rect.value.pos, rect.value.shape.dims, sector);
    let cv = corner_spec(rect.vel.value, rect.vel.resize, sector);
    DurHitbox {
        value: PlacedShape {
            pos: Vec2 { x: Scalar { raw: c.0 as i128 }, y: Scalar { raw: c.1 as i128 } },
            shape: Shape {
                kind: ShapeKind::Circle,
                dims: Vec2 { x: Scalar { raw: 0 }, y: Scalar { raw: 0 } },
            },
        },
        vel: DurHbVel {
            value: Vec2 { x: Scalar { raw: cv.0 as i128 }, y: Scalar { raw: cv.1 as i128 } },
            resize: Vec2 { x: Scalar { raw: 0 }, y: Scalar { raw: 0 } },
            duration: Scalar { raw: LIMIT },
        },
    }
}

/// From an instant at which the bounding rectangles touch: zero when the
/// circle's center lies beside an edge of the rectangle, else the time until
/// the circle meets the nearest corner.
pub open spec fn rebased_spec(rect: DurHitbox, circle: DurHitbox) -> int {
    let s = sector_spec(rect.value.pos, rect.value.shape.dims, circle.value.pos);
    if s.is_corner_spec() {
        circle_circle_spec(corner_hitbox(rect, s), circle, true)
    } else {
        0
    }
}

pub open spec fn negated(h: DurHitbox) -> DurHitbox {
    DurHitbox { value: h.value, vel: negate_spec(h.vel) }
}

/// Collision time of a rectangle and a circle: the collision time of the
/// rectangle and the circle's bounding square, then the time to the corner
/// from there.
pub open spec fn rect_circle_collide_spec(rect: DurHitbox, circle: DurHitbox, duration: int) -> int {
    let base = rect_rect_spec(rect, circle, true);
    if base >= duration {
        LIMIT as int
    } else {
        add_spec(base, rebased_spec(moved_spec(rect, base), moved_spec(circle, base)))
    }
}

/// Separation time of a rectangle and a circle: the separation time of the
/// rectangle and the circle's bounding square, less the time back to the
/// last contact with a corner, and not below zero.
pub open spec fn rect_circle_separate_spec(rect: DurHitbox, circle: DurHitbox) -> int {
    let base = rect_rect_spec(rect, circle, false);
    if base == 0 {
        0
    } else {
        max_spec(
            sub_spec(
                base,
                rebased_spec(negated(moved_spec(rect, base)), negated(moved_spec(circle, base))),
            ),
            0,
        )
    }
}

fn rebased_rect_circle_collide_time(rect: &DurHitbox, circle: &DurHitbox) -> (r: Scalar)
    requires
        hitbox_in_range(*rect),
        hitbox_in_range(*circle),
    ensures
        r.wf(),
        r@ == rebased_spec(*rect, *circle),
        0 <= r@ <= LIMIT,
{
    let sector = rect.value.sector(circle.value.pos);
    if sector.is_corner() {
        let corner = DurHitbox {
            value: PlacedShape {
                pos: rect.value.corner(sector),
                shape: Shape { kind: ShapeKind::Circle, dims: Vec2::zero() },
            },
            vel: DurHbVel {
                value: bounds_corner(&rect.vel.value, &rect.vel.resize, sector),
                resize: Vec2::zero(),
                duration: Scalar::infinity(),
            },
        };
        assert(corner == corner_hitbox(*rect, sector));
        circle_circle_time(&corner, circle, true)
    } else {
        Scalar::zero()
    }
}

fn rect_circle_collide_time(rect: &DurHitbox, circle: &DurHitbox, duration: Scalar) -> (r: Scalar)
    requires
        hitbox_in_range(*rect),
        hitbox_in_range(*circle),
        duration.wf(),
    ensures
        r.wf(),
        r@ == rect_circle_collide_spec(*rect, *circle, duration@),
        0 <= r@ <= LIMIT,
{
    let base_time = rect_rect_time(rect, circle, true);
    if base_time.raw >= duration.raw {
        Scalar::infinity()
    } else {
        let moved_rect = DurHitbox { value: rect.advanced_shape(base_time), vel: rect.vel };
        let moved_circle = DurHitbox { value: circle.advanced_shape(base_time), vel: circle.vel };
        base_time.add(rebased_rect_circle_collide_time(&moved_rect, &moved_circle))
    }
}

fn rect_circle_separate_time(rect: &DurHitbox, circle: &DurHitbox) -> (r: Scalar)
    requires
        hitbox_in_range(*rect),
        hitbox_in_range(*circle),
    ensures
        r.wf(),
        r@ == rect_circle_separate_spec(*rect, *circle),
        0 <= r@ <= LIMIT,
{
    let base_time = rect_rect_time(rect, circle, false);
    if base_time.raw == 0 {
        return Scalar::zero();
    }
    let back_rect = DurHitbox { value: rect.advanced_shape(base_time), vel: rect.vel.negate() };
    let back_circle = DurHitbox {
        value: circle.advanced_shape(base_time),
        vel: circle.vel.negate(),
    };
    base_time.sub(rebased_rect_circle_collide_time(&back_rect, &back_circle)).max(Scalar::zero())
}

// ---------------------------------------------------------------------------
/// The solver's answer for the pair's kinds, promoted to infinity when it is
/// not before `duration`.
pub open spec fn time_unpadded_spec(
    a: DurHitbox,
    b: DurHitbox,
    for_collide: bool,
    duration: int,
) -> int {
    let result = match (a.value.shape.kind, b.value.shape.kind) {
        (ShapeKind::Rect, ShapeKind::Rect) => rect_rect_spec(a, b, for_collide),
        (ShapeKind::Circle, ShapeKind::Circle) => circle_circle_spec(a, b, for_collide),
        (ShapeKind::Rect, ShapeKind::Circle) => if for_collide {
            rect_circle_collide_spec(a, b, duration)
        } else {
            rect_circle_separate_spec(a, b)
        },
        (ShapeKind::Circle, ShapeKind::Rect) => if for_collide {
            rect_circle_collide_spec(b, a, duration)
        } else {
            rect_circle_separate_spec(b, a)
        },
    };
    if result >= duration {
        LIMIT as int
    } else {
        result
    }
}

fn time_unpadded(a: &DurHitbox, b: &DurHitbox, for_collide: bool, duration: Scalar) -> (r: Scalar)
    requires
        hitbox_in_range(*a),
        hitbox_in_range(*b),
        duration.wf(),
    ensures
        r.wf(),
        r@ == time_unpadded_spec(*a, *b, for_collide, duration@),
        0 <= r@ <= LIMIT,
{
    let result = match (a.value.shape.kind, b.value.shape.kind) {
        (ShapeKind::Rect, ShapeKind::Rect) => rect_rect_time(a, b, for_collide),
        (ShapeKind::Circle, ShapeKind::Circle) => circle_circle_time(a, b, for_collide),
        (ShapeKind::Rect, ShapeKind::Circle) => if for_collide {
            rect_circle_collide_time(a, b, duration)
        } else {
            rect_circle_separate_time(a, b)
        },
        (ShapeKind::Circle, ShapeKind::Rect) => if for_collide {
            rect_circle_collide_time(b, a, duration)
        } else {
            rect_circle_separate_time(b, a)
        },
    };
    if result.raw >= duration.raw {
        Scalar::infinity()
    } else {
        result
    }
}

/// The earliest time at which `a` and `b` touch within both durations, or
/// infinity: infinity at once when the rectangles that they sweep over the
/// shorter duration do not overlap.
pub open spec fn collide_time_spec(a: DurHitbox, b: DurHitbox) -> int {
    let duration = min_spec(a.vel.duration@, b.vel.duration@);
    let ba = bounding_box_for_spec(a, duration);
    let bb = bounding_box_for_spec(b, duration);
    if boxes_overlap_spec(ba.pos, ba.shape.dims, bb.pos, bb.shape.dims) {
        time_unpadded_spec(a, b, true, duration)
    } else {
        LIMIT as int
    }
}

/// `h` grown by `padding` on every side.
pub open spec fn padded(h: DurHitbox, padding: int) -> DurHitbox {
    let grow = mul_spec(padding, 2 * SCALE);
    DurHitbox {
        value: PlacedShape {
            pos: h.value.pos,
            shape: Shape {
                kind: h.value.shape.kind,
                dims: Vec2 {
                    x: Scalar { raw: add_spec(h.value.shape.dims.x@, grow) as i128 },
                    y: Scalar { raw: add_spec(h.value.shape.dims.y@, grow) as i128 },
                },
            },
        },
        vel: h.vel,
    }
}

/// The earliest time at which `a` and `b` are `padding` apart within both
/// durations, or infinity. The padding is added to the circle of a
/// rectangle-circle pair, else to `a`.
pub open spec fn separate_time_spec(a: DurHitbox, b: DurHitbox, padding: int) -> int {
    let swap = a.value.shape.kind == ShapeKind::Rect && b.value.shape.kind == ShapeKind::Circle;
    let first = if swap {
        b
    } else {
        a
    };
    let second = if swap {
        a
    } else {
        b
    };
    time_unpadded_spec(
        padded(first, padding),
        second,
        false,
        min_spec(first.vel.duration@, second.vel.duration@),
    )
}

/// The earliest time at which the two hitboxes touch, or infinity.
pub fn collide_time(a: &DurHitbox, b: &DurHitbox) -> (r: Scalar)
    requires
        hitbox_in_range(*a),
        hitbox_in_range(*b),
    ensures
        r.wf(),
        r@ == collide_time_spec(*a, *b),
        0 <= r@ <= LIMIT,
{
    let duration = a.vel.duration.min(b.vel.duration);
    if a.bounding_box_for(duration).boxes_overlap(&b.bounding_box_for(duration)) {
        time_unpadded(a, b, true, duration)
    } else {
        Scalar::infinity()
    }
}

/// The earliest time at which the two hitboxes are `padding` apart, or
/// infinity.
pub fn separate_time(a: &DurHitbox, b: &DurHitbox, padding: Scalar) -> (r: Scalar)
    requires
        hitbox_in_range(*a),
        hitbox_in_range(*b),
        padding.wf(),
    ensures
        r.wf(),
        r@ == separate_time_spec(*a, *b, padding@),
        0 <= r@ <= LIMIT,
{
    let (first, second) = match (a.value.shape.kind, b.value.shape.kind) {
        (ShapeKind::Rect, ShapeKind::Circle) => (b, a),
        _ => (a, b),
    };
    let grow = padding.mul(Scalar::from_int(2));
    let dims = first.value.shape.dims;
    let grown = DurHitbox {
        value: PlacedShape {
            pos: first.value.pos,
            shape: Shape {
                kind: first.value.shape.kind,
                dims: Vec2 { x: dims.x.add(grow), y: dims.y.add(grow) },
            },
        },
        vel: first.vel,
    };
    time_unpadded(&grown, second, false, first.vel.duration.min(second.vel.duration))
}

// ---------------------------------------------------------------------------
proof fn lemma_axis_swap(a: DurHitbox, b: DurHitbox, c: Card)
    ensures
        axis_overlap(b, a, flip_spec(c)) == axis_overlap(a, b, c),
        axis_rate(b, a, flip_spec(c)) == axis_rate(a, b, c),
        entry_term(b, a, flip_spec(c)) == entry_term(a, b, c),
        exit_term(b, a, flip_spec(c)) == exit_term(a, b, c),
        axis_blocks(b, a, true, flip_spec(c)) == axis_blocks(a, b, true, c),
        axis_blocks(b, a, false, flip_spec(c)) == axis_blocks(a, b, false, c),
{
    assert(flip_spec(flip_spec(c)) == c);
}

proof fn lemma_rect_rect_symmetric(a: DurHitbox, b: DurHitbox, for_collide: bool)
    ensures
        rect_rect_spec(a, b, for_collide) == rect_rect_spec(b, a, for_collide),
{
    lemma_axis_swap(a, b, Card::MinusX);
    lemma_axis_swap(a, b, Card::MinusY);
    lemma_axis_swap(a, b, Card::PlusX);
    lemma_axis_swap(a, b, Card::PlusY);
    reveal_with_fuel(start_upto, 5);
    reveal_with_fuel(end_upto, 5);
    assert(start_upto(a, b, 4) == start_upto(b, a, 4));
    assert(end_upto(a, b, 4) == end_upto(b, a, 4));
    assert(some_axis_blocks(a, b, for_collide, 4) == some_axis_blocks(b, a, for_collide, 4)) by {
        if some_axis_blocks(a, b, for_collide, 4) {
            let i = choose|i: int| 0 <= i < 4 && #[trigger] axis_blocks(a, b, for_collide, card_at(i));
            let j = card_index(flip_spec(card_at(i)));
            assert(axis_blocks(b, a, for_collide, card_at(j)));
        }
        if some_axis_blocks(b, a, for_collide, 4) {
            let i = choose|i: int| 0 <= i < 4 && #[trigger] axis_blocks(b, a, for_collide, card_at(i));
            let j = card_index(flip_spec(card_at(i)));
            lemma_axis_swap(b, a, card_at(i));
            assert(axis_blocks(a, b, for_collide, card_at(j)));
        }
    }
}

proof fn lemma_mul_neg_neg(x: int, y: int)
    ensures
        mul_spec(-x, -y) == mul_spec(x, y),
{
    assert((-x) * (-y) == x * y) by (nonlinear_arith);
}

proof fn lemma_circle_circle_symmetric(a: DurHitbox, b: DurHitbox)
    requires
        hitbox_in_range(a),
        hitbox_in_range(b),
    ensures
        circle_circle_spec(a, b, true) == circle_circle_spec(b, a, true),
{
    let p = center_offset(a, b);
    let v = center_offset_vel(a, b);
    lemma_mul_neg_neg(p.x@, p.x@);
    lemma_mul_neg_neg(p.y@, p.y@);
    lemma_mul_neg_neg(v.x@, v.x@);
    lemma_mul_neg_neg(v.y@, v.y@);
    lemma_mul_neg_neg(p.x@, v.x@);
    lemma_mul_neg_neg(p.y@, v.y@);
    assert(coeff_a(a, b, true) == coeff_a(b, a, true));
    assert(coeff_b(a, b, true) == coeff_b(b, a, true));
    assert(coeff_c(a, b, true) == coeff_c(b, a, true));
}

/// The collision time does not depend on the order of the two hitboxes.
pub proof fn lemma_collide_time_symmetric(a: DurHitbox, b: DurHitbox)
    requires
        hitbox_in_range(a),
        hitbox_in_range(b),
    ensures
        collide_time_spec(a, b) == collide_time_spec(b, a),
{
    let duration = min_spec(a.vel.duration@, b.vel.duration@);
    assert(duration == min_spec(b.vel.duration@, a.vel.duration@));
    let ba = bounding_box_for_spec(a, duration);
    let bb = bounding_box_for_spec(b, duration);
    assert(boxes_overlap_spec(ba.pos, ba.shape.dims, bb.pos, bb.shape.dims) == boxes_overlap_spec(
        bb.pos,
        bb.shape.dims,
        ba.pos,
        ba.shape.dims,
    )) by {
        assert forall|c: Card|
            #![auto]
            card_overlap_spec(ba.pos, ba.shape.dims, bb.pos, bb.shape.dims, c)
                == card_overlap_spec(
                bb.pos,
                bb.shape.dims,
                ba.pos,
                ba.shape.dims,
                flip_spec(c),
            ) by {
            assert(flip_spec(flip_spec(c)) == c);
        }
        if boxes_overlap_spec(ba.pos, ba.shape.dims, bb.pos, bb.shape.dims) {
            assert forall|c: Card|
                card_overlap_spec(bb.pos, bb.shape.dims, ba.pos, ba.shape.dims, c) >= 0 by {
                assert(flip_spec(flip_spec(c)) == c);
                assert(card_overlap_spec(ba.pos, ba.shape.dims, bb.pos, bb.shape.dims, flip_spec(c))
                    >= 0);
            }
        }
        if boxes_overlap_spec(bb.pos, bb.shape.dims, ba.pos, ba.shape.dims) {
            assert forall|c: Card|
                card_overlap_spec(ba.pos, ba.shape.dims, bb.pos, bb.shape.dims, c) >= 0 by {
                assert(card_overlap_spec(bb.pos, bb.shape.dims, ba.pos, ba.shape.dims, flip_spec(c))
                    >= 0);
            }
        }
    }
    lemma_rect_rect_symmetric(a, b, true);
    lemma_circle_circle_symmetric(a, b);
}

/// Positions and sizes small enough that growing a shape by the padding
/// never reaches the scalar's saturation.
pub open spec fn unsaturated(h: DurHitbox, padding: int) -> bool {
    let bound = LIMIT / 16;
    &&& -bound <= h.value.pos.x@ <= bound
    &&& -bound <= h.value.pos.y@ <= bound
    &&& 0 <= h.value.shape.dims.x@ <= bound
    &&& 0 <= h.value.shape.dims.y@ <= bound
    &&& 0 <= padding <= bound
}

proof fn lemma_padded_axis(a: DurHitbox, b: DurHitbox, padding: int, c: Card)
    requires
        hitbox_in_range(a),
        hitbox_in_range(b),
        unsaturated(a, padding),
        unsaturated(b, padding),
    ensures
        axis_overlap(padded(a, padding), b, c) == axis_overlap(a, padded(b, padding), c),
        axis_rate(padded(a, padding), b, c) == axis_rate(a, padded(b, padding), c),
{
    let s = SCALE as int;
    assert((padding * (2 * s)) / s == 2 * padding) by (nonlinear_arith)
        requires
            s > 0,
    ;
    assert(mul_spec(padding, 2 * s) == 2 * padding);
}

proof fn lemma_padding_either_side(a: DurHitbox, b: DurHitbox, padding: int)
    requires
        hitbox_in_range(a),
        hitbox_in_range(b),
        unsaturated(a, padding),
        unsaturated(b, padding),
    ensures
        rect_rect_spec(padded(a, padding), b, false) == rect_rect_spec(
            a,
            padded(b, padding),
            false,
        ),
{
    let a2 = padded(a, padding);
    let b2 = padded(b, padding);
    lemma_padded_axis(a, b, padding, Card::MinusX);
    lemma_padded_axis(a, b, padding, Card::MinusY);
    lemma_padded_axis(a, b, padding, Card::PlusX);
    lemma_padded_axis(a, b, padding, Card::PlusY);
    reveal_with_fuel(start_upto, 5);
    reveal_with_fuel(end_upto, 5);
    assert(start_upto(a2, b, 4) == start_upto(a, b2, 4));
    assert(end_upto(a2, b, 4) == end_upto(a, b2, 4));
    assert(some_axis_blocks(a2, b, false, 4) == some_axis_blocks(a, b2, false, 4)) by {
        if some_axis_blocks(a2, b, false, 4) {
            let i = choose|i: int| 0 <= i < 4 && #[trigger] axis_blocks(a2, b, false, card_at(i));
            assert(axis_blocks(a, b2, false, card_at(i)));
        }
        if some_axis_blocks(a, b2, false, 4) {
            let i = choose|i: int| 0 <= i < 4 && #[trigger] axis_blocks(a, b2, false, card_at(i));
            assert(axis_blocks(a2, b, false, card_at(i)));
        }
    }
}

/// The separation time does not depend on the order of the two hitboxes,
/// for shapes and a padding small enough not to saturate.
pub proof fn lemma_separate_time_symmetric(a: DurHitbox, b: DurHitbox, padding: int)
    requires
        hitbox_in_range(a),
        hitbox_in_range(b),
        unsaturated(a, padding),
        unsaturated(b, padding),
    ensures
        separate_time_spec(a, b, padding) == separate_time_spec(b, a, padding),
{
    let s = SCALE as int;
    assert((padding * (2 * s)) / s == 2 * padding) by (nonlinear_arith)
        requires
            s > 0,
    ;
    assert(mul_spec(padding, 2 * s) == 2 * padding);
    let a2 = padded(a, padding);
    let b2 = padded(b, padding);
    assert(min_spec(a.vel.duration@, b.vel.duration@) == min_spec(
        b.vel.duration@,
        a.vel.duration@,
    ));
    if a.value.shape.kind == ShapeKind::Rect && b.value.shape.kind == ShapeKind::Rect {
        lemma_padding_either_side(a, b, padding);
        lemma_rect_rect_symmetric(a, b2, false);
    } else if a.value.shape.kind == ShapeKind::Circle && b.value.shape.kind == ShapeKind::Circle {
        let p = center_offset(a, b);
        let v = center_offset_vel(a, b);
        lemma_mul_neg_neg(p.x@, p.x@);
        lemma_mul_neg_neg(p.y@, p.y@);
        lemma_mul_neg_neg(p.x@, v.x@);
        lemma_mul_neg_neg(p.y@, v.y@);
        lemma_mul_neg_neg(v.x@, v.x@);
        lemma_mul_neg_neg(v.y@, v.y@);
        assert(net_rad(a2, b) == net_rad(b2, a));
        assert(coeff_a(a2, b, false) == coeff_a(b2, a, false));
        assert(coeff_b(a2, b, false) == coeff_b(b2, a, false));
        assert(coeff_c(a2, b, false) == coeff_c(b2, a, false));
    }
}

/// Two rectangles that last a positive time and are apart or only touching
/// along some axis now are separated at once: their separation time without
/// padding is positive only while they strictly overlap.
pub proof fn lemma_rect_separate_positive_only_when_overlapping(a: DurHitbox, b: DurHitbox)
    requires
        hitbox_in_range(a),
        hitbox_in_range(b),
        a.value.shape.kind == ShapeKind::Rect,
        b.value.shape.kind == ShapeKind::Rect,
        a.vel.duration@ > 0,
        b.vel.duration@ > 0,
        separate_time_spec(a, b, 0) > 0,
    ensures
        forall|c: Card| axis_overlap(a, b, c) > 0,
{
    assert(mul_spec(0, 2 * SCALE) == 0);
    assert(padded(a, 0) == a);
    assert forall|c: Card| axis_overlap(a, b, c) > 0 by {
        if axis_overlap(a, b, c) <= 0 {
            assert(c == card_at(card_index(c)));
            assert(axis_blocks(a, b, false, card_at(card_index(c))));
            assert(some_axis_blocks(a, b, false, 4));
        }
    }
}

/// Two rectangles that strictly overlap now, along every axis by more than
/// the axis closes in one raw unit of time, have a positive separation time
/// without padding.
pub proof fn lemma_rect_overlapping_separate_positive(a: DurHitbox, b: DurHitbox)
    requires
        hitbox_in_range(a),
        hitbox_in_range(b),
        a.value.shape.kind == ShapeKind::Rect,
        b.value.shape.kind == ShapeKind::Rect,
        forall|c: Card|
            #![trigger axis_overlap(a, b, c)]
            axis_overlap(a, b, c) > 0 && axis_overlap(a, b, c) * SCALE >= abs_spec(
                axis_rate(a, b, c),
            ),
    ensures
        separate_time_spec(a, b, 0) > 0,
{
    assert(mul_spec(0, 2 * SCALE) == 0);
    assert(padded(a, 0) == a);
    reveal_with_fuel(start_upto, 5);
    reveal_with_fuel(end_upto, 5);
    assert forall|c: Card| exit_term(a, b, c) >= 1 && entry_term(a, b, c) == 0 by {
        let o = axis_overlap(a, b, c);
        let v = axis_rate(a, b, c);
        if v < 0 {
            let n = o * SCALE;
            assert(n / (-v) >= 1) by (nonlinear_arith)
                requires
                    n >= -v,
                    -v > 0,
            ;
        }
    }
    assert(!some_axis_blocks(a, b, false, 4)) by {
        if some_axis_blocks(a, b, false, 4) {
            let i = choose|i: int| 0 <= i < 4 && #[trigger] axis_blocks(a, b, false, card_at(i));
            assert(axis_overlap(a, b, card_at(i)) > 0);
        }
    }
    assert(start_upto(a, b, 4) == 0);
    assert(end_upto(a, b, 4) >= 1);
}

proof fn lemma_entry_bound(o: int, v: int, t: int)
    requires
        o < 0,
        v > 0,
        -LIMIT <= o,
        t >= tdiv(-o * SCALE, v),
    ensures
        o * SCALE + v * t > -v,
{
    let s = SCALE as int;
    let n = -o * s;
    assert(n > 0) by (nonlinear_arith)
        requires
            o < 0,
            s > 0,
            n == -o * s,
    ;
    let q = n / v;
    assert(q * v <= n < (q + 1) * v) by (nonlinear_arith)
        requires
            v > 0,
            n > 0,
            q == n / v,
    ;
    assert(v * t >= v * q) by (nonlinear_arith)
        requires
            v > 0,
            t >= q,
    ;
    assert(o * s + v * t > -v) by (nonlinear_arith)
        requires
            v * t >= v * q,
            n < (q + 1) * v,
            n == -o * s,
    ;
}

proof fn lemma_exit_bound(o: int, v: int, t: int)
    requires
        o >= 0,
        v < 0,
        t <= tdiv(o * SCALE, -v),
    ensures
        o * SCALE + v * t >= 0,
{
    let s = SCALE as int;
    let n = o * s;
    let w = -v;
    assert(n >= 0) by (nonlinear_arith)
        requires
            o >= 0,
            s > 0,
            n == o * s,
    ;
    let q = n / w;
    assert(q * w <= n) by (nonlinear_arith)
        requires
            w > 0,
            n >= 0,
            q == n / w,
    ;
    assert(w * t <= w * q) by (nonlinear_arith)
        requires
            w > 0,
            t <= q,
    ;
    assert(o * s + v * t >= 0) by (nonlinear_arith)
        requires
            w * t <= w * q,
            q * w <= n,
            n == o * s,
            w == -v,
    ;
}

/// At the collision time `t` of two rectangles, when it is finite, they
/// touch: along every axis the overlap extrapolated to that time,
/// `o + v t` with `o` the overlap now and `v` its rate, is at least `-|v|`
/// times one raw unit of time. The gap left is less than the distance that
/// the axis closes in one step of the scalar's resolution.
#[verifier::rlimit(50)]
pub proof fn lemma_rect_collide_time_touches(a: DurHitbox, b: DurHitbox)
    requires
        hitbox_in_range(a),
        hitbox_in_range(b),
        a.value.shape.kind == ShapeKind::Rect,
        b.value.shape.kind == ShapeKind::Rect,
        collide_time_spec(a, b) < LIMIT,
    ensures
        forall|c: Card|
            #![trigger axis_overlap(a, b, c)]
            axis_overlap(a, b, c) * SCALE + axis_rate(a, b, c) * collide_time_spec(a, b)
                >= -abs_spec(axis_rate(a, b, c)),
{
    let t = collide_time_spec(a, b);
    assert(t == rect_rect_spec(a, b, true));
    assert(!some_axis_blocks(a, b, true, 4));
    assert(t == start_upto(a, b, 4));
    assert(t <= end_upto(a, b, 4));
    lemma_upto_monotone(a, b, 0, 4);
    assert(t >= 0);
    reveal_with_fuel(start_upto, 5);
    reveal_with_fuel(end_upto, 5);
    assert forall|c: Card|
        #![trigger axis_overlap(a, b, c)]
        axis_overlap(a, b, c) * SCALE + axis_rate(a, b, c) * t >= -abs_spec(axis_rate(a, b, c)) by {
        let o = axis_overlap(a, b, c);
        let v = axis_rate(a, b, c);
        assert(c == card_at(card_index(c)));
        assert(t >= entry_term(a, b, c));
        assert(t <= exit_term(a, b, c));
        if o < 0 {
            assert(!axis_blocks(a, b, true, card_at(card_index(c))));
            assert(v > 0);
            assert(t >= tdiv(-o * SCALE, v));
            lemma_entry_bound(o, v, t);
        } else if v < 0 {
            assert(exit_term(a, b, c) == clamp(tdiv(o * SCALE, -v)));
            lemma_exit_bound(o, v, t);
        } else {
            assert(o * SCALE + v * t >= 0) by (nonlinear_arith)
                requires
                    o >= 0,
                    v >= 0,
                    t >= 0,
            ;
        }
    }
}

} // verus!
