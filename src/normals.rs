//! Normal vectors and contact points between two placed shapes.

use vstd::prelude::*;
use crate::card::{card_at, card_index, flip_spec, Card, CardMask};
use crate::scalar::{add_spec, half_spec, max_spec, min_spec, mul_spec, sub_spec, Scalar};
use crate::shape::{
    card_overlap_spec, corner_spec, max_of, min_of, placed_in_range, sector_spec, PlacedShape,
    Sector, SectorPos, Shape, ShapeKind,
};
use crate::vec::{card_vec, lemma_card_vec_unit, len_spec, sub_vec, unit_of, DirVec2, Vec2};

verus! {

/// The directions that a mask holds, as a predicate.
pub open spec fn mask_fn(mask: CardMask) -> spec_fn(Card) -> bool {
    |c: Card| mask.has(c)
}

/// Every direction: no mask.
pub open spec fn all_fn() -> spec_fn(Card) -> bool {
    |c: Card| true
}

/// The directions allowed by `mask`, or all of them when there is none.
pub open spec fn opt_fn(mask: Option<CardMask>) -> spec_fn(Card) -> bool {
    match mask {
        None => all_fn(),
        Some(m) => mask_fn(m),
    }
}

pub open spec fn allows(mask: Option<CardMask>, c: Card) -> bool {
    opt_fn(mask)(c)
}

/// The opposites of the directions that `allow` holds.
pub open spec fn flip_fn(allow: spec_fn(Card) -> bool) -> spec_fn(Card) -> bool {
    |c: Card| allow(flip_spec(c))
}

pub open spec fn overlap_of(dst: PlacedShape, src: PlacedShape, c: Card) -> int {
    card_overlap_spec(dst.pos, dst.shape.dims, src.pos, src.shape.dims, c)
}

/// Among the first `n` directions that are allowed, the first one of least
/// overlap.
pub open spec fn best_card_upto(
    dst: PlacedShape,
    src: PlacedShape,
    allow: spec_fn(Card) -> bool,
    n: int,
) -> Option<Card>
    decreases n,
{
    if n <= 0 {
        None
    } else {
        let prev = best_card_upto(dst, src, allow, n - 1);
        let c = card_at(n - 1);
        if !allow(c) {
            prev
        } else {
            match prev {
                None => Some(c),
                Some(p) => if overlap_of(dst, src, c) < overlap_of(dst, src, p) {
                    Some(c)
                } else {
                    Some(p)
                },
            }
        }
    }
}

/// The normal along direction `c`, with the overlap along it as length.
pub open spec fn card_normal(dst: PlacedShape, src: PlacedShape, c: Card) -> DirVec2 {
    DirVec2 { dir: card_vec(c), len: Scalar { raw: overlap_of(dst, src, c) as i128 } }
}

/// The normal of two rectangles: along the allowed direction of least
/// overlap, the first in `Card::values()` order among equals.
pub open spec fn rect_rect_normal_spec(
    dst: PlacedShape,
    src: PlacedShape,
    allow: spec_fn(Card) -> bool,
) -> DirVec2 {
    card_normal(dst, src, best_card_upto(dst, src, allow, 4).unwrap())
}

/// The normal of two circles: along the line from `src`'s center to `dst`'s
/// (along +x when the centers coincide), of length the sum of the radii less
/// the distance of the centers.
pub open spec fn circle_circle_normal_spec(dst: PlacedShape, src: PlacedShape) -> DirVec2 {
    let d = sub_vec(dst.pos, src.pos);
    let dist = len_spec(d);
    let dir = if dist == 0 {
        card_vec(Card::PlusX)
    } else {
        d
    };
    DirVec2 {
        dir: unit_of(dir),
        len: Scalar {
            raw: sub_spec(half_spec(add_spec(src.shape.dims.x@, dst.shape.dims.x@)), dist) as i128,
        },
    }
}

/// A circle of diameter zero at a corner of `rect`.
pub open spec fn corner_point(rect: PlacedShape, s: Sector) -> PlacedShape {
    let c = corner_spec(rect.pos, rect.shape.dims, s);
    PlacedShape {
        pos: Vec2 { x: Scalar { raw: c.0 as i128 }, y: Scalar { raw: c.1 as i128 } },
        shape: Shape {
            kind: ShapeKind::Circle,
            dims: Vec2 { x: Scalar { raw: 0 }, y: Scalar { raw: 0 } },
        },
    }
}

pub open spec fn corner_h(s: Sector) -> Card {
    if s.x == SectorPos::Low {
        Card::MinusX
    } else {
        Card::PlusX
    }
}

pub open spec fn corner_v(s: Sector) -> Card {
    if s.y == SectorPos::Low {
        Card::MinusY
    } else {
        Card::PlusY
    }
}

/// The sector is a corner whose two directions `allow` holds.
pub open spec fn mask_has_corner_spec(s: Sector, allow: spec_fn(Card) -> bool) -> bool {
    s.is_corner_spec() && allow(corner_h(s)) && allow(corner_v(s))
}

/// The normal of rectangle `rect` and circle `circle`: from the nearest
/// corner of the rectangle when the circle's center lies in a corner sector
/// whose directions the flipped mask allows, else as for two rectangles.
pub open spec fn rect_circle_normal_spec(
    rect: PlacedShape,
    circle: PlacedShape,
    allow: spec_fn(Card) -> bool,
) -> DirVec2 {
    let s = sector_spec(rect.pos, rect.shape.dims, circle.pos);
    if mask_has_corner_spec(s, flip_fn(allow)) {
        circle_circle_normal_spec(corner_point(rect, s), circle)
    } else {
        rect_rect_normal_spec(rect, circle, allow)
    }
}

pub open spec fn flip_normal(n: DirVec2) -> DirVec2 {
    DirVec2 {
        dir: Vec2 { x: Scalar { raw: (-n.dir.x@) as i128 }, y: Scalar { raw: (-n.dir.y@) as i128 } },
        len: n.len,
    }
}

/// The normal of `dst` from `src`, for any two kinds.
pub open spec fn normal_spec(
    dst: PlacedShape,
    src: PlacedShape,
    allow: spec_fn(Card) -> bool,
) -> DirVec2 {
    match (dst.shape.kind, src.shape.kind) {
        (ShapeKind::Rect, ShapeKind::Rect) => rect_rect_normal_spec(dst, src, allow),
        (ShapeKind::Circle, ShapeKind::Circle) => circle_circle_normal_spec(dst, src),
        (ShapeKind::Rect, ShapeKind::Circle) => rect_circle_normal_spec(dst, src, allow),
        (ShapeKind::Circle, ShapeKind::Rect) => flip_normal(
            rect_circle_normal_spec(src, dst, flip_fn(allow)),
        ),
    }
}

proof fn lemma_best_some(
    dst: PlacedShape,
    src: PlacedShape,
    allow: spec_fn(Card) -> bool,
    i: int,
    n: int,
)
    requires
        0 <= i < n,
        allow(card_at(i)),
    ensures
        best_card_upto(dst, src, allow, n).is_some(),
    decreases n,
{
    if i < n - 1 {
        lemma_best_some(dst, src, allow, i, n - 1);
    }
}

/// The allowed direction of least overlap, and that overlap.
fn least_overlap_card(dst: &PlacedShape, src: &PlacedShape, mask: Option<CardMask>) -> (r: (
    Card,
    Scalar,
))
    requires
        placed_in_range(*dst),
        placed_in_range(*src),
        exists|c: Card| #[trigger] allows(mask, c),
    ensures
        Some(r.0) == best_card_upto(*dst, *src, opt_fn(mask), 4),
        r.1.wf(),
        r.1@ == overlap_of(*dst, *src, r.0),
{
    let cards = Card::values();
    let mut best: Option<(Card, Scalar)> = None;
    let mut i: usize = 0;
    while i < 4
        invariant
            placed_in_range(*dst),
            placed_in_range(*src),
            0 <= i <= 4,
            forall|j: int| 0 <= j < 4 ==> #[trigger] cards@[j] == card_at(j),
            match best {
                None => best_card_upto(*dst, *src, opt_fn(mask), i as int) == None::<Card>,
                Some((c, o)) => best_card_upto(*dst, *src, opt_fn(mask), i as int) == Some(c) && o.wf()
                    && o@ == overlap_of(*dst, *src, c),
            },
        decreases 4 - i,
    {
        let card = cards[i];
        let ok = match mask {
            None => true,
            Some(m) => m.get(card),
        };
        if ok {
            let overlap = dst.card_overlap(src, card);
            best = match best {
                None => Some((card, overlap)),
                Some((p, po)) => if overlap.raw < po.raw {
                    Some((card, overlap))
                } else {
                    Some((p, po))
                },
            };
        }
        i = i + 1;
    }
    proof {
        let c = choose|c: Card| #[trigger] allows(mask, c);
        assert(c == card_at(card_index(c)));
        lemma_best_some(*dst, *src, opt_fn(mask), card_index(c), 4);
    }
    match best {
        Some(b) => b,
        None => (Card::MinusX, Scalar::zero()),
    }
}

/// The normal of two rectangles, along the direction of least overlap.
pub fn rect_rect_normal(dst: &PlacedShape, src: &PlacedShape) -> (r: DirVec2)
    requires
        placed_in_range(*dst),
        placed_in_range(*src),
    ensures
        r.wf(),
        r == rect_rect_normal_spec(*dst, *src, all_fn()),
{
    assert(allows(None, Card::MinusX));
    let (card, overlap) = least_overlap_card(dst, src, None);
    proof {
        lemma_card_vec_unit(card);
    }
    DirVec2::new(Vec2::from_card(card), overlap)
}

/// The normal of two rectangles, along the direction of least overlap
/// among those that `mask` holds. The mask must not be empty.
pub fn masked_rect_rect_normal(dst: &PlacedShape, src: &PlacedShape, mask: CardMask) -> (r: DirVec2)
    requires
        placed_in_range(*dst),
        placed_in_range(*src),
        exists|c: Card| mask.has(c),
    ensures
        r.wf(),
        r == rect_rect_normal_spec(*dst, *src, mask_fn(mask)),
{
    assert(exists|c: Card| #[trigger] allows(Some(mask), c)) by {
        let c = choose|c: Card| mask.has(c);
        assert(allows(Some(mask), c));
    }
    let (card, overlap) = least_overlap_card(dst, src, Some(mask));
    proof {
        lemma_card_vec_unit(card);
    }
    DirVec2::new(Vec2::from_card(card), overlap)
}

/// The normal of two circles.
pub fn circle_circle_normal(dst: &PlacedShape, src: &PlacedShape) -> (r: DirVec2)
    requires
        placed_in_range(*dst),
        placed_in_range(*src),
    ensures
        r.wf(),
        r == circle_circle_normal_spec(*dst, *src),
{
    let mut dir = dst.pos.sub(src.pos);
    let dist = dir.len();
    if dist.raw == 0 {
        proof {
            lemma_card_vec_unit(Card::PlusX);
        }
        dir = Vec2::from_card(Card::PlusX);
    }
    DirVec2::new(dir, src.shape.dims.x.add(dst.shape.dims.x).half().sub(dist))
}

/// The normal of two circles; the mask must hold all four directions.
pub fn masked_circle_circle_normal(dst: &PlacedShape, src: &PlacedShape, mask: CardMask) -> (r:
    DirVec2)
    requires
        placed_in_range(*dst),
        placed_in_range(*src),
        forall|c: Card| mask.has(c),
    ensures
        r.wf(),
        r == circle_circle_normal_spec(*dst, *src),
{
    circle_circle_normal(dst, src)
}

fn corner_circle(rect: &PlacedShape, sector: Sector) -> (r: PlacedShape)
    requires
        placed_in_range(*rect),
    ensures
        placed_in_range(r),
        r == corner_point(*rect, sector),
{
    PlacedShape {
        pos: rect.corner(sector),
        shape: Shape { kind: ShapeKind::Circle, dims: Vec2::zero() },
    }
}

/// The normal of a rectangle and a circle.
pub fn rect_circle_normal(dst: &PlacedShape, src: &PlacedShape) -> (r: DirVec2)
    requires
        placed_in_range(*dst),
        placed_in_range(*src),
    ensures
        r.wf(),
        r == rect_circle_normal_spec(*dst, *src, all_fn()),
{
    let sector = dst.sector(src.pos);
    if sector.is_corner() {
        circle_circle_normal(&corner_circle(dst, sector), src)
    } else {
        rect_rect_normal(dst, src)
    }
}

/// Whether `sector` is a corner whose two directions `mask` holds.
pub fn mask_has_corner_sector(sector: Sector, mask: CardMask) -> (r: bool)
    ensures
        r == mask_has_corner_spec(sector, mask_fn(mask)),
{
    match sector.corner_cards() {
        Some((h_card, v_card)) => mask.get(h_card) && mask.get(v_card),
        None => false,
    }
}

/// The normal of a rectangle and a circle, restricted to the directions
/// that `mask` holds. The mask must not be empty.
pub fn masked_rect_circle_normal(dst: &PlacedShape, src: &PlacedShape, mask: CardMask) -> (r:
    DirVec2)
    requires
        placed_in_range(*dst),
        placed_in_range(*src),
        exists|c: Card| mask.has(c),
    ensures
        r.wf(),
        r == rect_circle_normal_spec(*dst, *src, mask_fn(mask)),
{
    let sector = dst.sector(src.pos);
    let flipped = mask.flip();
    assert(mask_fn(flipped) =~= flip_fn(mask_fn(mask)));
    if mask_has_corner_sector(sector, flipped) {
        circle_circle_normal(&corner_circle(dst, sector), src)
    } else {
        masked_rect_rect_normal(dst, src, mask)
    }
}

/// A point on the boundary of circle `a` where it meets `b`: from the
/// center along the normal, half of the normal's length less the diameter.
pub open spec fn circle_any_contact_spec(a: PlacedShape, b: PlacedShape) -> (int, int) {
    let n = normal_spec(a, b, all_fn());
    let k = half_spec(sub_spec(n.len@, a.shape.dims.x@));
    (add_spec(a.pos.x@, mul_spec(n.dir.x@, k)), add_spec(a.pos.y@, mul_spec(n.dir.y@, k)))
}

/// Midpoint of the common part of the intervals `[a_min, a_max]` and
/// `[b_min, b_max]`.
pub open spec fn contact_1d_spec(a_min: int, a_max: int, b_min: int, b_max: int) -> int {
    half_spec(add_spec(max_spec(a_min, b_min), min_spec(b_max, a_max)))
}

pub open spec fn rect_rect_contact_spec(a: PlacedShape, b: PlacedShape) -> (int, int) {
    (
        contact_1d_spec(
            min_of(a.pos.x@, a.shape.dims.x@),
            max_of(a.pos.x@, a.shape.dims.x@),
            min_of(b.pos.x@, b.shape.dims.x@),
            max_of(b.pos.x@, b.shape.dims.x@),
        ),
        contact_1d_spec(
            min_of(a.pos.y@, a.shape.dims.y@),
            max_of(a.pos.y@, a.shape.dims.y@),
            min_of(b.pos.y@, b.shape.dims.y@),
            max_of(b.pos.y@, b.shape.dims.y@),
        ),
    )
}

/// The contact point of two shapes: the middle of the common part of two
/// rectangles, else a point on a circle's boundary.
pub open spec fn contact_point_spec(a: PlacedShape, b: PlacedShape) -> (int, int) {
    match (a.shape.kind, b.shape.kind) {
        (ShapeKind::Rect, ShapeKind::Rect) => rect_rect_contact_spec(a, b),
        (ShapeKind::Circle, _) => circle_any_contact_spec(a, b),
        (ShapeKind::Rect, ShapeKind::Circle) => circle_any_contact_spec(b, a),
    }
}

/// A point on the boundary of circle `a` where it meets `b`.
pub fn circle_any_contact(a: &PlacedShape, b: &PlacedShape) -> (r: Vec2)
    requires
        placed_in_range(*a),
        placed_in_range(*b),
    ensures
        r.wf(),
        (r.x@, r.y@) == circle_any_contact_spec(*a, *b),
{
    let normal = a.normal_from(b);
    let k = normal.len.sub(a.shape.dims.x).half();
    a.pos.add(normal.dir.scale(k))
}

/// The middle of the common part of two rectangles.
pub fn rect_rect_contact(a: &PlacedShape, b: &PlacedShape) -> (r: Vec2)
    requires
        placed_in_range(*a),
        placed_in_range(*b),
    ensures
        r.wf(),
        (r.x@, r.y@) == rect_rect_contact_spec(*a, *b),
{
    Vec2 {
        x: rect_rect_contact_1d(a.min_x(), a.max_x(), b.min_x(), b.max_x()),
        y: rect_rect_contact_1d(a.min_y(), a.max_y(), b.min_y(), b.max_y()),
    }
}

fn rect_rect_contact_1d(a_min: Scalar, a_max: Scalar, b_min: Scalar, b_max: Scalar) -> (r: Scalar)
    requires
        a_min.wf(),
        a_max.wf(),
        b_min.wf(),
        b_max.wf(),
    ensures
        r.wf(),
        r@ == contact_1d_spec(a_min@, a_max@, b_min@, b_max@),
{
    a_min.max(b_min).add(b_max.min(a_max)).half()
}

impl PlacedShape {
    /// The normal of `self` from `other`: the shortest translation that
    /// separates them, pointing into `self`, with a signed length that is
    /// positive while they overlap.
    pub fn normal_from(&self, other: &PlacedShape) -> (r: DirVec2)
        requires
            placed_in_range(*self),
            placed_in_range(*other),
        ensures
            r.wf(),
            r == normal_spec(*self, *other, all_fn()),
    {
        match (self.shape.kind, other.shape.kind) {
            (ShapeKind::Rect, ShapeKind::Rect) => rect_rect_normal(self, other),
            (ShapeKind::Circle, ShapeKind::Circle) => circle_circle_normal(self, other),
            (ShapeKind::Rect, ShapeKind::Circle) => rect_circle_normal(self, other),
            (ShapeKind::Circle, ShapeKind::Rect) => {
                assert(flip_fn(all_fn()) =~= all_fn());
                rect_circle_normal(other, self).flip()
            },
        }
    }

    /// The normal of `self` from `other`, in a direction that `mask` holds.
    /// The mask must not be empty, and must be full for two circles.
    pub fn masked_normal_from(&self, other: &PlacedShape, mask: CardMask) -> (r: DirVec2)
        requires
            placed_in_range(*self),
            placed_in_range(*other),
            exists|c: Card| mask.has(c),
            self.shape.kind == ShapeKind::Circle && other.shape.kind == ShapeKind::Circle ==> forall|
                c: Card,
            | mask.has(c),
        ensures
            r.wf(),
            r == normal_spec(*self, *other, mask_fn(mask)),
    {
        match (self.shape.kind, other.shape.kind) {
            (ShapeKind::Rect, ShapeKind::Rect) => masked_rect_rect_normal(self, other, mask),
            (ShapeKind::Circle, ShapeKind::Circle) => masked_circle_circle_normal(
                self,
                other,
                mask,
            ),
            (ShapeKind::Rect, ShapeKind::Circle) => masked_rect_circle_normal(self, other, mask),
            (ShapeKind::Circle, ShapeKind::Rect) => {
                let flipped = mask.flip();
                assert(mask_fn(flipped) =~= flip_fn(mask_fn(mask)));
                assert(exists|c: Card| flipped.has(c)) by {
                    let c = choose|c: Card| mask.has(c);
                    assert(flipped.has(flip_spec(c)));
                }
                masked_rect_circle_normal(other, self, flipped).flip()
            },
        }
    }

    /// Whether the two shapes overlap with positive depth.
    pub fn overlaps(&self, other: &PlacedShape) -> (r: bool)
        requires
            placed_in_range(*self),
            placed_in_range(*other),
        ensures
            r == (normal_spec(*self, *other, all_fn()).len@ > 0),
    {
        self.normal_from(other).len.raw > 0
    }

    /// A representative point where the two shapes touch.
    pub fn contact_point(&self, other: &PlacedShape) -> (r: Vec2)
        requires
            placed_in_range(*self),
            placed_in_range(*other),
        ensures
            r.wf(),
            (r.x@, r.y@) == contact_point_spec(*self, *other),
    {
        match (self.shape.kind, other.shape.kind) {
            (ShapeKind::Rect, ShapeKind::Rect) => rect_rect_contact(self, other),
            (ShapeKind::Circle, _) => circle_any_contact(self, other),
            (ShapeKind::Rect, ShapeKind::Circle) => circle_any_contact(other, self),
        }
    }
}

} // verus!
