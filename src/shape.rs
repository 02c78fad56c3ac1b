//! Rectangles and circles, placed in the plane.

use vstd::prelude::*;
use crate::card::{Card, flip_spec};
use crate::scalar::{add_spec, clamp, half_spec, min_spec, max_spec, mul_spec, sub_spec, Scalar, LIMIT};
use crate::vec::Vec2;

verus! {

/// The kind of a shape.
#[derive(Clone, Copy, Debug, PartialEq, Eq, PartialOrd, Ord, Hash, Structural)]
pub enum ShapeKind {
    /// An axis-aligned rectangle.
    Rect,
    /// A circle.
    Circle,
}

/// A rectangle or a circle, without a position. `dims` holds the width and
/// height of a rectangle, or the diameter twice for a circle.
#[derive(Clone, Copy, Debug, PartialEq, Eq, PartialOrd, Ord, Hash, Structural)]
pub struct Shape {
    pub kind: ShapeKind,
    pub dims: Vec2,
}

/// The dimensions are in range and not negative, and a circle's are equal.
pub open spec fn valid_dims(kind: ShapeKind, dims: Vec2) -> bool {
    &&& dims.wf()
    &&& dims.x@ >= 0
    &&& dims.y@ >= 0
    &&& (kind == ShapeKind::Circle ==> dims.x == dims.y)
}

impl Shape {
    pub open spec fn wf(self) -> bool {
        valid_dims(self.kind, self.dims)
    }

    /// A shape of the given kind and dimensions.
    pub fn new(kind: ShapeKind, dims: Vec2) -> (r: Shape)
        requires
            valid_dims(kind, dims),
        ensures
            r.wf(),
            r.kind == kind,
            r.dims == dims,
    {
        Shape { kind, dims }
    }

    /// A rectangle of width `dims.x` and height `dims.y`.
    pub fn rect(dims: Vec2) -> (r: Shape)
        requires
            valid_dims(ShapeKind::Rect, dims),
        ensures
            r.wf(),
            r.kind == ShapeKind::Rect,
            r.dims == dims,
    {
        Shape { kind: ShapeKind::Rect, dims }
    }

    /// A square of side `width`.
    pub fn square(width: Scalar) -> (r: Shape)
        requires
            width.wf(),
            width@ >= 0,
        ensures
            r.wf(),
            r.kind == ShapeKind::Rect,
            r.dims.x == width,
            r.dims.y == width,
    {
        Shape { kind: ShapeKind::Rect, dims: Vec2 { x: width, y: width } }
    }

    /// A circle of diameter `diam`.
    pub fn circle(diam: Scalar) -> (r: Shape)
        requires
            diam.wf(),
            diam@ >= 0,
        ensures
            r.wf(),
            r.kind == ShapeKind::Circle,
            r.dims.x == diam,
            r.dims.y == diam,
    {
        Shape { kind: ShapeKind::Circle, dims: Vec2 { x: diam, y: diam } }
    }

    /// This shape centered at `pos`.
    pub fn place(self, pos: Vec2) -> (r: PlacedShape)
        ensures
            r.pos == pos,
            r.shape == self,
    {
        PlacedShape { pos, shape: self }
    }
}

/// Where a point lies along one axis, relative to a shape's extent.
#[derive(Clone, Copy, Debug, PartialEq, Eq, PartialOrd, Ord, Hash, Structural)]
pub enum SectorPos {
    /// Before the minimum edge.
    Low,
    /// Between the edges, inclusive.
    Middle,
    /// Past the maximum edge.
    High,
}

/// One of the nine regions around a rectangle: the interior, four edge
/// slabs and four corners.
#[derive(Clone, Copy, Debug, PartialEq, Eq, PartialOrd, Ord, Hash, Structural)]
pub struct Sector {
    pub x: SectorPos,
    pub y: SectorPos,
}

impl Sector {
    pub open spec fn is_corner_spec(self) -> bool {
        self.x != SectorPos::Middle && self.y != SectorPos::Middle
    }

    /// Whether the sector is one of the four corners.
    pub fn is_corner(&self) -> (r: bool)
        ensures
            r == self.is_corner_spec(),
    {
        !matches!(self.x, SectorPos::Middle) && !matches!(self.y, SectorPos::Middle)
    }

    /// The horizontal and vertical directions of a corner sector.
    pub fn corner_cards(&self) -> (r: Option<(Card, Card)>)
        ensures
            r.is_some() == self.is_corner_spec(),
            r matches Some((h, v)) ==> h == (if self.x == SectorPos::Low {
                Card::MinusX
            } else {
                Card::PlusX
            }) && v == (if self.y == SectorPos::Low {
                Card::MinusY
            } else {
                Card::PlusY
            }),
    {
        match (self.x, self.y) {
            (SectorPos::Middle, _) => None,
            (_, SectorPos::Middle) => None,
            (x, y) => {
                let h = if matches!(x, SectorPos::Low) {
                    Card::MinusX
                } else {
                    Card::PlusX
                };
                let v = if matches!(y, SectorPos::Low) {
                    Card::MinusY
                } else {
                    Card::PlusY
                };
                Some((h, v))
            },
        }
    }
}

pub open spec fn min_of(c: int, d: int) -> int {
    sub_spec(c, half_spec(d))
}

pub open spec fn max_of(c: int, d: int) -> int {
    add_spec(c, half_spec(d))
}

/// How far a box with center `c` and dimensions `d` reaches in direction
/// `card`.
pub open spec fn edge_spec(c: Vec2, d: Vec2, card: Card) -> int {
    match card {
        Card::MinusX => -min_of(c.x@, d.x@),
        Card::MinusY => -min_of(c.y@, d.y@),
        Card::PlusX => max_of(c.x@, d.x@),
        Card::PlusY => max_of(c.y@, d.y@),
    }
}

/// Signed penetration of box `a` into box `b` along `card`: how far `b`
/// reaches in direction `card` past the opposite edge of `a`.
pub open spec fn card_overlap_spec(ac: Vec2, ad: Vec2, bc: Vec2, bd: Vec2, card: Card) -> int {
    add_spec(edge_spec(bc, bd, card), edge_spec(ac, ad, flip_spec(card)))
}

pub open spec fn sector_pos_spec(p: int, lo: int, hi: int) -> SectorPos {
    if p < lo {
        SectorPos::Low
    } else if p > hi {
        SectorPos::High
    } else {
        SectorPos::Middle
    }
}

/// The sector of the box with center `c` and dimensions `d` that holds `p`.
pub open spec fn sector_spec(c: Vec2, d: Vec2, p: Vec2) -> Sector {
    Sector {
        x: sector_pos_spec(p.x@, min_of(c.x@, d.x@), max_of(c.x@, d.x@)),
        y: sector_pos_spec(p.y@, min_of(c.y@, d.y@), max_of(c.y@, d.y@)),
    }
}

pub open spec fn corner_spec(c: Vec2, d: Vec2, s: Sector) -> (int, int) {
    (
        if s.x == SectorPos::Low {
            min_of(c.x@, d.x@)
        } else {
            max_of(c.x@, d.x@)
        },
        if s.y == SectorPos::Low {
            min_of(c.y@, d.y@)
        } else {
            max_of(c.y@, d.y@)
        },
    )
}

/// The minimum x of a box.
pub fn bounds_min_x(c: &Vec2, d: &Vec2) -> (r: Scalar)
    requires
        c.wf(),
        d.wf(),
    ensures
        r.wf(),
        r@ == min_of(c.x@, d.x@),
{
    c.x.sub(d.x.half())
}

pub fn bounds_min_y(c: &Vec2, d: &Vec2) -> (r: Scalar)
    requires
        c.wf(),
        d.wf(),
    ensures
        r.wf(),
        r@ == min_of(c.y@, d.y@),
{
    c.y.sub(d.y.half())
}

pub fn bounds_max_x(c: &Vec2, d: &Vec2) -> (r: Scalar)
    requires
        c.wf(),
        d.wf(),
    ensures
        r.wf(),
        r@ == max_of(c.x@, d.x@),
{
    c.x.add(d.x.half())
}

pub fn bounds_max_y(c: &Vec2, d: &Vec2) -> (r: Scalar)
    requires
        c.wf(),
        d.wf(),
    ensures
        r.wf(),
        r@ == max_of(c.y@, d.y@),
{
    c.y.add(d.y.half())
}

/// How far a box reaches in direction `card`.
pub fn bounds_edge(c: &Vec2, d: &Vec2, card: Card) -> (r: Scalar)
    requires
        c.wf(),
        d.wf(),
    ensures
        r.wf(),
        r@ == edge_spec(*c, *d, card),
{
    match card {
        Card::MinusX => bounds_min_x(c, d).neg(),
        Card::MinusY => bounds_min_y(c, d).neg(),
        Card::PlusX => bounds_max_x(c, d),
        Card::PlusY => bounds_max_y(c, d),
    }
}

/// Signed penetration of box `a` into box `b` along `card`.
pub fn bounds_card_overlap(ac: &Vec2, ad: &Vec2, bc: &Vec2, bd: &Vec2, card: Card) -> (r: Scalar)
    requires
        ac.wf(),
        ad.wf(),
        bc.wf(),
        bd.wf(),
    ensures
        r.wf(),
        r@ == card_overlap_spec(*ac, *ad, *bc, *bd, card),
{
    bounds_edge(bc, bd, card).add(bounds_edge(ac, ad, card.flip()))
}

/// The sector of a box that holds `p`.
pub fn bounds_sector(c: &Vec2, d: &Vec2, p: &Vec2) -> (r: Sector)
    requires
        c.wf(),
        d.wf(),
        p.wf(),
    ensures
        r == sector_spec(*c, *d, *p),
{
    let min_x = bounds_min_x(c, d);
    let max_x = bounds_max_x(c, d);
    let min_y = bounds_min_y(c, d);
    let max_y = bounds_max_y(c, d);
    let x = if p.x.lt(min_x) {
        SectorPos::Low
    } else if max_x.lt(p.x) {
        SectorPos::High
    } else {
        SectorPos::Middle
    };
    let y = if p.y.lt(min_y) {
        SectorPos::Low
    } else if max_y.lt(p.y) {
        SectorPos::High
    } else {
        SectorPos::Middle
    };
    Sector { x, y }
}

/// The corner of a box that a corner sector touches.
pub fn bounds_corner(c: &Vec2, d: &Vec2, s: Sector) -> (r: Vec2)
    requires
        c.wf(),
        d.wf(),
    ensures
        r.wf(),
        (r.x@, r.y@) == corner_spec(*c, *d, s),
{
    let x = if matches!(s.x, SectorPos::Low) {
        bounds_min_x(c, d)
    } else {
        bounds_max_x(c, d)
    };
    let y = if matches!(s.y, SectorPos::Low) {
        bounds_min_y(c, d)
    } else {
        bounds_max_y(c, d)
    };
    Vec2 { x, y }
}

/// A shape together with the position of its center.
#[derive(Clone, Copy, Debug, PartialEq, Eq, PartialOrd, Ord, Hash, Structural)]
pub struct PlacedShape {
    pub pos: Vec2,
    pub shape: Shape,
}

/// Every scalar of the placed shape lies in range; its dimensions may be
/// negative.
pub open spec fn placed_in_range(p: PlacedShape) -> bool {
    p.pos.wf() && p.shape.dims.wf()
}

/// `p` advanced by velocity `vel` and resize rate `resize` for time `t`.
pub open spec fn advance_spec(p: PlacedShape, vel: Vec2, resize: Vec2, t: int) -> PlacedShape {
    PlacedShape {
        pos: Vec2 {
            x: Scalar { raw: add_spec(p.pos.x@, mul_spec(vel.x@, t)) as i128 },
            y: Scalar { raw: add_spec(p.pos.y@, mul_spec(vel.y@, t)) as i128 },
        },
        shape: Shape {
            kind: p.shape.kind,
            dims: Vec2 {
                x: Scalar { raw: add_spec(p.shape.dims.x@, mul_spec(resize.x@, t)) as i128 },
                y: Scalar { raw: add_spec(p.shape.dims.y@, mul_spec(resize.y@, t)) as i128 },
            },
        },
    }
}

/// The boxes touch or overlap: along every direction, the penetration of
/// `a` into `b` is not negative.
pub open spec fn boxes_overlap_spec(ac: Vec2, ad: Vec2, bc: Vec2, bd: Vec2) -> bool {
    forall|card: Card| card_overlap_spec(ac, ad, bc, bd, card) >= 0
}

/// Width of a box spanning `[lo, hi]`: the span, grown by one raw unit when
/// it is odd, so that a truncated half of it is exact.
pub open spec fn span_dims(lo: int, hi: int) -> int {
    let w = sub_spec(hi, lo);
    if half_spec(w) * 2 == w {
        w
    } else {
        clamp(w + 1)
    }
}

/// Center of a box spanning `[lo, hi]`, kept at `lo` plus half its width.
pub open spec fn span_center(lo: int, hi: int) -> int {
    add_spec(lo, half_spec(span_dims(lo, hi)))
}

/// Away from saturation, the box spanning `[lo, hi]` starts exactly at `lo`
/// and ends at `hi`, or one raw unit past it when the span is odd.
pub proof fn lemma_span_covers(lo: int, hi: int)
    requires
        -LIMIT / 4 <= lo <= LIMIT / 4,
        -LIMIT / 4 <= hi <= LIMIT / 4,
    ensures
        min_of(span_center(lo, hi), span_dims(lo, hi)) == lo,
        hi <= max_of(span_center(lo, hi), span_dims(lo, hi)) <= hi + 1,
{
}

/// The rectangle spanning two boxes.
pub open spec fn bounding_box_spec(a: PlacedShape, b: PlacedShape) -> PlacedShape {
    let min_x = min_spec(min_of(a.pos.x@, a.shape.dims.x@), min_of(b.pos.x@, b.shape.dims.x@));
    let min_y = min_spec(min_of(a.pos.y@, a.shape.dims.y@), min_of(b.pos.y@, b.shape.dims.y@));
    let max_x = max_spec(max_of(a.pos.x@, a.shape.dims.x@), max_of(b.pos.x@, b.shape.dims.x@));
    let max_y = max_spec(max_of(a.pos.y@, a.shape.dims.y@), max_of(b.pos.y@, b.shape.dims.y@));
    PlacedShape {
        pos: Vec2 {
            x: Scalar { raw: span_center(min_x, max_x) as i128 },
            y: Scalar { raw: span_center(min_y, max_y) as i128 },
        },
        shape: Shape {
            kind: ShapeKind::Rect,
            dims: Vec2 {
                x: Scalar { raw: span_dims(min_x, max_x) as i128 },
                y: Scalar { raw: span_dims(min_y, max_y) as i128 },
            },
        },
    }
}

/// The center and width of the box spanning `[lo, hi]`.
fn span(lo: Scalar, hi: Scalar) -> (r: (Scalar, Scalar))
    requires
        lo.wf(),
        hi.wf(),
    ensures
        r.0.wf(),
        r.1.wf(),
        r.0@ == span_center(lo@, hi@),
        r.1@ == span_dims(lo@, hi@),
{
    let w = hi.sub(lo);
    let d = if w.half().raw * 2 == w.raw {
        w
    } else {
        Scalar::from_raw(w.raw + 1)
    };
    (lo.add(d.half()), d)
}

/// Every edge of the box lies within a quarter of the scalar's range, so
/// that spanning it never saturates.
pub open spec fn box_in_quarter(p: PlacedShape) -> bool {
    &&& -LIMIT / 4 <= min_of(p.pos.x@, p.shape.dims.x@) <= LIMIT / 4
    &&& -LIMIT / 4 <= max_of(p.pos.x@, p.shape.dims.x@) <= LIMIT / 4
    &&& -LIMIT / 4 <= min_of(p.pos.y@, p.shape.dims.y@) <= LIMIT / 4
    &&& -LIMIT / 4 <= max_of(p.pos.y@, p.shape.dims.y@) <= LIMIT / 4
}

impl PlacedShape {
    pub open spec fn wf(self) -> bool {
        self.pos.wf() && self.shape.wf()
    }

    /// The shape `shape` centered at `pos`.
    pub fn new(pos: Vec2, shape: Shape) -> (r: PlacedShape)
        ensures
            r.pos == pos,
            r.shape == shape,
    {
        PlacedShape { pos, shape }
    }

    pub fn kind(&self) -> (r: ShapeKind)
        ensures
            r == self.shape.kind,
    {
        self.shape.kind
    }

    pub fn dims(&self) -> (r: Vec2)
        ensures
            r == self.shape.dims,
    {
        self.shape.dims
    }

    pub fn min_x(&self) -> (r: Scalar)
        requires
            placed_in_range(*self),
        ensures
            r.wf(),
            r@ == min_of(self.pos.x@, self.shape.dims.x@),
    {
        bounds_min_x(&self.pos, &self.shape.dims)
    }

    pub fn min_y(&self) -> (r: Scalar)
        requires
            placed_in_range(*self),
        ensures
            r.wf(),
            r@ == min_of(self.pos.y@, self.shape.dims.y@),
    {
        bounds_min_y(&self.pos, &self.shape.dims)
    }

    pub fn max_x(&self) -> (r: Scalar)
        requires
            placed_in_range(*self),
        ensures
            r.wf(),
            r@ == max_of(self.pos.x@, self.shape.dims.x@),
    {
        bounds_max_x(&self.pos, &self.shape.dims)
    }

    pub fn max_y(&self) -> (r: Scalar)
        requires
            placed_in_range(*self),
        ensures
            r.wf(),
            r@ == max_of(self.pos.y@, self.shape.dims.y@),
    {
        bounds_max_y(&self.pos, &self.shape.dims)
    }

    /// Signed penetration of `self` into `other` along `card`, both taken as
    /// their bounding rectangles.
    pub fn card_overlap(&self, other: &PlacedShape, card: Card) -> (r: Scalar)
        requires
            placed_in_range(*self),
            placed_in_range(*other),
        ensures
            r.wf(),
            r@ == card_overlap_spec(self.pos, self.shape.dims, other.pos, other.shape.dims, card),
    {
        bounds_card_overlap(&self.pos, &self.shape.dims, &other.pos, &other.shape.dims, card)
    }

    /// The sector of `self`'s bounding rectangle that holds `point`.
    pub fn sector(&self, point: Vec2) -> (r: Sector)
        requires
            placed_in_range(*self),
            point.wf(),
        ensures
            r == sector_spec(self.pos, self.shape.dims, point),
    {
        bounds_sector(&self.pos, &self.shape.dims, &point)
    }

    /// The corner of `self`'s bounding rectangle at a corner sector.
    pub fn corner(&self, sector: Sector) -> (r: Vec2)
        requires
            placed_in_range(*self),
        ensures
            r.wf(),
            (r.x@, r.y@) == corner_spec(self.pos, self.shape.dims, sector),
    {
        bounds_corner(&self.pos, &self.shape.dims, sector)
    }

    /// The same placement as a rectangle.
    pub fn as_rect(&self) -> (r: PlacedShape)
        ensures
            r.pos == self.pos,
            r.shape.dims == self.shape.dims,
            r.shape.kind == ShapeKind::Rect,
    {
        PlacedShape { pos: self.pos, shape: Shape { kind: ShapeKind::Rect, dims: self.shape.dims } }
    }

    /// Whether the bounding rectangles of the two shapes touch or overlap.
    pub fn boxes_overlap(&self, other: &PlacedShape) -> (r: bool)
        requires
            placed_in_range(*self),
            placed_in_range(*other),
        ensures
            r == boxes_overlap_spec(self.pos, self.shape.dims, other.pos, other.shape.dims),
    {
        let o0 = self.card_overlap(other, Card::MinusX);
        let o1 = self.card_overlap(other, Card::MinusY);
        let o2 = self.card_overlap(other, Card::PlusX);
        let o3 = self.card_overlap(other, Card::PlusY);
        let r = o0.raw >= 0 && o1.raw >= 0 && o2.raw >= 0 && o3.raw >= 0;
        proof {
            if r {
                assert forall|card: Card|
                    card_overlap_spec(
                        self.pos,
                        self.shape.dims,
                        other.pos,
                        other.shape.dims,
                        card,
                    ) >= 0 by {
                    match card {
                        Card::MinusX => {},
                        Card::MinusY => {},
                        Card::PlusX => {},
                        Card::PlusY => {},
                    }
                }
            }
        }
        r
    }

    /// The rectangle spanning the bounding rectangles of `self` and `other`.
    pub fn bounding_box(&self, other: &PlacedShape) -> (r: PlacedShape)
        requires
            placed_in_range(*self),
            placed_in_range(*other),
        ensures
            placed_in_range(r),
            r == bounding_box_spec(*self, *other),
            r.shape.kind == ShapeKind::Rect,
            box_in_quarter(*self) && box_in_quarter(*other) ==> {
                let ux = min_spec(min_of(self.pos.x@, self.shape.dims.x@), min_of(other.pos.x@, other.shape.dims.x@));
                let uy = min_spec(min_of(self.pos.y@, self.shape.dims.y@), min_of(other.pos.y@, other.shape.dims.y@));
                let vx = max_spec(max_of(self.pos.x@, self.shape.dims.x@), max_of(other.pos.x@, other.shape.dims.x@));
                let vy = max_spec(max_of(self.pos.y@, self.shape.dims.y@), max_of(other.pos.y@, other.shape.dims.y@));
                &&& min_of(r.pos.x@, r.shape.dims.x@) == ux
                &&& min_of(r.pos.y@, r.shape.dims.y@) == uy
                &&& vx <= max_of(r.pos.x@, r.shape.dims.x@) <= vx + 1
                &&& vy <= max_of(r.pos.y@, r.shape.dims.y@) <= vy + 1
            },
    {
        let min_x = self.min_x().min(other.min_x());
        let min_y = self.min_y().min(other.min_y());
        let max_x = self.max_x().max(other.max_x());
        let max_y = self.max_y().max(other.max_y());
        let (cx, dx) = span(min_x, max_x);
        let (cy, dy) = span(min_y, max_y);
        proof {
            if box_in_quarter(*self) && box_in_quarter(*other) {
                lemma_span_covers(min_x@, max_x@);
                lemma_span_covers(min_y@, max_y@);
            }
        }
        PlacedShape {
            pos: Vec2 { x: cx, y: cy },
            shape: Shape { kind: ShapeKind::Rect, dims: Vec2 { x: dx, y: dy } },
        }
    }

    /// The shape moved by velocity `vel` and resized at rate `resize` for
    /// time `t`, with no check on the resulting dimensions.
    pub fn moved(&self, vel: Vec2, resize: Vec2, t: Scalar) -> (r: PlacedShape)
        requires
            placed_in_range(*self),
            vel.wf(),
            resize.wf(),
            t.wf(),
        ensures
            placed_in_range(r),
            r == advance_spec(*self, vel, resize, t@),
    {
        PlacedShape {
            pos: self.pos.add(vel.scale(t)),
            shape: Shape { kind: self.shape.kind, dims: self.shape.dims.add(resize.scale(t)) },
        }
    }

    /// The shape moved by velocity `vel` and resized at rate `resize` for
    /// time `t`. A circle must resize equally along both axes, and the
    /// dimensions must stay non-negative.
    pub fn advance(&self, vel: Vec2, resize: Vec2, t: Scalar) -> (r: PlacedShape)
        requires
            self.wf(),
            vel.wf(),
            resize.wf(),
            t.wf(),
            self.shape.kind == ShapeKind::Circle ==> resize.x == resize.y,
            advance_spec(*self, vel, resize, t@).shape.dims.x@ >= 0,
            advance_spec(*self, vel, resize, t@).shape.dims.y@ >= 0,
        ensures
            r.wf(),
            r == advance_spec(*self, vel, resize, t@),
    {
        self.moved(vel, resize, t)
    }
}

} // verus!
