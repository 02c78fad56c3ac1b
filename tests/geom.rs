use collider::card::{Card, CardMask};
use collider::scalar::Scalar;
use collider::shape::Shape;
use collider::vec::{v2, DirVec2, Vec2};

fn f(x: f64) -> Scalar {
    Scalar::from_raw((x * 1e9).round() as i128)
}

fn close(a: Scalar, b: f64) -> bool {
    (a.raw as f64 / 1e9 - b).abs() < 1e-7
}

fn same_normal(a: DirVec2, b: DirVec2) -> bool {
    close(a.dir.x, b.dir.x.raw as f64 / 1e9)
        && close(a.dir.y, b.dir.y.raw as f64 / 1e9)
        && close(a.len, b.len.raw as f64 / 1e9)
}

#[test]
fn test_circle_advance() {
    let shape_1 = Shape::circle(f(2.0)).place(v2(f(3.0), f(5.0)));
    assert_eq!(
        shape_1.advance(v2(f(1.0), f(2.0)), v2(f(-0.25), f(-0.25)), f(2.0)),
        Shape::circle(f(1.5)).place(v2(f(5.0), f(9.0)))
    );
}

#[test]
fn test_rect_advance() {
    let shape_1 = Shape::rect(v2(f(2.0), f(5.0))).place(v2(f(3.0), f(5.0)));
    assert_eq!(
        shape_1.advance(v2(f(1.0), f(2.0)), v2(f(-0.25), f(1.0)), f(2.0)),
        Shape::rect(v2(f(1.5), f(7.0))).place(v2(f(5.0), f(9.0)))
    );
}

#[test]
fn test_edges() {
    let shape = Shape::rect(v2(f(4.0), f(6.0))).place(v2(f(3.0), f(5.0)));
    assert_eq!(shape.min_x(), f(1.0));
    assert_eq!(shape.min_y(), f(2.0));
    assert_eq!(shape.max_x(), f(5.0));
    assert_eq!(shape.max_y(), f(8.0));
}

#[test]
fn test_rect_rect_normal() {
    let src = Shape::rect(v2(f(4.0), f(4.0))).place(v2(f(1.0), f(1.0)));
    let dst = Shape::rect(v2(f(8.0), f(8.0))).place(v2(f(2.0), f(1.5)));
    assert_eq!(dst.normal_from(&src), DirVec2::new(v2(f(1.0), f(0.0)), f(5.0)));
    let dst = Shape::rect(v2(f(8.0), f(8.0))).place(v2(f(0.0), f(0.5)));
    assert_eq!(dst.normal_from(&src), DirVec2::new(v2(f(-1.0), f(0.0)), f(5.0)));
    let dst = Shape::rect(v2(f(4.0), f(2.0))).place(v2(f(3.8), f(4.0)));
    assert_eq!(dst.normal_from(&src), DirVec2::new(v2(f(0.0), f(1.0)), f(0.0)));
    let dst = Shape::rect(v2(f(8.0), f(2.0))).place(v2(f(-2.0), f(-3.0)));
    assert_eq!(dst.normal_from(&src), DirVec2::new(v2(f(0.0), f(-1.0)), f(-1.0)));
}

#[test]
fn test_circle_circle_normal() {
    let src = Shape::circle(f(2.0)).place(v2(f(1.0), f(1.0)));
    let dst = Shape::circle(f(3.0)).place(v2(f(2.0), f(0.0)));
    assert!(same_normal(
        dst.normal_from(&src),
        DirVec2::new(v2(f(1.0), f(-1.0)), f(2.5 - 2.0f64.sqrt()))
    ));
}

#[test]
fn test_rect_circle_normal() {
    let src = Shape::rect(v2(f(2.0), f(2.0))).place(v2(f(0.0), f(0.0)));
    let corner_len = 1.25 - 2.0f64.sqrt();
    let cases = [
        ((-2.0, 0.0), (-1.0, 0.0), 0.25),
        ((0.0, -2.0), (0.0, -1.0), 0.25),
        ((2.0, 0.0), (1.0, 0.0), 0.25),
        ((0.0, 2.0), (0.0, 1.0), 0.25),
        ((-2.0, -2.0), (-1.0, -1.0), corner_len),
        ((2.0, -2.0), (1.0, -1.0), corner_len),
        ((-2.0, 2.0), (-1.0, 1.0), corner_len),
        ((2.0, 2.0), (1.0, 1.0), corner_len),
    ];
    for ((px, py), (dx, dy), len) in cases.iter() {
        let dst = Shape::circle(f(2.5)).place(v2(f(*px), f(*py)));
        assert!(same_normal(
            dst.normal_from(&src),
            DirVec2::new(v2(f(*dx), f(*dy)), f(*len))
        ));
    }
}

#[test]
fn test_masked_rect_rect_normal() {
    let src = Shape::rect(v2(f(4.0), f(4.0))).place(v2(f(1.0), f(1.0)));
    let dst = Shape::rect(v2(f(8.0), f(8.0))).place(v2(f(6.0), f(-5.0)));
    let mut mask = CardMask::full();
    assert_eq!(
        dst.masked_normal_from(&src, mask),
        DirVec2::new(v2(f(0.0), f(-1.0)), f(0.0))
    );
    mask.set(Card::MinusY, false);
    assert_eq!(
        dst.masked_normal_from(&src, mask),
        DirVec2::new(v2(f(1.0), f(0.0)), f(1.0))
    );
}

#[test]
fn test_masked_rect_circle_normal() {
    let src = Shape::rect(v2(f(2.0), f(2.0))).place(v2(f(0.0), f(0.0)));
    let dst = Shape::circle(f(2.5)).place(v2(f(-2.0), f(2.0)));
    let corner_len = 1.25 - 2.0f64.sqrt();
    let mut mask = CardMask::full();
    assert!(same_normal(
        dst.masked_normal_from(&src, mask),
        DirVec2::new(v2(f(-1.0), f(1.0)), f(corner_len))
    ));
    mask.set(Card::PlusX, false);
    assert!(same_normal(
        src.masked_normal_from(&dst, mask.flip()),
        DirVec2::new(v2(f(1.0), f(-1.0)), f(corner_len))
    ));
    assert!(same_normal(
        dst.masked_normal_from(&src, mask),
        DirVec2::new(v2(f(-1.0), f(1.0)), f(corner_len))
    ));
    mask.set(Card::PlusY, false);
    assert!(same_normal(
        dst.masked_normal_from(&src, mask),
        DirVec2::new(v2(f(-1.0), f(0.0)), f(0.25))
    ));
}

#[test]
fn test_rect_rect_contact() {
    let a = Shape::rect(v2(f(4.0), f(2.0))).place(v2(f(4.0), f(10.0)));
    let b = Shape::rect(v2(f(2.0), f(4.0))).place(v2(f(-2.0), f(12.0)));
    assert_eq!(a.contact_point(&b), v2(f(0.5), f(10.5)));
    assert_eq!(b.contact_point(&a), v2(f(0.5), f(10.5)));
}

#[test]
fn test_circle_circle_contact() {
    let a = Shape::circle(f(2.0)).place(v2(f(5.0), f(15.0)));
    let b = Shape::circle(f(8.0)).place(v2(f(5.0), f(19.0)));
    assert_eq!(a.contact_point(&b), v2(f(5.0), f(15.5)));
    assert_eq!(b.contact_point(&a), v2(f(5.0), f(15.5)));
}

#[test]
fn test_circle_rect_contact() {
    let a = Shape::circle(f(2.0)).place(v2(f(5.0), f(15.0)));
    let b = Shape::rect(v2(f(4.0), f(8.0))).place(v2(f(2.0), f(18.0)));
    assert_eq!(a.contact_point(&b), v2(f(4.0), f(15.0)));
    assert_eq!(b.contact_point(&a), v2(f(4.0), f(15.0)));
}

#[test]
fn card_flip_and_values() {
    assert_eq!(Card::MinusX.flip(), Card::PlusX);
    assert_eq!(Card::PlusY.flip(), Card::MinusY);
    assert_eq!(
        Card::values(),
        [Card::MinusX, Card::MinusY, Card::PlusX, Card::PlusY]
    );
    for card in Card::values().iter() {
        assert_eq!(card.flip().flip(), *card);
    }
}

#[test]
fn card_mask_sets() {
    let empty = CardMask::empty();
    let full = CardMask::full();
    for card in Card::values().iter() {
        assert!(!empty.get(*card));
        assert!(full.get(*card));
    }
    assert!(full.is_full());
    assert!(!empty.is_full());
    let one = CardMask::from_card(Card::MinusY);
    assert!(one.get(Card::MinusY));
    assert!(!one.get(Card::PlusY));
    let flipped = one.flip();
    assert!(flipped.get(Card::PlusY));
    assert!(!flipped.get(Card::MinusY));
}

#[test]
fn vec_lengths() {
    let v = v2(f(3.0), f(4.0));
    assert_eq!(v.len_sq(), f(25.0));
    assert_eq!(v.len(), f(5.0));
    assert_eq!(v.normalize(), Some(v2(f(0.6), f(0.8))));
    assert_eq!(Vec2::zero().normalize(), None);
    assert_eq!(v.dist(&Vec2::zero()), f(5.0));
    assert_eq!(v.dist_sq(&v2(f(3.0), f(0.0))), f(16.0));
    assert_eq!(Vec2::zero().lerp(v, f(0.5)), v2(f(1.5), f(2.0)));
    assert_eq!(Vec2::from_card(Card::MinusY), v2(f(0.0), f(-1.0)));
}

#[test]
fn dir_vec_flip_and_plain() {
    let d = DirVec2::new(v2(f(0.0), f(-3.0)), f(2.0));
    assert_eq!(d.dir(), v2(f(0.0), f(-1.0)));
    assert_eq!(d.len(), f(2.0));
    assert_eq!(d.flip().dir(), v2(f(0.0), f(1.0)));
    assert_eq!(d.to_vec2(), v2(f(0.0), f(-2.0)));
}

#[test]
fn overlap_and_bounding_box() {
    let a = Shape::rect(v2(f(2.0), f(2.0))).place(v2(f(0.0), f(0.0)));
    let b = Shape::circle(f(2.0)).place(v2(f(1.5), f(0.0)));
    let c = Shape::circle(f(2.0)).place(v2(f(5.0), f(0.0)));
    assert!(a.overlaps(&b));
    assert!(!a.overlaps(&c));
    let bb = a.bounding_box(&c);
    assert_eq!(bb, Shape::rect(v2(f(7.0), f(2.0))).place(v2(f(2.5), f(0.0))));
}
