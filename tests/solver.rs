use collider::dur_hitbox::DurHitbox;
use collider::scalar::Scalar;
use collider::shape::{PlacedShape, Shape};
use collider::vec::{v2, Vec2};

fn f(x: f64) -> Scalar {
    Scalar::from_raw((x * 1e9).round() as i128)
}

fn close(a: Scalar, b: f64) -> bool {
    (a.raw as f64 / 1e9 - b).abs() < 1e-7
}

fn hitbox(x: f64, y: f64, shape: Shape) -> DurHitbox {
    DurHitbox::new(PlacedShape::new(v2(f(x), f(y)), shape))
}

fn rect(w: f64, h: f64) -> Shape {
    Shape::rect(v2(f(w), f(h)))
}

fn circle(d: f64) -> Shape {
    Shape::circle(f(d))
}

#[test]
fn test_rect_rect_collision() {
    let mut a = hitbox(-11.0, 0.0, rect(2.0, 2.0));
    a.vel.value = v2(f(2.0), f(0.0));
    a.vel.duration = f(100.0);
    let mut b = hitbox(12.0, 2.0, rect(2.0, 4.0));
    b.vel.value = v2(f(-0.5), f(0.0));
    b.vel.resize = v2(f(1.0), f(0.0));
    b.vel.duration = f(100.0);
    assert_eq!(a.collide_time(&b), f(7.0));
    assert_eq!(b.collide_time(&a), f(7.0));
    assert_eq!(a.separate_time(&b, f(0.1)), f(0.0));
}

#[test]
fn test_circle_circle_collision() {
    let sqrt2 = 2.0f64.sqrt();
    let mut a = hitbox(-0.1 * sqrt2, 0.0, circle(2.0));
    a.vel.value = v2(f(0.1), f(0.0));
    a.vel.duration = f(100.0);
    let mut b = hitbox(3.0 * sqrt2, 0.0, circle(2.0 + sqrt2 * 0.1));
    b.vel.value = v2(f(-2.0), f(1.0));
    b.vel.resize = v2(f(-0.1), f(-0.1));
    b.vel.duration = f(100.0);
    assert!(close(a.collide_time(&b), sqrt2));
    assert_eq!(a.separate_time(&b, f(0.1)), f(0.0));
}

#[test]
fn test_rect_circle_collision() {
    let mut a = hitbox(-11.0, 0.0, circle(2.0));
    a.vel.value = v2(f(2.0), f(0.0));
    a.vel.duration = f(100.0);
    let mut b = hitbox(12.0, 2.0, rect(2.0, 4.0));
    b.vel.value = v2(f(-1.0), f(0.0));
    b.vel.duration = f(100.0);
    assert_eq!(a.collide_time(&b), f(7.0));
    assert_eq!(b.collide_time(&a), f(7.0));
    assert_eq!(a.separate_time(&b, f(0.1)), f(0.0));
}

#[test]
fn test_rect_circle_angled_collision() {
    let mut a = hitbox(0.0, 0.0, Shape::square(f(2.0)));
    a.vel.duration = f(100.0);
    let mut b = hitbox(5.0, 5.0, circle(2.0));
    b.vel.value = v2(f(-1.0), f(-1.0));
    b.vel.duration = f(100.0);
    let collide_time = a.collide_time(&b);
    let expected_time = 4.0 - 1.0 / 2.0f64.sqrt();
    assert!(close(collide_time, expected_time));
}

#[test]
fn test_rect_rect_separation() {
    let mut a = hitbox(0.0, 0.0, rect(6.0, 4.0));
    a.vel.value = v2(f(1.0), f(1.0));
    a.vel.duration = f(100.0);
    let mut b = hitbox(1.0, 0.0, rect(4.0, 4.0));
    b.vel.value = v2(f(0.5), f(0.0));
    b.vel.duration = f(100.0);
    assert_eq!(a.separate_time(&b, f(0.1)), f(4.1));
    assert_eq!(b.separate_time(&a, f(0.1)), f(4.1));
    assert_eq!(a.collide_time(&b), f(0.0));
}

#[test]
fn test_circle_circle_separation() {
    let sqrt2 = 2.0f64.sqrt();
    let mut a = hitbox(2.0, 5.0, circle(2.0));
    a.vel.duration = f(100.0);
    let mut b = hitbox(3.0, 4.0, circle(1.8));
    b.vel.value = v2(f(-1.0), f(1.0));
    b.vel.duration = f(100.0);
    assert!(close(a.separate_time(&b, f(0.1)), 1.0 + sqrt2));
    assert!(close(b.separate_time(&a, f(0.1)), 1.0 + sqrt2));
    assert_eq!(a.collide_time(&b), f(0.0));
}

#[test]
fn test_rect_circle_separation() {
    let sqrt2 = 2.0f64.sqrt();
    let mut a = hitbox(4.0, 2.0, rect(4.0, 6.0));
    a.vel.duration = f(100.0);
    let mut b = hitbox(3.0, 4.0, circle(3.8));
    b.vel.value = v2(f(-1.0), f(1.0));
    b.vel.duration = f(100.0);
    assert!(close(a.separate_time(&b, f(0.1)), 1.0 + sqrt2));
    assert!(close(b.separate_time(&a, f(0.1)), 1.0 + sqrt2));
    assert_eq!(a.collide_time(&b), f(0.0));
}

#[test]
fn test_rect_circle_angled_separation() {
    let mut a = hitbox(0.0, 0.0, Shape::square(f(2.0)));
    a.vel.duration = f(100.0);
    let mut b = hitbox(-1.0, 1.0, circle(2.0));
    b.vel.value = v2(f(1.0), f(-1.0));
    b.vel.duration = f(100.0);
    let separate_time = a.separate_time(&b, f(0.1));
    let expected_time = 2.0 + 1.1 / 2.0f64.sqrt();
    assert!(close(separate_time, expected_time));
}

#[test]
fn test_no_collision() {
    let mut a = hitbox(-11.0, 0.0, rect(2.0, 2.0));
    a.vel.value = v2(f(2.0), f(0.0));
    a.vel.duration = f(100.0);
    let mut b = hitbox(12.0, 2.0, rect(2.0, 4.0));
    b.vel.value = v2(f(-1.0), f(1.0));
    b.vel.duration = f(100.0);
    assert_eq!(a.collide_time(&b), Scalar::infinity());
    assert_eq!(a.separate_time(&b, f(0.1)), f(0.0));
    b.value.shape = circle(2.0);
    b.vel.resize = Vec2::zero();
    assert_eq!(a.collide_time(&b), Scalar::infinity());
    assert_eq!(a.separate_time(&b, f(0.1)), f(0.0));
    a.value.shape = circle(2.0);
    a.vel.resize = Vec2::zero();
    assert_eq!(a.collide_time(&b), Scalar::infinity());
    assert_eq!(a.separate_time(&b, f(0.1)), f(0.0));
}

#[test]
fn test_no_separation() {
    let mut a = hitbox(5.0, 1.0, rect(2.0, 2.0));
    a.vel.value = v2(f(2.0), f(1.0));
    a.vel.duration = f(100.0);
    let mut b = hitbox(5.0, 1.0, rect(2.0, 4.0));
    b.vel.value = v2(f(2.0), f(1.0));
    b.vel.duration = f(100.0);
    assert_eq!(a.separate_time(&b, f(0.1)), Scalar::infinity());
    assert_eq!(a.collide_time(&b), f(0.0));
    b.value.shape = circle(2.0);
    b.vel.resize = Vec2::zero();
    assert_eq!(a.separate_time(&b, f(0.1)), Scalar::infinity());
    assert_eq!(a.collide_time(&b), f(0.0));
    a.value.shape = circle(2.0);
    a.vel.resize = Vec2::zero();
    assert_eq!(a.separate_time(&b, f(0.1)), Scalar::infinity());
    assert_eq!(a.collide_time(&b), f(0.0));
}

#[test]
fn test_low_duration() {
    let sqrt2 = 2.0f64.sqrt();
    let mut a = hitbox(0.0, 0.0, circle(2.0));
    a.vel.duration = f(4.0 - sqrt2 + 0.01);
    let mut b = hitbox(4.0, 4.0, circle(2.0));
    b.vel.value = v2(f(-1.0), f(-1.0));
    b.vel.duration = f(4.0 - sqrt2 + 0.01);
    assert!(close(a.collide_time(&b), 4.0 - sqrt2));
    a.vel.duration = a.vel.duration.sub(f(0.02));
    assert_eq!(a.collide_time(&b), Scalar::infinity());
    b.vel.duration = b.vel.duration.sub(f(0.02));
    assert_eq!(a.collide_time(&b), Scalar::infinity());
}

#[test]
fn head_on_rectangles() {
    let mut a = hitbox(-10.0, 0.0, rect(2.0, 2.0));
    a.vel.value = v2(f(1.0), f(0.0));
    let mut b = hitbox(10.0, 0.0, rect(2.0, 2.0));
    b.vel.value = v2(f(-1.0), f(0.0));
    let collide = a.collide_time(&b);
    assert_eq!(collide, f(9.0));
    let mut a9 = a;
    a9.value = a.advanced_shape(collide);
    let mut b9 = b;
    b9.value = b.advanced_shape(collide);
    let separate = a9.separate_time(&b9, f(0.25));
    assert_eq!(collide.add(separate), f(11.125));
}

#[test]
fn initial_overlap_separates() {
    let a = hitbox(0.0, 0.0, rect(1.0, 1.0));
    let mut b = hitbox(0.0, 0.0, rect(1.0, 1.0));
    b.vel.value = v2(f(0.0), f(1.0));
    assert_eq!(a.collide_time(&b), f(0.0));
    assert_eq!(a.separate_time(&b, f(0.25)), f(1.25));
    assert_eq!(b.separate_time(&a, f(0.25)), f(1.25));
}

#[test]
fn collide_time_is_symmetric() {
    let mut a = hitbox(-3.0, 1.0, circle(1.0));
    a.vel.value = v2(f(1.0), f(0.0));
    let mut b = hitbox(4.0, 0.0, rect(2.0, 3.0));
    b.vel.value = v2(f(-0.5), f(0.0));
    let t = a.collide_time(&b);
    assert_eq!(t, b.collide_time(&a));
    assert!(close(t, 11.0 / 3.0));
    assert_eq!(a.separate_time(&b, f(0.1)), b.separate_time(&a, f(0.1)));
}

#[test]
fn bounding_box_spans_motion() {
    let mut a = hitbox(0.0, 0.0, rect(2.0, 2.0));
    a.vel.value = v2(f(1.0), f(-1.0));
    a.vel.duration = f(4.0);
    let bb = a.bounding_box();
    assert_eq!(bb, PlacedShape::new(v2(f(2.0), f(-2.0)), rect(6.0, 6.0)));
    let still = hitbox(1.0, 1.0, circle(2.0));
    assert_eq!(still.bounding_box(), PlacedShape::new(v2(f(1.0), f(1.0)), rect(2.0, 2.0)));
}

#[test]
fn touching_rectangles_collide_at_once() {
    let mut a = hitbox(0.0, 0.0, rect(2.0, 2.0));
    a.vel.duration = f(10.0);
    let mut b = hitbox(2.0, 0.0, rect(2.0, 2.0));
    b.vel.value = v2(f(1.0), f(0.0));
    b.vel.duration = f(10.0);
    assert_eq!(a.collide_time(&b), f(0.0));
    assert_eq!(b.collide_time(&a), f(0.0));
    let c = hitbox(2.0, 0.0, rect(2.0, 2.0));
    assert_eq!(a.collide_time(&c), f(0.0));
}

#[test]
fn bounding_box_covers_odd_span() {
    let mut a = DurHitbox::new(PlacedShape::new(
        v2(Scalar::from_raw(1), Scalar::from_raw(1)),
        Shape::rect(v2(Scalar::from_raw(2), Scalar::from_raw(2))),
    ));
    a.vel.value = v2(Scalar::from_raw(1_000_000_000), Scalar::from_raw(0));
    a.vel.duration = Scalar::from_raw(1);
    let bb = a.bounding_box();
    assert_eq!(bb.min_x(), Scalar::from_raw(0));
    assert!(bb.max_x() >= Scalar::from_raw(3));
    assert!(bb.max_x() <= Scalar::from_raw(4));
}

#[test]
fn touching_circles_collide_at_once() {
    let mut a = hitbox(0.0, 0.0, circle(2.0));
    a.vel.duration = f(100.0);
    let mut b = hitbox(2.0, 0.0, circle(2.0));
    b.vel.value = v2(f(1.0), f(0.0));
    b.vel.duration = f(100.0);
    assert_eq!(a.collide_time(&b), f(0.0));
    assert_eq!(b.collide_time(&a), f(0.0));
}

#[test]
fn touching_rectangles_are_separated_already() {
    let mut a = hitbox(0.0, 0.0, rect(2.0, 2.0));
    a.vel.duration = f(100.0);
    let mut b = hitbox(2.0, 0.0, rect(2.0, 2.0));
    b.vel.value = v2(f(-1.0), f(0.0));
    b.vel.duration = f(100.0);
    assert_eq!(a.collide_time(&b), f(0.0));
    assert_eq!(a.separate_time(&b, f(0.0)), f(0.0));
    assert_eq!(b.separate_time(&a, f(0.0)), f(0.0));
}
