use collider::collider::{Collider, HbEvent, HbProfile, HbVel};
use collider::scalar::Scalar;
use collider::shape::Shape;
use collider::util::HbId;
use collider::vec::v2;

fn f(x: f64) -> Scalar {
    Scalar::from_raw((x * 1e9).round() as i128)
}

#[derive(Copy, Clone, PartialEq, Eq, PartialOrd, Ord, Debug, Hash)]
struct TestHbProfile {
    id: HbId,
}

impl From<HbId> for TestHbProfile {
    fn from(id: HbId) -> TestHbProfile {
        TestHbProfile { id }
    }
}

impl HbProfile for TestHbProfile {
    fn id_spec(&self) -> HbId {
        self.id
    }
    fn interacts(&self, _other: &TestHbProfile) -> bool {
        true
    }
    fn id(&self) -> HbId {
        self.id
    }
    fn can_interact(&self, _other: &TestHbProfile) -> bool {
        true
    }
}

fn advance_to_event(collider: &mut Collider<TestHbProfile>, time: Scalar) {
    advance(collider, time);
    assert_eq!(collider.next_time(), collider.time());
}

fn advance(collider: &mut Collider<TestHbProfile>, time: Scalar) {
    while collider.time() < time {
        assert!(collider.next().is_none());
        let new_time = collider.next_time().min(time);
        collider.set_time(new_time);
    }
    assert_eq!(collider.time(), time);
}

fn advance_through_events(collider: &mut Collider<TestHbProfile>, time: Scalar) {
    while collider.time() < time {
        collider.next();
        let new_time = collider.next_time().min(time);
        collider.set_time(new_time);
    }
    assert_eq!(collider.time(), time);
}

fn sort(mut vector: Vec<TestHbProfile>) -> Vec<TestHbProfile> {
    vector.sort();
    vector
}

#[test]
fn tests_smoke_test() {
    let mut collider = Collider::<TestHbProfile>::new(f(4.0), f(0.25));
    let mut hitbox = Shape::square(f(2.0)).place(v2(f(-10.0), f(0.0))).still();
    hitbox.vel.value = v2(f(1.0), f(0.0));
    let overlaps = collider.add_hitbox(0.into(), hitbox).unwrap();
    assert_eq!(overlaps, vec![]);
    let mut hitbox = Shape::circle(f(2.0)).place(v2(f(10.0), f(0.0))).still();
    hitbox.vel.value = v2(f(-1.0), f(0.0));
    let overlaps = collider.add_hitbox(1.into(), hitbox).unwrap();
    assert_eq!(overlaps, vec![]);
    advance_to_event(&mut collider, f(9.0));
    assert_eq!(collider.next(), Some((HbEvent::Collide, 0.into(), 1.into())));
    advance_to_event(&mut collider, f(11.125));
    assert_eq!(collider.next(), Some((HbEvent::Separate, 0.into(), 1.into())));
    advance(&mut collider, f(23.0));
}

#[test]
fn tests_test_hitbox_updates() {
    let mut collider = Collider::<TestHbProfile>::new(f(4.0), f(0.25));
    let mut hitbox = Shape::square(f(2.0)).place(v2(f(-10.0), f(0.0))).still();
    hitbox.vel.value = v2(f(1.0), f(0.0));
    let overlaps = collider.add_hitbox(0.into(), hitbox).unwrap();
    assert!(overlaps.is_empty());
    let mut hitbox = Shape::circle(f(2.0)).place(v2(f(10.0), f(0.0))).still();
    hitbox.vel.value = v2(f(1.0), f(0.0));
    let overlaps = collider.add_hitbox(1.into(), hitbox).unwrap();
    assert!(overlaps.is_empty());
    advance(&mut collider, f(11.0));

    let mut hitbox = collider.get_hitbox(0);
    assert_eq!(hitbox.value, Shape::square(f(2.0)).place(v2(f(1.0), f(0.0))));
    assert_eq!(hitbox.vel.value, v2(f(1.0), f(0.0)));
    assert_eq!(hitbox.vel.resize, v2(f(0.0), f(0.0)));
    assert_eq!(hitbox.vel.end_time, Scalar::infinity());
    hitbox.value.pos = v2(f(0.0), f(2.0));
    hitbox.vel.value = v2(f(0.0), f(-1.0));
    let overlaps = collider.remove_hitbox(0);
    assert_eq!(overlaps, vec![]);
    let overlaps = collider.add_hitbox(0.into(), hitbox).unwrap();
    assert_eq!(overlaps, vec![]);
    advance(&mut collider, f(14.0));

    let mut hitbox = collider.get_hitbox(1);
    assert_eq!(hitbox.value, Shape::circle(f(2.0)).place(v2(f(24.0), f(0.0))));
    assert_eq!(hitbox.vel.value, v2(f(1.0), f(0.0)));
    assert_eq!(hitbox.vel.resize, v2(f(0.0), f(0.0)));
    assert_eq!(hitbox.vel.end_time, Scalar::infinity());
    hitbox.value.pos = v2(f(0.0), f(-8.0));
    hitbox.vel.value = v2(f(0.0), f(0.0));
    let overlaps = collider.remove_hitbox(1);
    assert_eq!(overlaps, vec![]);
    let overlaps = collider.add_hitbox(1.into(), hitbox).unwrap();
    assert_eq!(overlaps, vec![]);
    advance_to_event(&mut collider, f(19.0));
    assert_eq!(collider.next(), Some((HbEvent::Collide, 0.into(), 1.into())));

    let mut hitbox = collider.get_hitbox(0);
    assert_eq!(hitbox.value, Shape::square(f(2.0)).place(v2(f(0.0), f(-6.0))));
    assert_eq!(hitbox.vel.value, v2(f(0.0), f(-1.0)));
    assert_eq!(hitbox.vel.resize, v2(f(0.0), f(0.0)));
    assert_eq!(hitbox.vel.end_time, Scalar::infinity());
    hitbox.vel.value = v2(f(0.0), f(0.0));
    collider.set_hitbox_vel(0, hitbox.vel);

    let mut hitbox = collider.get_hitbox(1);
    assert_eq!(hitbox.value, Shape::circle(f(2.0)).place(v2(f(0.0), f(-8.0))));
    assert_eq!(hitbox.vel.value, v2(f(0.0), f(0.0)));
    assert_eq!(hitbox.vel.resize, v2(f(0.0), f(0.0)));
    assert_eq!(hitbox.vel.end_time, Scalar::infinity());
    hitbox.vel.value = v2(f(0.0), f(2.0));
    collider.set_hitbox_vel(1, hitbox.vel);

    let hitbox = Shape::rect(v2(f(2.0), f(20.0))).place(v2(f(0.0), f(0.0))).still();
    assert_eq!(
        sort(collider.add_hitbox(2.into(), hitbox).unwrap()),
        vec![0.into(), 1.into()]
    );
    advance_to_event(&mut collider, f(21.125));
    assert_eq!(collider.next(), Some((HbEvent::Separate, 0.into(), 1.into())));
    advance(&mut collider, f(26.125));
    let overlaps = collider.remove_hitbox(1);
    assert_eq!(overlaps, vec![2.into()]);
    advance(&mut collider, f(37.125));
}

#[test]
fn tests_test_get_overlaps() {
    let mut collider = Collider::<TestHbProfile>::new(f(4.0), f(0.25));
    collider
        .add_hitbox(0.into(), Shape::square(f(2.0)).place(v2(f(-10.0), f(0.0))).moving(v2(f(1.0), f(0.0))))
        .unwrap();
    collider
        .add_hitbox(1.into(), Shape::circle(f(2.0)).place(v2(f(10.0), f(0.0))).moving(v2(f(-1.0), f(0.0))))
        .unwrap();
    collider
        .add_hitbox(2.into(), Shape::square(f(2.0)).place(v2(f(0.0), f(0.0))).still())
        .unwrap();
    assert_eq!(collider.get_overlaps(0), vec![]);
    assert_eq!(collider.get_overlaps(1), vec![]);
    assert_eq!(collider.get_overlaps(2), vec![]);
    assert!(!collider.is_overlapping(0, 1));
    assert!(!collider.is_overlapping(0, 2));
    assert!(!collider.is_overlapping(1, 2));
    assert!(!collider.is_overlapping(1, 0));

    advance_through_events(&mut collider, f(10.0));
    assert_eq!(sort(collider.get_overlaps(0)), vec![1.into(), 2.into()]);
    assert_eq!(sort(collider.get_overlaps(1)), vec![0.into(), 2.into()]);
    assert_eq!(sort(collider.get_overlaps(2)), vec![0.into(), 1.into()]);
    assert!(collider.is_overlapping(0, 1));
    assert!(collider.is_overlapping(0, 2));
    assert!(collider.is_overlapping(1, 2));
    assert!(collider.is_overlapping(1, 0));

    collider.set_hitbox_vel(1, HbVel::moving(v2(f(1.0), f(0.0))));
    advance_through_events(&mut collider, f(20.0));
    assert_eq!(collider.get_overlaps(0), vec![1.into()]);
    assert_eq!(collider.get_overlaps(1), vec![0.into()]);
    assert_eq!(collider.get_overlaps(2), vec![]);
    assert!(collider.is_overlapping(0, 1));
    assert!(!collider.is_overlapping(0, 2));
    assert!(!collider.is_overlapping(1, 2));

    collider.remove_hitbox(2);
    assert_eq!(collider.get_overlaps(0), vec![1.into()]);
    assert_eq!(collider.get_overlaps(1), vec![0.into()]);
    assert!(collider.is_overlapping(0, 1));
    collider.remove_hitbox(1);
    assert_eq!(collider.get_overlaps(0), vec![]);
}

#[test]
fn tests_test_query_overlaps() {
    let mut collider = Collider::<TestHbProfile>::new(f(4.0), f(0.25));
    collider
        .add_hitbox(0.into(), Shape::square(f(2.0)).place(v2(f(-5.0), f(0.0))).moving(v2(f(1.0), f(0.0))))
        .unwrap();
    collider
        .add_hitbox(1.into(), Shape::circle(f(2.0)).place(v2(f(0.0), f(0.0))).still())
        .unwrap();
    collider
        .add_hitbox(2.into(), Shape::circle(f(2.0)).place(v2(f(10.0), f(0.0))).moving(v2(f(-1.0), f(0.0))))
        .unwrap();
    let test_shape = Shape::circle(f(2.0)).place(v2(f(-1.0), f(0.5)));
    assert_eq!(collider.query_overlaps(&test_shape, &5.into()), vec![1.into()]);
    advance(&mut collider, f(3.0));
    assert_eq!(
        sort(collider.query_overlaps(&test_shape, &5.into())),
        vec![0.into(), 1.into()]
    );
}

#[test]
fn tests_test_separate_initial_overlap() {
    let mut collider = Collider::<TestHbProfile>::new(f(4.0), f(0.25));
    let overlaps = collider
        .add_hitbox(0.into(), Shape::square(f(1.0)).place(v2(f(0.0), f(0.0))).moving(v2(f(0.0), f(1.0))))
        .unwrap();
    assert_eq!(overlaps, vec![]);
    let overlaps = collider
        .add_hitbox(1.into(), Shape::square(f(1.0)).place(v2(f(0.0), f(0.0))).still())
        .unwrap();
    assert_eq!(overlaps, vec![0.into()]);
    advance_to_event(&mut collider, f(1.25));
    assert_eq!(collider.next(), Some((HbEvent::Separate, 0.into(), 1.into())));
    advance(&mut collider, f(1.5));
}

#[test]
fn duplicate_id_is_refused() {
    let mut collider = Collider::<TestHbProfile>::new(f(4.0), f(0.25));
    let hitbox = Shape::square(f(1.0)).place(v2(f(0.0), f(0.0))).still();
    assert!(collider.add_hitbox(3.into(), hitbox).is_ok());
    assert_eq!(
        collider.add_hitbox(3.into(), hitbox),
        Err(collider::collider::ColliderError::DuplicateId)
    );
}

#[test]
fn events_come_out_in_time_order() {
    let mut collider = Collider::<TestHbProfile>::new(f(4.0), f(0.25));
    collider
        .add_hitbox(0.into(), Shape::square(f(2.0)).place(v2(f(-10.0), f(0.0))).moving(v2(f(1.0), f(0.0))))
        .unwrap();
    collider
        .add_hitbox(1.into(), Shape::circle(f(2.0)).place(v2(f(10.0), f(0.0))).moving(v2(f(-1.0), f(0.0))))
        .unwrap();
    collider
        .add_hitbox(2.into(), Shape::square(f(2.0)).place(v2(f(0.0), f(0.0))).still())
        .unwrap();
    let mut times = Vec::new();
    while collider.time() < f(30.0) {
        if let Some((_, a, b)) = collider.next() {
            assert!(a < b);
            times.push(collider.time());
        }
        let new_time = collider.next_time().min(f(30.0));
        collider.set_time(new_time);
    }
    assert_eq!(times.len(), 6);
    assert!(times.windows(2).all(|w| w[0] <= w[1]));
    assert_eq!(times[0], f(8.0));
    assert_eq!(times[2], f(9.0));
}
