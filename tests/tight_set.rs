use collider::tight_set::TightSet;

#[test]
fn tight_set_insert_remove() {
    let mut set = TightSet::new();
    assert!(set.is_empty());
    assert!(set.insert(5));
    assert!(!set.insert(5));
    assert!(set.insert(8));
    assert!(set.contains(&5));
    assert!(!set.contains(&6));
    assert!(!set.is_empty());
    assert!(set.remove(&5));
    assert!(!set.remove(&5));
    assert!(!set.contains(&5));
    assert_eq!(set.iter(), vec![8]);
}

#[test]
fn tight_set_shrinks_and_keeps_values() {
    let mut set = TightSet::new();
    for i in 0..100u64 {
        set.insert(i);
    }
    for i in 0..98u64 {
        assert!(set.remove(&i));
    }
    let mut rest = set.iter();
    rest.sort();
    assert_eq!(rest, vec![98, 99]);
    let mut drained = set.drain();
    drained.sort();
    assert_eq!(drained, vec![98, 99]);
    assert!(set.is_empty());
}

#[test]
fn tight_set_clear() {
    let mut set = TightSet::new();
    for i in 0..50u64 {
        set.insert(i);
    }
    set.clear();
    assert!(set.is_empty());
    assert!(!set.contains(&3));
    set.insert(3);
    set.clear();
    assert!(set.is_empty());
}
