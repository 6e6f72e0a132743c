//! The hole-keeping vector: stable indices, hole reuse, and the count.

use mine_core::holevec::HoleVec;

#[test]
fn push_appends_then_fills_holes() {
    let mut v: HoleVec<&str> = HoleVec::new();
    assert_eq!(v.push("a"), 0);
    assert_eq!(v.push("b"), 1);
    assert_eq!(v.push("c"), 2);
    assert_eq!(v.len(), 3);

    assert_eq!(v.remove(1), Some("b"));
    assert_eq!(v.len(), 2);
    assert_eq!(v.get(1), None);
    assert_eq!(v.get(0), Some(&"a"));
    assert_eq!(v.get(2), Some(&"c"));

    // The hole is reused before the store grows.
    assert_eq!(v.push("d"), 1);
    assert_eq!(v.len(), 3);
    assert_eq!(v.get(1), Some(&"d"));
    assert_eq!(v.push("e"), 3);
}

#[test]
fn earliest_hole_wins() {
    let mut v: HoleVec<u32> = HoleVec::with_capacity(8);
    for n in 0..5 {
        v.push(n);
    }
    v.remove(3);
    v.remove(0);
    assert_eq!(v.push(90), 0);
    assert_eq!(v.push(93), 3);
    assert_eq!(v.push(95), 5);
}

#[test]
fn removing_a_hole_returns_none_and_keeps_count() {
    let mut v: HoleVec<u32> = HoleVec::new();
    v.push(7);
    v.push(8);
    assert_eq!(v.remove(0), Some(7));
    assert_eq!(v.remove(0), None);
    assert_eq!(v.len(), 1);
}

#[test]
fn contains_sees_occupied_slots_only() {
    let mut v: HoleVec<u32> = HoleVec::new();
    v.push(1);
    v.push(2);
    v.push(3);
    v.remove(1);
    assert!(v.contains(&1));
    assert!(!v.contains(&2));
    assert!(v.contains(&3));
}

#[test]
fn clear_and_emptiness() {
    let mut v: HoleVec<u32> = HoleVec::default();
    assert!(v.is_empty());
    v.push(5);
    v.reserve(16);
    assert!(!v.is_empty());
    v.clear();
    assert!(v.is_empty());
    assert_eq!(v.len(), 0);
    assert_eq!(v.get(0), None);
    // Indices start over after a clear.
    assert_eq!(v.push(6), 0);
}

#[test]
fn get_out_of_range_is_none() {
    let mut v: HoleVec<u32> = HoleVec::new();
    assert_eq!(v.get(0), None);
    v.push(1);
    assert_eq!(v.get(1), None);
}

#[test]
fn retain_keeps_matching_elements_in_place() {
    let mut v: HoleVec<u32> = HoleVec::new();
    for n in 0..6 {
        v.push(n * 10);
    }
    v.retain(|x| x % 20 == 0);
    assert_eq!(v.len(), 3);
    assert_eq!(v.get(0), Some(&0));
    assert_eq!(v.get(1), None);
    assert_eq!(v.get(2), Some(&20));
    assert_eq!(v.get(3), None);
    assert_eq!(v.get(4), Some(&40));
    // Freed slots are reused from the front.
    assert_eq!(v.push(7), 1);
}
