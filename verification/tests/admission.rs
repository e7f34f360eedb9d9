use cmux::admission::{Slots, CAPACITY};

/// Saturation rejects immediately, and releasing an owned slot allows the next connection.
#[test]
fn capacity_is_reusable() {
    let mut slots = Slots::new(1);
    let permit = slots.acquire().unwrap();
    assert!(slots.acquire().is_none());
    assert_eq!(slots.snapshot().2, 1);
    slots.release(permit);
    assert!(slots.acquire().is_some());
}

#[test]
fn snapshot_counts_holders_and_refusals() {
    let mut slots = Slots::new(CAPACITY);
    let mut held = Vec::new();
    for _ in 0..CAPACITY {
        held.push(slots.acquire().unwrap());
    }
    assert_eq!(slots.snapshot(), (64, 64, 0));
    assert!(slots.acquire().is_none());
    assert!(slots.acquire().is_none());
    assert_eq!(slots.snapshot(), (64, 64, 2));
    slots.release(held.pop().unwrap());
    assert_eq!(slots.snapshot(), (64, 63, 2));
}
