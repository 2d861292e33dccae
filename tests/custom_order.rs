use binheap::{Comparator, Heap};

/// Ranks by distance from zero, nearest first.
struct NearestToZero;

// Compiled without the verifier, the trait's `outranks` and `consistent` are
// ordinary methods, so they are written out here too.
impl Comparator<i32> for NearestToZero {
    fn outranks(&self, a: i32, b: i32) -> bool {
        a.unsigned_abs() < b.unsigned_abs()
    }

    fn consistent(&self) -> bool {
        true
    }

    fn compare(&self, a: &i32, b: &i32) -> bool {
        a.unsigned_abs() < b.unsigned_abs()
    }
}

#[test]
fn user_comparator_orders_extraction() {
    let mut heap = Heap::new(NearestToZero);
    for v in [-9, 4, -1, 7, 0, -5] {
        heap.add(v);
    }
    assert_eq!(heap.len(), 6);
    let mut out = Vec::new();
    while let Some(x) = heap.next() {
        out.push(x);
    }
    assert_eq!(out, vec![0, -1, 4, -5, 7, -9]);
    assert!(heap.is_empty());
}

#[test]
fn equal_priority_keeps_the_root() {
    let mut heap = Heap::new(NearestToZero);
    heap.add(5);
    heap.add(-5);
    assert_eq!(heap.next(), Some(5));
    assert_eq!(heap.next(), Some(-5));
    assert_eq!(heap.next(), None);
}
