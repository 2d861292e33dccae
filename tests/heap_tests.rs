use binheap::{Comparator, Heap, MaxHeap, MaxOrder, MinHeap, MinOrder};

fn drain<T, C: Comparator<T>>(heap: &mut Heap<T, C>) -> Vec<T> {
    let mut out = Vec::new();
    while let Some(x) = heap.next() {
        out.push(x);
    }
    out
}

#[test]
fn test_empty_heap() {
    let mut heap = MaxHeap::new::<i32>();
    assert_eq!(heap.next(), None);
}

#[test]
fn test_min_heap() {
    let mut heap = MinHeap::new();
    heap.add(4);
    heap.add(2);
    heap.add(9);
    heap.add(11);
    assert_eq!(heap.len(), 4);
    assert_eq!(heap.next(), Some(2));
    assert_eq!(heap.next(), Some(4));
    assert_eq!(heap.next(), Some(9));
    heap.add(1);
    assert_eq!(heap.next(), Some(1));
}

#[test]
fn test_max_heap() {
    let mut heap = MaxHeap::new();
    heap.add(4);
    heap.add(2);
    heap.add(9);
    heap.add(11);
    assert_eq!(heap.len(), 4);
    assert_eq!(heap.next(), Some(11));
    assert_eq!(heap.next(), Some(9));
    assert_eq!(heap.next(), Some(4));
    heap.add(1);
    assert_eq!(heap.next(), Some(2));
}

#[test]
fn fresh_heap_is_empty() {
    let mut heap: Heap<i32, MinOrder> = Heap::new_min();
    assert!(heap.is_empty());
    assert_eq!(heap.len(), 0);
    assert_eq!(heap.next(), None);
    assert!(heap.is_empty());
}

#[test]
fn fresh_max_heap_from_new() {
    let mut heap: Heap<u64, MaxOrder> = Heap::new(MaxOrder);
    assert!(heap.is_empty());
    assert_eq!(heap.next(), None);
}

#[test]
fn drained_heap_stays_empty() {
    let mut heap = MinHeap::new();
    for v in [5, 3, 8] {
        heap.add(v);
    }
    assert_eq!(heap.next(), Some(3));
    assert_eq!(heap.next(), Some(5));
    assert_eq!(heap.next(), Some(8));
    for _ in 0..5 {
        assert_eq!(heap.next(), None);
        assert_eq!(heap.len(), 0);
    }
}

#[test]
fn min_drain_is_sorted() {
    let values = [17, -3, 42, 0, 8, 8, -20, 5, 99, 1, 13];
    let mut heap = Heap::new_min();
    for v in values {
        heap.add(v);
    }
    let mut expected = values.to_vec();
    expected.sort();
    assert_eq!(drain(&mut heap), expected);
}

#[test]
fn max_drain_is_sorted() {
    let values = [17, -3, 42, 0, 8, 8, -20, 5, 99, 1, 13];
    let mut heap = Heap::new_max();
    for v in values {
        heap.add(v);
    }
    let mut expected = values.to_vec();
    expected.sort();
    expected.reverse();
    assert_eq!(drain(&mut heap), expected);
}

#[test]
fn equal_keys_all_come_out() {
    let mut heap = MinHeap::new();
    for _ in 0..6 {
        heap.add(7u8);
    }
    heap.add(3u8);
    assert_eq!(drain(&mut heap), vec![3, 7, 7, 7, 7, 7, 7]);
}

#[test]
fn len_tracks_adds_and_extractions() {
    let mut heap = MaxHeap::new();
    heap.add(1);
    heap.add(2);
    heap.add(3);
    assert_eq!(heap.len(), 3);
    assert_eq!(heap.next(), Some(3));
    assert_eq!(heap.len(), 2);
    heap.add(10);
    assert_eq!(heap.len(), 3);
    assert_eq!(heap.next(), Some(10));
    assert_eq!(heap.next(), Some(2));
    assert_eq!(heap.next(), Some(1));
    assert_eq!(heap.len(), 0);
    assert_eq!(heap.next(), None);
    assert_eq!(heap.len(), 0);
    assert!(heap.is_empty());
}

#[test]
fn large_descending_input() {
    let mut heap = MinHeap::new();
    for v in (0..2000i64).rev() {
        heap.add(v);
    }
    assert_eq!(heap.len(), 2000);
    let out = drain(&mut heap);
    let expected: Vec<i64> = (0..2000).collect();
    assert_eq!(out, expected);
}

#[test]
fn interleaved_adds_and_extractions() {
    let mut heap = MaxHeap::new();
    heap.add(50);
    heap.add(20);
    assert_eq!(heap.next(), Some(50));
    heap.add(70);
    heap.add(10);
    heap.add(20);
    assert_eq!(heap.next(), Some(70));
    assert_eq!(heap.next(), Some(20));
    assert_eq!(heap.next(), Some(20));
    heap.add(5);
    assert_eq!(heap.next(), Some(10));
    assert_eq!(heap.next(), Some(5));
    assert_eq!(heap.next(), None);
}

#[test]
fn tuples_order_by_first_then_second() {
    let mut heap = MinHeap::new();
    heap.add((2, 'b'));
    heap.add((1, 'z'));
    heap.add((2, 'a'));
    heap.add((0, 'q'));
    assert_eq!(drain(&mut heap), vec![(0, 'q'), (1, 'z'), (2, 'a'), (2, 'b')]);
}

#[test]
fn natural_orders_compare() {
    assert!(MinOrder.compare(&1, &2));
    assert!(!MinOrder.compare(&2, &2));
    assert!(!MinOrder.compare(&3, &2));
    assert!(MaxOrder.compare(&3, &2));
    assert!(!MaxOrder.compare(&2, &2));
    assert!(!MaxOrder.compare(&1, &2));
}
