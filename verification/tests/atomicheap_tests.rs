use myco_kv::atomicheap::{AtomicHeap, HeapData, Ranked};
use myco_kv::operation::expiration::Expiration;

#[test]
fn invalidates_older_keys() {
    let mut heap = AtomicHeap::new();
    heap.push("a".to_string(), 1);
    heap.push("b".to_string(), 2);
    heap.push("a".to_string(), 3);
    heap.push("b".to_string(), 4);
    heap.push("c".to_string(), 5);

    assert_eq!(heap.peek(), Some(5));
    assert_eq!(heap.pop(), Some(5));
    assert_eq!(heap.peek(), Some(4));
    assert_eq!(heap.pop(), Some(4));
    assert_eq!(heap.peek(), Some(3));
    assert_eq!(heap.pop(), Some(3));
    assert_eq!(heap.peek(), None);
    assert_eq!(heap.pop(), None);
}

#[test]
fn earliest_expiration_surfaces_first() {
    let mut heap = AtomicHeap::new();
    heap.push("late".to_string(), Expiration::new("late".to_string(), 300));
    heap.push("early".to_string(), Expiration::new("early".to_string(), 100));
    heap.push("mid".to_string(), Expiration::new("mid".to_string(), 200));
    assert_eq!(heap.pop(), Some(Expiration::new("early".to_string(), 100)));
    assert_eq!(heap.pop(), Some(Expiration::new("mid".to_string(), 200)));
    assert_eq!(heap.pop(), Some(Expiration::new("late".to_string(), 300)));
    assert_eq!(heap.pop(), None);
}

#[test]
fn invalidate_and_clear() {
    let mut heap: AtomicHeap<i64> = AtomicHeap::new();
    heap.push("a".to_string(), 10);
    heap.push("b".to_string(), 20);
    heap.push("c".to_string(), 15);
    heap.invalidate("b");
    heap.invalidate("nothing");
    assert_eq!(heap.peek(), Some(15));
    heap.push("b".to_string(), 1);
    assert_eq!(heap.pop(), Some(15));
    assert_eq!(heap.pop(), Some(10));
    assert_eq!(heap.pop(), Some(1));
    assert_eq!(heap.pop(), None);
    heap.push("a".to_string(), 10);
    heap.clear();
    assert_eq!(heap.peek(), None);
    heap.push("a".to_string(), 11);
    assert_eq!(heap.pop(), Some(11));
}

#[test]
fn a_popped_key_can_be_pushed_again() {
    let mut heap: AtomicHeap<i64> = AtomicHeap::new();
    heap.push("a".to_string(), 1);
    heap.push("b".to_string(), 2);
    assert_eq!(heap.pop(), Some(2));
    heap.push("b".to_string(), 0);
    heap.push("a".to_string(), 5);
    assert_eq!(heap.pop(), Some(5));
    assert_eq!(heap.pop(), Some(0));
    assert_eq!(heap.pop(), None);
}

#[test]
fn ranks_compare_as_documented() {
    assert!(2i32.outranks(&1));
    assert!(!1i64.outranks(&1));
    let early = Expiration::new("a".to_string(), 1);
    let late = Expiration::new("b".to_string(), 2);
    assert!(early.outranks(&late));
    assert!(!late.outranks(&early));
    assert_eq!(late.duplicate(), late);
    assert_eq!(early.clone(), early);
    let entry: HeapData<i32> = HeapData::new("k".to_string(), 7);
    let _ = entry;
}

#[test]
fn many_entries_come_out_in_order() {
    let mut heap: AtomicHeap<i64> = AtomicHeap::new();
    let mut expected: Vec<i64> = Vec::new();
    let mut seed: i64 = 12345;
    for i in 0..500 {
        seed = (seed * 1103515245 + 12345) % 2147483648;
        let key = format!("k{}", seed % 200);
        let rank = seed % 1000;
        heap.push(key.clone(), rank);
        let _ = i;
    }
    // what is live: the last rank pushed under each key
    let mut seed: i64 = 12345;
    let mut live: Vec<(String, i64)> = Vec::new();
    for _ in 0..500 {
        seed = (seed * 1103515245 + 12345) % 2147483648;
        let key = format!("k{}", seed % 200);
        let rank = seed % 1000;
        live.retain(|(k, _)| k != &key);
        live.push((key, rank));
    }
    for (_, rank) in live {
        expected.push(rank);
    }
    expected.sort();
    expected.reverse();
    let mut seen: Vec<i64> = Vec::new();
    loop {
        let top = heap.peek();
        let popped = heap.pop();
        assert_eq!(top, popped);
        match popped {
            Some(rank) => seen.push(rank),
            None => break,
        }
    }
    assert_eq!(seen, expected);
}

#[test]
fn invalidated_entries_never_surface() {
    let mut heap: AtomicHeap<i64> = AtomicHeap::new();
    for i in 0..50 {
        heap.push(format!("k{}", i), i);
    }
    for i in 0..50 {
        if i % 2 == 1 {
            heap.invalidate(&format!("k{}", i));
        }
    }
    let mut seen: Vec<i64> = Vec::new();
    loop {
        match heap.pop() {
            Some(rank) => seen.push(rank),
            None => break,
        }
    }
    let expected: Vec<i64> = (0..50).rev().filter(|i| i % 2 == 0).collect();
    assert_eq!(seen, expected);
}
