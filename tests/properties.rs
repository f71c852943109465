use ring_queue::Queue;

#[test]
fn capacity_bound_with_interleaved_pops() {
    let mut q: Queue<u32, 5> = Queue::new();
    let mut accepted = 0;
    for v in 0..10 {
        if q.push(v) {
            accepted += 1;
        }
    }
    assert_eq!(accepted, 4);
    assert_eq!(q.pop(), Some(0));
    assert_eq!(q.pop(), Some(1));
    assert!(q.push(10));
    assert!(q.push(11));
    assert!(!q.push(12));
}

#[test]
fn fill_then_drain_keeps_order() {
    let mut q: Queue<u64, 8> = Queue::new();
    let vs = [7u64, 3, 9, 1, 1, 42, 5];
    for v in vs {
        assert!(q.push(v));
    }
    assert!(!q.push(99));
    for v in vs {
        assert_eq!(q.pop(), Some(v));
    }
    assert_eq!(q.pop(), None);
}

#[test]
fn drained_queue_stays_empty() {
    let mut q: Queue<i32, 3> = Queue::new();
    assert!(q.push(-1));
    assert_eq!(q.pop(), Some(-1));
    assert_eq!(q.pop(), None);
    assert_eq!(q.pop(), None);
    let mut out = 17;
    assert!(!q.pop_into(&mut out));
    assert_eq!(out, 17);
    assert!(q.push(2));
    assert_eq!(q.pop(), Some(2));
}

#[test]
fn many_wraps_keep_order_and_bound() {
    let mut q: Queue<u32, 4> = Queue::new();
    let mut next_in = 0u32;
    let mut next_out = 0u32;
    for round in 0..50u32 {
        let want = round % 4;
        for _ in 0..want {
            if q.push(next_in) {
                next_in += 1;
            } else {
                assert_eq!(next_in - next_out, 3);
            }
        }
        let drop_count = (round * 7) % 3;
        for _ in 0..drop_count {
            match q.pop() {
                Some(v) => {
                    assert_eq!(v, next_out);
                    next_out += 1;
                }
                None => assert_eq!(next_in, next_out),
            }
        }
        assert!(next_in - next_out <= 3);
    }
    while let Some(v) = q.pop() {
        assert_eq!(v, next_out);
        next_out += 1;
    }
    assert_eq!(next_in, next_out);
    assert!(next_in > 4);
}

#[test]
fn pop_and_pop_into_take_the_same_values() {
    let mut a: Queue<u8, 4> = Queue::new();
    let mut b: Queue<u8, 4> = Queue::new();
    for v in [5u8, 6, 7] {
        assert_eq!(a.push(v), b.push(v));
    }
    for _ in 0..4 {
        let mut out = 200u8;
        let got = b.pop_into(&mut out);
        match a.pop() {
            Some(v) => {
                assert!(got);
                assert_eq!(out, v);
            }
            None => {
                assert!(!got);
                assert_eq!(out, 200);
            }
        }
    }
}

#[test]
fn single_slot_queue_holds_nothing() {
    let mut q: Queue<u32, 1> = Queue::new();
    assert!(!q.push(1));
    assert_eq!(q.pop(), None);
}

#[test]
fn slotless_queue_holds_nothing() {
    let mut q: Queue<u32, 0> = Queue::default();
    assert!(!q.push(1));
    assert_eq!(q.pop(), None);
    let mut out = 3;
    assert!(!q.pop_into(&mut out));
    assert_eq!(out, 3);
}

#[test]
fn pop_into_across_the_wrap() {
    let mut q: Queue<u32, 3> = Queue::new();
    assert!(q.push(1));
    let mut out = 0;
    assert!(q.pop_into(&mut out));
    assert_eq!(out, 1);
    assert!(q.push(2));
    assert!(q.push(3));
    assert!(!q.push(4));
    assert!(q.pop_into(&mut out));
    assert_eq!(out, 2);
    assert!(q.pop_into(&mut out));
    assert_eq!(out, 3);
}
