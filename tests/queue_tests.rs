use workpool::{PoolClosed, Queue, ThreadExit};

#[test]
fn push_then_pop_returns_item() {
    let mut q: Queue<i32> = Queue::new();
    assert!(q.is_empty());
    assert_eq!(q.push(5), Ok(()));
    assert_eq!(q.len(), 1);
    assert_eq!(q.pop(), Some(5));
    // A second pop finds nothing: the caller has to wait for another push.
    assert_eq!(q.pop(), None);
    assert_eq!(q.push(6), Ok(()));
    assert_eq!(q.pop(), Some(6));
}

#[test]
fn pops_follow_push_order() {
    let mut q: Queue<u32> = Queue::new();
    for i in 0..10u32 {
        assert_eq!(q.push(i), Ok(()));
    }
    for i in 0..10u32 {
        assert_eq!(q.pop(), Some(i));
    }
    assert_eq!(q.pop(), None);
}

#[test]
fn interleaved_operations_lose_and_duplicate_nothing() {
    let mut q: Queue<u64> = Queue::new();
    let mut popped: Vec<u64> = Vec::new();
    let mut next: u64 = 0;
    for round in 0..5000u64 {
        let pushes = round % 3 + 1;
        for _ in 0..pushes {
            assert_eq!(q.push(next), Ok(()));
            next += 1;
        }
        let pops = (round * 7) % 4;
        for _ in 0..pops {
            if let Some(x) = q.pop() {
                popped.push(x);
            }
        }
    }
    while let Some(x) = q.pop() {
        popped.push(x);
    }
    assert_eq!(popped.len() as u64, next);
    for (i, x) in popped.iter().enumerate() {
        assert_eq!(*x, i as u64);
    }
}

#[test]
fn closed_queue_refuses_push() {
    let mut q: Queue<&str> = Queue::new();
    assert!(!q.closed());
    assert_eq!(q.close(true), 0);
    assert!(q.closed());
    assert_eq!(q.push("late"), Err(PoolClosed { item: "late" }));
    assert!(q.is_empty());
}

#[test]
fn close_with_drain_keeps_pending_items() {
    let mut q: Queue<i32> = Queue::new();
    q.push(1).unwrap();
    q.push(2).unwrap();
    assert_eq!(q.close(true), 0);
    assert_eq!(q.pop_for_worker(), Ok(Some(1)));
    assert_eq!(q.pop_for_worker(), Ok(Some(2)));
    assert_eq!(q.pop_for_worker(), Err(ThreadExit {}));
}

#[test]
fn close_without_drain_drops_pending_items() {
    let mut q: Queue<i32> = Queue::new();
    q.push(1).unwrap();
    q.push(2).unwrap();
    q.push(3).unwrap();
    assert_eq!(q.close(false), 3);
    assert!(q.is_empty());
    assert_eq!(q.pop_for_worker(), Err(ThreadExit {}));
    // Closing again is harmless.
    assert_eq!(q.close(false), 0);
    assert!(q.closed());
}

#[test]
fn open_empty_queue_tells_worker_to_wait() {
    let mut q: Queue<i32> = Queue::new();
    assert_eq!(q.pop_for_worker(), Ok(None));
    q.push(9).unwrap();
    assert_eq!(q.pop_for_worker(), Ok(Some(9)));
    assert_eq!(q.pop_for_worker(), Ok(None));
}

#[test]
fn thread_exit_description() {
    assert_eq!(ThreadExit {}.description(), "ThreadExit");
}
