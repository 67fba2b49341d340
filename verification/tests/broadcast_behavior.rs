use mpmc::broadcast::broadcast_queue;
use mpmc::broadcast::broadcast_queue_with;
use mpmc::errors::{RecvError, TryRecvError, TrySendError};
use mpmc::position::is_power_of_two;
use mpmc::wait::WaitStrategy;

#[test]
fn single_consumer_keeping_pace_sees_exact_sequence() {
    // Uncontended single producer, single broadcast consumer in step.
    let (mut q, s, r) = broadcast_queue::<u64>(4);
    for i in 0..32u64 {
        assert!(s.try_send(&mut q, i).is_ok());
        assert_eq!(r.recv(&mut q), Ok(i));
    }
    assert_eq!(r.try_recv(&mut q), Err(TryRecvError::Empty));
}

#[test]
fn two_producers_one_consumer_no_loss_no_duplicate() {
    let (mut q, s1, r) = broadcast_queue::<u64>(4);
    let s2 = s1.clone(&mut q);
    let mut got: Vec<u64> = Vec::new();
    for i in 0..8u64 {
        let res = if i % 2 == 0 {
            s1.try_send(&mut q, i)
        } else {
            s2.try_send(&mut q, i)
        };
        assert!(res.is_ok());
        got.push(r.recv(&mut q).expect("element was just published"));
    }
    let expect: Vec<u64> = (0..8).collect();
    assert_eq!(got, expect);
}

#[test]
fn two_clones_each_see_the_whole_stream_at_their_own_pace() {
    // Capacity 4, one producer, two broadcast consumers with independent
    // cursors reading at different speeds; sends retry on Full.
    let (mut q, s, r1) = broadcast_queue::<u64>(4);
    let r2 = r1.clone(&mut q);
    let mut got1: Vec<u64> = Vec::new();
    let mut got2: Vec<u64> = Vec::new();
    let mut next: u64 = 0;
    let mut flip = false;
    while got1.len() < 6 || got2.len() < 6 {
        if next <= 5 {
            match s.try_send(&mut q, next) {
                Ok(()) => {
                    next += 1;
                    continue;
                }
                Err(TrySendError::Full(_)) => {}
                Err(TrySendError::Disconnected(_)) => panic!("readers are live"),
            }
        }
        // The fast reader drains eagerly, the slow one takes a single step.
        if flip {
            while got1.len() < 6 {
                match r1.try_recv(&mut q) {
                    Ok(v) => got1.push(v),
                    Err(TryRecvError::Empty) => break,
                    Err(_) => panic!("live reader sees Empty at worst"),
                }
            }
        } else if got2.len() < 6 {
            if let Ok(v) = r2.try_recv(&mut q) {
                got2.push(v);
            }
        }
        flip = !flip;
    }
    let expect: Vec<u64> = (0..=5).collect();
    assert_eq!(got1, expect);
    assert_eq!(got2, expect);
}

#[test]
fn unsubscribing_one_clone_mid_stream_leaves_the_other_exact() {
    let (mut q, s, r1) = broadcast_queue::<u64>(2);
    let r2 = r1.clone(&mut q);
    assert!(s.try_send(&mut q, 0).is_ok());
    assert!(s.try_send(&mut q, 1).is_ok());
    assert_eq!(r1.try_recv(&mut q), Ok(0));
    assert_eq!(r2.try_recv(&mut q), Ok(0));
    // The laggard leaves mid-stream; its owed reads stop holding the ring.
    assert!(r2.unsubscribe(&mut q));
    assert!(s.try_send(&mut q, 2).is_ok());
    assert_eq!(r1.try_recv(&mut q), Ok(1));
    assert_eq!(r1.try_recv(&mut q), Ok(2));
    assert_eq!(r1.try_recv(&mut q), Err(TryRecvError::Empty));
}

#[test]
fn suspended_reader_forces_full_never_a_wrong_value() {
    // A reader suspended while the producer tries to run a whole ring ahead:
    // the reuse guard refuses the overwrite, so on resuming the reader sees exactly
    // what was published, never a stale or clobbered element.
    let (mut q, s, r) = broadcast_queue::<u64>(4);
    for i in 0..4u64 {
        assert!(s.try_send(&mut q, i).is_ok());
    }
    for extra in 0..6u64 {
        match s.try_send(&mut q, 100 + extra) {
            Err(TrySendError::Full(v)) => assert_eq!(v, 100 + extra),
            _ => panic!("the ring is a full lap ahead of the reader"),
        }
    }
    for i in 0..4u64 {
        assert_eq!(r.try_recv(&mut q), Ok(i));
    }
    assert!(s.try_send(&mut q, 100).is_ok());
    assert_eq!(r.try_recv(&mut q), Ok(100));
}

#[test]
fn late_clone_starts_at_the_clone_point() {
    let (mut q, s, r1) = broadcast_queue::<u64>(8);
    assert!(s.try_send(&mut q, 10).is_ok());
    assert!(s.try_send(&mut q, 11).is_ok());
    let r2 = r1.clone(&mut q);
    assert!(s.try_send(&mut q, 12).is_ok());
    // The original sees everything, the clone only what followed it.
    assert_eq!(r1.try_recv(&mut q), Ok(10));
    assert_eq!(r1.try_recv(&mut q), Ok(11));
    assert_eq!(r1.try_recv(&mut q), Ok(12));
    assert_eq!(r2.try_recv(&mut q), Ok(12));
    assert_eq!(r2.try_recv(&mut q), Err(TryRecvError::Empty));
}

#[test]
fn broadcast_disconnect_after_last_reader_leaves() {
    let (mut q, s, r) = broadcast_queue::<u64>(2);
    assert!(r.unsubscribe(&mut q));
    match s.try_send(&mut q, 1) {
        Err(TrySendError::Disconnected(v)) => assert_eq!(v, 1),
        _ => panic!("no reader remains"),
    }
}

#[test]
fn bounded_block_strategy_times_out_with_empty() {
    let (mut q, _s, r) = broadcast_queue_with::<u64>(2, WaitStrategy::Block { retries: 2 });
    assert_eq!(r.recv(&mut q), Err(RecvError::Empty));
}

#[test]
fn capacity_one_broadcast_alternates() {
    let (mut q, s, r) = broadcast_queue::<u64>(1);
    for i in 0..6u64 {
        assert!(s.try_send(&mut q, i).is_ok());
        assert!(matches!(s.try_send(&mut q, 77), Err(TrySendError::Full(77))));
        assert_eq!(r.recv(&mut q), Ok(i));
    }
}

#[test]
fn accepted_capacities_are_the_powers_of_two() {
    assert!(is_power_of_two(1));
    assert!(is_power_of_two(2));
    assert!(is_power_of_two(4));
    assert!(is_power_of_two(1024));
    assert!(!is_power_of_two(0));
    assert!(!is_power_of_two(3));
    assert!(!is_power_of_two(6));
    assert!(!is_power_of_two(1000));
}

#[test]
fn wait_strategies_expose_their_budgets() {
    assert_eq!(WaitStrategy::standard(), WaitStrategy::Spin { retries: 16 });
    assert_eq!(WaitStrategy::Spin { retries: 9 }.budget(), 9);
    assert_eq!(WaitStrategy::Yield { retries: 5 }.budget(), 5);
    assert_eq!(WaitStrategy::Block { retries: 0 }.budget(), 0);
}

#[test]
fn large_ring_roundtrip() {
    let (mut q, s, r) = broadcast_queue::<u64>(1024);
    assert_eq!(q.capacity(), 1024);
    for i in 0..1024u64 {
        assert!(s.try_send(&mut q, i).is_ok());
    }
    assert_eq!(q.stream_len(), 1024);
    assert!(matches!(s.try_send(&mut q, 0), Err(TrySendError::Full(_))));
    for i in 0..1024u64 {
        assert_eq!(r.try_recv(&mut q), Ok(i));
    }
    assert_eq!(q.producer_count(), 1);
}
