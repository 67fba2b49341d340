use mpmc::errors::{RecvError, TryRecvError, TrySendError};
use mpmc::mpmc::mpmc_queue;
use mpmc::mpmc::mpmc_queue_with;
use mpmc::wait::WaitStrategy;

#[test]
fn send_then_receive_roundtrip() {
    let (mut q, s, r) = mpmc_queue::<u64>(8);
    assert!(s.try_send(&mut q, 41).is_ok());
    assert!(s.try_send(&mut q, 42).is_ok());
    assert_eq!(r.try_recv(&mut q), Ok(41));
    assert_eq!(r.try_recv(&mut q), Ok(42));
    assert_eq!(r.try_recv(&mut q), Err(TryRecvError::Empty));
}

#[test]
fn empty_queue_reports_empty_not_disconnected() {
    let (mut q, _s, r) = mpmc_queue::<u64>(4);
    assert_eq!(r.try_recv(&mut q), Err(TryRecvError::Empty));
}

#[test]
fn send_after_last_reader_gone_is_disconnected() {
    let (mut q, s, r) = mpmc_queue::<u64>(4);
    assert!(r.unsubscribe(&mut q));
    match s.try_send(&mut q, 7) {
        Err(TrySendError::Disconnected(v)) => assert_eq!(v, 7),
        _ => panic!("send into a readerless queue must disconnect"),
    }
}

#[test]
fn disconnect_wins_over_full_once_readers_are_gone() {
    // Even a full ring reports Disconnected, not Full, without readers.
    let (mut q, s, r) = mpmc_queue::<u64>(1);
    assert!(s.try_send(&mut q, 1).is_ok());
    match s.try_send(&mut q, 2) {
        Err(TrySendError::Full(v)) => assert_eq!(v, 2),
        _ => panic!("second send into a full ring must report Full"),
    }
    assert!(r.unsubscribe(&mut q));
    match s.try_send(&mut q, 3) {
        Err(TrySendError::Disconnected(v)) => assert_eq!(v, 3),
        _ => panic!("a readerless queue must report Disconnected"),
    }
}

#[test]
fn drain_after_senders_gone_then_disconnected() {
    let (mut q, s, r) = mpmc_queue::<u64>(4);
    assert!(s.try_send(&mut q, 10).is_ok());
    assert!(s.try_send(&mut q, 11).is_ok());
    s.unsubscribe(&mut q);
    // Buffered elements still drain after the writers vanish.
    assert_eq!(r.try_recv(&mut q), Ok(10));
    assert_eq!(r.recv(&mut q), Ok(11));
    assert_eq!(r.try_recv(&mut q), Err(TryRecvError::Disconnected));
    assert_eq!(r.recv(&mut q), Err(RecvError::Disconnected));
}

#[test]
fn blocking_recv_gives_up_with_empty_after_budget() {
    let (mut q, _s, r) = mpmc_queue_with::<u64>(4, WaitStrategy::Block { retries: 3 });
    assert_eq!(r.recv(&mut q), Err(RecvError::Empty));
}

#[test]
fn capacity_one_send_recv_cycles_never_stall() {
    let (mut q, s, r) = mpmc_queue::<u64>(1);
    for i in 0..10u64 {
        assert!(s.try_send(&mut q, i).is_ok());
        // The single slot is occupied: a second send must wait for the read.
        match s.try_send(&mut q, 999) {
            Err(TrySendError::Full(v)) => assert_eq!(v, 999),
            _ => panic!("second send before the receive must be Full"),
        }
        assert_eq!(r.try_recv(&mut q), Ok(i));
    }
    assert_eq!(r.try_recv(&mut q), Err(TryRecvError::Empty));
}

#[test]
fn work_sharing_partitions_ten_elements_across_three_readers() {
    // Capacity 4, one producer, one work-sharing group of 3 consumers.
    let (mut q, s, r1) = mpmc_queue::<u64>(4);
    let r2 = r1.clone(&mut q);
    let r3 = r1.clone(&mut q);
    let mut got: [Vec<u64>; 3] = [Vec::new(), Vec::new(), Vec::new()];
    let mut next: u64 = 0;
    let mut turn: usize = 0;
    let mut received: usize = 0;
    while received < 10 {
        if next < 10 {
            match s.try_send(&mut q, next) {
                Ok(()) => {
                    next += 1;
                    continue;
                }
                Err(TrySendError::Full(_)) => {}
                Err(TrySendError::Disconnected(_)) => panic!("readers are live"),
            }
        }
        let res = match turn % 3 {
            0 => r1.try_recv(&mut q),
            1 => r2.try_recv(&mut q),
            _ => r3.try_recv(&mut q),
        };
        if let Ok(v) = res {
            got[turn % 3].push(v);
            received += 1;
        }
        turn += 1;
    }
    // No overlaps, no gaps: merging by value recovers exactly 0..=9, and each
    // reader's own receipts are in publish order.
    for seq in got.iter() {
        for w in seq.windows(2) {
            assert!(w[0] < w[1]);
        }
    }
    let mut merged: Vec<u64> = got.iter().flatten().copied().collect();
    merged.sort();
    let expect: Vec<u64> = (0..10).collect();
    assert_eq!(merged, expect);
}

#[test]
fn cloned_sender_counts_and_unsubscribes() {
    let (mut q, s, r) = mpmc_queue::<u64>(4);
    let s2 = s.clone(&mut q);
    assert!(s.try_send(&mut q, 1).is_ok());
    assert!(s2.try_send(&mut q, 2).is_ok());
    s.unsubscribe(&mut q);
    // One producer is still live: draining gives Empty, not Disconnected.
    assert_eq!(r.try_recv(&mut q), Ok(1));
    assert_eq!(r.try_recv(&mut q), Ok(2));
    assert_eq!(r.try_recv(&mut q), Err(TryRecvError::Empty));
    s2.unsubscribe(&mut q);
    assert_eq!(r.try_recv(&mut q), Err(TryRecvError::Disconnected));
}

#[test]
fn into_single_requires_a_lone_member() {
    let (mut q, s, r) = mpmc_queue::<u64>(8);
    let r2 = r.clone(&mut q);
    let r = match r.into_single(&q) {
        Ok(_) => panic!("two members cannot become a single receiver"),
        Err(r) => r,
    };
    assert!(!r2.unsubscribe(&mut q));
    let single = match r.into_single(&q) {
        Ok(u) => u,
        Err(_) => panic!("a lone member becomes the single receiver"),
    };
    assert!(s.try_send(&mut q, 21).is_ok());
    let doubled = match single.try_recv_view(&mut q, |x: &u64| 2 * *x) {
        Ok(v) => v,
        Err(_) => panic!("queue holds an element"),
    };
    assert_eq!(doubled, 42);
}

#[test]
fn uni_receiver_views_and_drains_in_order() {
    let (mut q, s, r) = mpmc_queue::<u64>(4);
    let single = r.into_single(&q).ok().expect("lone member");
    assert!(s.try_send(&mut q, 5).is_ok());
    assert!(s.try_send(&mut q, 6).is_ok());
    assert_eq!(single.try_recv(&mut q), Ok(5));
    let seen = match single.recv_view(&mut q, |x: &u64| *x + 100) {
        Ok(v) => v,
        Err(_) => panic!("queue holds an element"),
    };
    assert_eq!(seen, 106);
    match single.try_recv_view(&mut q, |x: &u64| *x) {
        Err((_, TryRecvError::Empty)) => {}
        _ => panic!("drained queue with live senders views Empty"),
    }
    s.unsubscribe(&mut q);
    match single.try_recv_view(&mut q, |x: &u64| *x) {
        Err((_, TryRecvError::Disconnected)) => {}
        _ => panic!("drained queue without senders views Disconnected"),
    }
    assert!(single.unsubscribe(&mut q));
}

#[test]
fn iterator_drains_until_disconnect() {
    let (mut q, s, r) = mpmc_queue::<u64>(8);
    for i in 1..=3u64 {
        assert!(s.try_send(&mut q, i).is_ok());
    }
    s.unsubscribe(&mut q);
    let mut it = r.into_iter();
    assert_eq!(it.next(&mut q), Some(1));
    assert_eq!(it.next(&mut q), Some(2));
    assert_eq!(it.next(&mut q), Some(3));
    assert_eq!(it.next(&mut q), None);
}

#[test]
fn uni_receiver_blocking_recv_returns_published_value() {
    let (mut q, s, r) = mpmc_queue::<u64>(2);
    let single = r.into_single(&q).ok().expect("lone member");
    assert!(s.try_send(&mut q, 3).is_ok());
    assert_eq!(single.recv(&mut q), Ok(3));
    assert_eq!(single.recv(&mut q), Err(RecvError::Empty));
}

#[test]
fn iterator_gives_up_on_an_open_but_empty_stream() {
    // Producers are still live, so the drain ends on the wait budget, not on
    // a disconnect.
    let (mut q, s, r) = mpmc_queue::<u64>(4);
    assert!(s.try_send(&mut q, 9).is_ok());
    let mut it = r.into_iter();
    assert_eq!(it.next(&mut q), Some(9));
    assert_eq!(it.next(&mut q), None);
}

#[test]
fn try_send_error_hands_the_value_back() {
    let (mut q, s, _r) = mpmc_queue::<u64>(1);
    assert!(s.try_send(&mut q, 8).is_ok());
    let e = s.try_send(&mut q, 9).unwrap_err();
    assert_eq!(e.into_inner(), 9);
}
