use quinn::limiter::WorkLimiter;
use quinn::recv::{recv_step, split_datagram, RecvPoll, RecvStep};

#[test]
fn gro_segments_with_short_tail() {
    let data: Vec<u8> = (0..25u8).collect();
    let segs = split_datagram(&data, 10);
    let got: Vec<Vec<u8>> = segs.iter().map(|b| b[..].to_vec()).collect();
    assert_eq!(got, vec![data[0..10].to_vec(), data[10..20].to_vec(), data[20..25].to_vec()]);
}

#[test]
fn gro_exact_and_short_datagrams() {
    let data = vec![7u8; 1200];
    let segs = split_datagram(&data, 1200);
    assert_eq!(segs.len(), 1);
    assert_eq!(&segs[0][..], &data[..]);
    let small = split_datagram(&[1, 2, 3], 1200);
    assert_eq!(small.len(), 1);
    assert_eq!(&small[0][..], &[1, 2, 3]);
    assert!(split_datagram(&[], 1200).is_empty());
}

#[test]
fn limiter_measures_then_counts() {
    let mut l = WorkLimiter::new(1000);
    l.start_cycle(5000);
    assert!(l.measuring);
    assert!(l.allow_work(5999));
    l.record_work(10);
    assert!(!l.allow_work(6000));
    l.finish_cycle(6000);
    assert!(!l.measuring);
    assert_eq!(l.nanos_per_item, 100);
    assert_eq!(l.allowed, 10);
    l.start_cycle(7000);
    assert!(!l.measuring);
    l.record_work(9);
    assert!(l.allow_work(u64::MAX));
    l.record_work(1);
    assert!(!l.allow_work(0));
}

#[test]
fn limiter_smooths_second_sample() {
    let mut l = WorkLimiter::new(1000);
    l.start_cycle(0);
    l.record_work(10);
    l.finish_cycle(1000);
    assert_eq!(l.nanos_per_item, 100);
    for i in 0..255u64 {
        l.start_cycle(i);
        l.finish_cycle(i);
    }
    l.start_cycle(10_000);
    assert!(l.measuring);
    l.record_work(1);
    l.finish_cycle(10_900);
    assert_eq!(l.nanos_per_item, (7 * 100 + 900) / 8);
    assert_eq!(l.allowed, 1000 / 200);
}

#[test]
fn limiter_allowance_is_at_least_one() {
    let mut l = WorkLimiter::new(10);
    l.start_cycle(0);
    l.record_work(1);
    l.finish_cycle(1_000_000);
    assert_eq!(l.allowed, 1);
    l.record_work(u64::MAX);
    assert_eq!(l.completed, u64::MAX);
}

#[test]
fn recv_steps() {
    let mut l = WorkLimiter::new(1000);
    l.start_cycle(0);
    assert_eq!(recv_step(&mut l, RecvPoll::ConnectionReset, 10), RecvStep::Continue);
    assert_eq!(recv_step(&mut l, RecvPoll::Received(3), 10), RecvStep::Continue);
    assert_eq!(l.completed, 3);
    assert_eq!(recv_step(&mut l, RecvPoll::Received(2), 2000), RecvStep::Yield);
    assert!(!l.measuring);
    assert_eq!(recv_step(&mut l, RecvPoll::Failed, 0), RecvStep::Fail);
    assert_eq!(recv_step(&mut l, RecvPoll::Pending, 0), RecvStep::Park);
}
