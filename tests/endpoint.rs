use quinn::addr::{ensure_ipv6, SocketAddr, SocketAddrV6};
use quinn::endpoint::{
    endpoint_event, recv_buf_len, ConnectError, DatagramAction, DatagramOutcome, Endpoint,
    PassOutcome, SendPoll, SendStep,
    Transmit,
};
use quinn::incoming::IncomingPoll;

fn v4(a: u8, b: u8, c: u8, d: u8, port: u16) -> SocketAddr {
    SocketAddr::V4 { ip: u32::from_be_bytes([a, b, c, d]), port }
}

fn transmit(n: u8) -> Transmit {
    Transmit {
        destination: v4(127, 0, 0, 1, 4433),
        ecn: None,
        contents: vec![n; 4],
        segment_size: None,
        src_ip: None,
    }
}

fn server() -> Endpoint<String> {
    Endpoint::new(false, 32, 500_000, 500_000)
}

fn accept(ep: &mut Endpoint<String>, h: u64) {
    match ep.handle_datagram(DatagramOutcome::NewConnection(h)) {
        DatagramAction::Accepted(None) => {}
        other => panic!("unexpected {:?}", other),
    }
}

fn conn_close(ep: &Endpoint<String>, h: u64) -> Option<(u64, Vec<u8>)> {
    let i = ep.connections.find(h).expect("live connection");
    ep.connections.refs[i].close.as_ref().map(|c| (c.code, c.reason.to_vec()))
}

#[test]
fn s1_echo_round_trip() {
    let mut client: Endpoint<String> = Endpoint::new(false, 32, 500_000, 500_000);
    let mut srv = server();
    client.set_default_client_config("test-cert".to_string());
    let target = client.connect(v4(127, 0, 0, 1, 4433)).unwrap();
    assert_eq!(target, v4(127, 0, 0, 1, 4433));
    assert_eq!(client.finish_connect(Ok(1)), Ok(None));
    accept(&mut srv, 9);
    assert_eq!(srv.next_incoming(), IncomingPoll::Ready(9));
    assert!(!client.close(0, b""));
    assert!(!srv.close(0, b""));
    assert_eq!(conn_close(&client, 1), Some((0, vec![])));
    assert_eq!(conn_close(&srv, 9), Some((0, vec![])));
    assert!(client.retire(&vec![1]));
    assert!(srv.retire(&vec![9]));
    assert!(client.wait_idle());
    assert!(srv.wait_idle());
}

#[test]
fn s2_bogus_datagram_is_discarded() {
    let mut srv = server();
    assert_eq!(srv.handle_datagram(DatagramOutcome::Ignored), DatagramAction::Discarded);
    assert!(srv.incoming.queue.is_empty());
    assert!(srv.wait_idle());
    assert_eq!(srv.next_incoming(), IncomingPoll::Pending);
    assert!(srv.incoming.reader_parked);
    accept(&mut srv, 3);
    let poll = srv.finish_pass(false);
    assert!(poll.wake_incoming);
    assert_eq!(srv.next_incoming(), IncomingPoll::Ready(3));
}

#[test]
fn s3_rebind_pings_every_connection() {
    let mut ep = server();
    accept(&mut ep, 5);
    accept(&mut ep, 2);
    let pinged = ep.rebind(true);
    assert_eq!(pinged, vec![5, 2]);
    assert!(ep.ipv6);
    assert!(ep.connections.find(5).is_some());
    assert!(ep.connections.find(2).is_some());
}

#[test]
fn s4_graceful_close() {
    let mut ep = server();
    for h in 1..=3u64 {
        accept(&mut ep, h);
        assert_eq!(ep.next_incoming(), IncomingPoll::Ready(h));
    }
    assert_eq!(ep.next_incoming(), IncomingPoll::Pending);
    assert!(ep.close(7, b"bye"));
    assert_eq!(ep.next_incoming(), IncomingPoll::Ended);
    for h in 1..=3u64 {
        assert_eq!(conn_close(&ep, h), Some((7, b"bye".to_vec())));
    }
    assert!(!ep.retire(&vec![1, 2]));
    assert!(!ep.wait_idle());
    assert!(ep.retire(&vec![3]));
    assert!(ep.wait_idle());
}

#[test]
fn s5_driver_drop_stops_endpoint() {
    let mut ep = server();
    ep.set_default_client_config("cfg".to_string());
    assert_eq!(ep.next_incoming(), IncomingPoll::Pending);
    assert!(ep.lose_driver());
    assert_eq!(ep.next_incoming(), IncomingPoll::Ended);
    assert_eq!(ep.connect(v4(10, 0, 0, 1, 1)), Err(ConnectError::EndpointStopping));
}

#[test]
fn s6_backpressure_on_send() {
    let n: u8 = 4;
    let mut ep: Endpoint<String> = Endpoint::new(false, 8, 1_000_000, 1_000_000);
    for i in 0..2 * n {
        ep.push_transmit(transmit(i));
    }
    ep.begin_send(0);
    assert_eq!(ep.send_ready(10), SendStep::Send);
    assert_eq!(ep.complete_send(SendPoll::Sent(n as usize), 20), SendStep::Continue);
    let left: Vec<u8> = ep.outgoing.iter().map(|t| t.contents[0]).collect();
    assert_eq!(left, vec![4, 5, 6, 7]);
    assert_eq!(ep.send_ready(30), SendStep::Send);
    assert_eq!(ep.complete_send(SendPoll::Pending, 40), SendStep::Park);
    assert_eq!(ep.outgoing.len(), n as usize);
    ep.begin_send(50);
    assert_eq!(ep.send_ready(60), SendStep::Send);
    assert_eq!(ep.complete_send(SendPoll::Sent(100), 70), SendStep::Continue);
    assert!(ep.outgoing.is_empty());
    assert_eq!(ep.send_ready(80), SendStep::Park);
}

#[test]
fn send_error_fails_and_keeps_queue() {
    let mut ep = server();
    ep.push_transmit(transmit(1));
    assert_eq!(ep.complete_send(SendPoll::Failed, 0), SendStep::Fail);
    assert_eq!(ep.outgoing.len(), 1);
}

#[test]
fn wants_transmit_until_a_batch_is_queued() {
    let mut ep: Endpoint<String> = Endpoint::new(false, 2, 1, 1);
    assert!(ep.wants_transmit());
    ep.push_transmit(transmit(1));
    assert!(ep.wants_transmit());
    ep.push_transmit(transmit(2));
    assert!(!ep.wants_transmit());
}

#[test]
fn connect_without_default_config() {
    let ep = server();
    assert_eq!(ep.connect(v4(1, 2, 3, 4, 5)), Err(ConnectError::NoDefaultClientConfig));
}

#[test]
fn connect_ipv6_target_from_ipv4_socket() {
    let ep = server();
    let target = SocketAddr::V6(SocketAddrV6 { ip: 1, port: 443, flowinfo: 0, scope_id: 0 });
    assert_eq!(ep.connect_with(target), Err(ConnectError::InvalidRemoteAddress(target)));
}

#[test]
fn connect_maps_ipv4_on_ipv6_socket() {
    let ep: Endpoint<String> = Endpoint::new(true, 32, 1, 1);
    let r = ep.connect_with(v4(192, 0, 2, 1, 4433)).unwrap();
    assert_eq!(
        r,
        SocketAddr::V6(SocketAddrV6 {
            ip: 0x0000_0000_0000_0000_0000_ffff_c000_0201,
            port: 4433,
            flowinfo: 0,
            scope_id: 0
        })
    );
}

#[test]
fn connect_error_from_quic_endpoint_passes_through() {
    let mut ep = server();
    assert_eq!(
        ep.finish_connect(Err(ConnectError::TooManyConnections)),
        Err(ConnectError::TooManyConnections)
    );
    assert!(ep.wait_idle());
}

#[test]
fn ensure_ipv6_keeps_v6_and_maps_v4() {
    let a = SocketAddrV6 { ip: 0x2001_0db8 << 96, port: 80, flowinfo: 3, scope_id: 4 };
    assert_eq!(ensure_ipv6(SocketAddr::V6(a)), a);
    let m = ensure_ipv6(v4(127, 0, 0, 1, 8080));
    assert_eq!(m.ip, 0xffff_7f00_0001);
    assert_eq!(m.port, 8080);
}

#[test]
fn event_for_live_and_retired_connection() {
    let mut ep = server();
    accept(&mut ep, 4);
    assert_eq!(ep.handle_datagram(DatagramOutcome::ConnectionEvent(4)), DatagramAction::Delivered(4));
    assert!(ep.retire(&vec![4]));
    assert_eq!(ep.handle_datagram(DatagramOutcome::ConnectionEvent(4)), DatagramAction::Discarded);
}

#[test]
fn close_is_idempotent_and_applies_to_later_connections() {
    let mut ep = server();
    accept(&mut ep, 1);
    ep.close(7, b"bye");
    ep.close(9, b"again");
    assert_eq!(conn_close(&ep, 1), Some((7, b"bye".to_vec())));
    match ep.handle_datagram(DatagramOutcome::NewConnection(2)) {
        DatagramAction::Accepted(Some(c)) => {
            assert_eq!(c.code, 7);
            assert_eq!(&c.reason[..], b"bye");
        }
        other => panic!("unexpected {:?}", other),
    }
    assert_eq!(conn_close(&ep, 2), Some((7, b"bye".to_vec())));
}

#[test]
fn timers_fire_at_deadline() {
    let mut ep = server();
    accept(&mut ep, 1);
    accept(&mut ep, 2);
    assert!(ep.update_timer(1, Some(100)));
    assert!(!ep.update_timer(1, Some(100)));
    assert!(ep.update_timer(2, Some(300)));
    assert!(!ep.update_timer(2, None));
    assert_eq!(ep.next_deadline(), Some(100));
    assert!(ep.expire_timers(99).is_empty());
    assert_eq!(ep.expire_timers(100), vec![1]);
    assert!(ep.expire_timers(200).is_empty());
    assert_eq!(ep.next_deadline(), Some(300));
    assert_eq!(ep.expire_timers(300), vec![2]);
    assert_eq!(ep.next_deadline(), None);
    assert!(!ep.update_timer(77, Some(5)));
}

#[test]
fn dirty_signal_is_sent_once_until_taken() {
    let mut ep = server();
    accept(&mut ep, 1);
    accept(&mut ep, 2);
    assert!(ep.mark_dirty(2));
    assert!(!ep.mark_dirty(2));
    assert!(ep.mark_dirty(1));
    assert!(!ep.mark_dirty(42));
    assert_eq!(ep.take_dirty(), vec![2, 1]);
    assert!(ep.take_dirty().is_empty());
    assert!(ep.begin_dirty(2));
    assert!(ep.mark_dirty(2));
    assert!(!ep.begin_dirty(42));
}

#[test]
fn driver_finishes_when_no_handles_and_no_connections() {
    let mut ep = server();
    ep.add_ref();
    assert!(ep.register_driver());
    assert!(!ep.register_driver());
    assert_eq!(ep.finish_pass(true).outcome, PassOutcome::Yield);
    assert_eq!(ep.finish_pass(false).outcome, PassOutcome::Suspend);
    assert!(ep.drop_ref());
    assert!(!ep.drop_ref());
    assert_eq!(ep.ref_count, 0);
    accept(&mut ep, 1);
    assert_eq!(ep.finish_pass(false).outcome, PassOutcome::Suspend);
    ep.retire(&vec![1]);
    assert_eq!(ep.finish_pass(true).outcome, PassOutcome::Finished);
}

#[test]
fn dropped_accept_stream_forgets_reader() {
    let mut ep = server();
    assert_eq!(ep.next_incoming(), IncomingPoll::Pending);
    ep.drop_incoming();
    assert!(!ep.incoming.reader_parked);
    accept(&mut ep, 1);
    assert!(!ep.finish_pass(false).wake_incoming);
}

#[test]
fn wait_idle_on_empty_endpoint_does_not_wait() {
    let ep = server();
    assert!(ep.wait_idle());
}

#[test]
fn receive_buffer_size() {
    assert_eq!(recv_buf_len(1452, 1, 32), Some(1452 * 32));
    assert_eq!(recv_buf_len(100_000, 2, 32), Some(65536 * 2 * 32));
    assert_eq!(recv_buf_len(65536, 64, 1), Some(65536 * 64));
    assert_eq!(recv_buf_len(1200, 0, 32), Some(0));
    assert_eq!(recv_buf_len(u64::MAX, usize::MAX, 2), None);
    assert_eq!(recv_buf_len(1200, usize::MAX / 1000, 1000), None);
}

#[test]
fn retire_keeps_other_records_in_order() {
    let mut ep = server();
    for h in [4u64, 9, 2, 7] {
        accept(&mut ep, h);
    }
    assert!(ep.update_timer(2, Some(50)));
    assert!(ep.mark_dirty(7));
    assert!(!ep.retire(&vec![9, 4, 100]));
    let left: Vec<u64> = ep.connections.refs.iter().map(|c| c.handle).collect();
    assert_eq!(left, vec![2, 7]);
    assert_eq!(ep.connections.refs[0].timer_deadline, Some(50));
    assert!(ep.connections.refs[1].is_dirty);
}

#[test]
fn endpoint_events_collect_drained_and_replies() {
    let mut drained = Vec::new();
    assert!(!endpoint_event(&mut drained, 3, false, false, false));
    assert!(endpoint_event(&mut drained, 3, false, true, false));
    assert!(endpoint_event(&mut drained, 3, true, false, true));
    assert_eq!(drained, vec![3]);
}

#[test]
fn new_endpoint_keeps_no_client_config_after_handles() {
    let mut ep = server();
    ep.add_ref();
    ep.add_ref();
    assert_eq!(ep.ref_count, 2);
    assert!(ep.default_client_config.is_none());
    assert_eq!(ep.connect(v4(1, 1, 1, 1, 1)), Err(ConnectError::NoDefaultClientConfig));
}
