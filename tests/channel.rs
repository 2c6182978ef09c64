use net_channel::{Action, Dispatcher, FrameError, Network, Phase, RequestId};

fn ping_payload() -> Vec<u8> {
    vec![4, 0, b'p', b'i', b'n', b'g']
}

#[test]
fn equal_requests_share_an_identifier() {
    let mut net: Network<String, u32> = Network::new();
    let a = net.send("ping".to_string());
    let b = net.send("ping".to_string());
    assert_eq!(a, b);
    assert_eq!(net.pending_count(), 1);
}

#[test]
fn distinct_requests_get_distinct_identifiers() {
    let mut net: Network<String, u32> = Network::new();
    let a = net.send("ping".to_string());
    let b = net.send("pong".to_string());
    assert_ne!(a, b);
    assert_eq!(net.pending_count(), 2);
    assert_eq!(net.pending_request(a), Some(&"ping".to_string()));
    assert_eq!(net.pending_request(b), Some(&"pong".to_string()));
}

#[test]
fn fresh_identifiers_are_version_four() {
    let mut net: Network<u32, u32> = Network::new();
    let a = net.send(1);
    let b = net.send(2);
    assert_eq!((a.0 >> 76) & 0xf, 4);
    assert_eq!((a.0 >> 62) & 0x3, 2);
    assert_eq!((b.0 >> 76) & 0xf, 4);
    assert_ne!(a, b);
}

#[test]
fn send_with_uses_a_free_candidate() {
    let mut net: Network<u32, u32> = Network::new();
    assert_eq!(net.send_with(10, RequestId(7)), RequestId(7));
    assert_eq!(net.pending_id(0), RequestId(7));
}

#[test]
fn send_with_probes_past_a_taken_candidate() {
    let mut net: Network<u32, u32> = Network::new();
    assert_eq!(net.send_with(10, RequestId(7)), RequestId(7));
    assert_eq!(net.send_with(11, RequestId(8)), RequestId(8));
    assert_eq!(net.send_with(12, RequestId(7)), RequestId(9));
    assert_eq!(net.send_with(11, RequestId(100)), RequestId(8));
    assert_eq!(net.pending_count(), 3);
}

#[test]
fn send_with_near_the_top_of_the_range() {
    let mut net: Network<u32, u32> = Network::new();
    assert_eq!(net.send_with(1, RequestId(u128::MAX)), RequestId(u128::MAX));
    assert_eq!(net.send_with(2, RequestId(u128::MAX)), RequestId(u128::MAX - 1));
}

#[test]
fn read_of_unknown_or_pending_is_none() {
    let mut net: Network<u32, u32> = Network::new();
    let id = net.send_with(5, RequestId(1));
    assert_eq!(net.read(id), None);
    assert_eq!(net.read(RequestId(2)), None);
}

#[test]
fn resolve_retires_the_request() {
    let mut net: Network<u32, u32> = Network::new();
    let id = net.send_with(5, RequestId(1));
    assert!(net.resolve(id, 50));
    assert_eq!(net.read(id), Some(&50));
    assert_eq!(net.pending_count(), 0);
    assert_eq!(net.pending_request(id), None);
}

#[test]
fn second_resolve_is_refused() {
    let mut net: Network<u32, u32> = Network::new();
    let id = net.send_with(5, RequestId(1));
    assert!(net.resolve(id, 50));
    assert!(!net.resolve(id, 60));
    assert_eq!(net.read(id), Some(&50));
}

#[test]
fn resolve_of_unknown_is_refused() {
    let mut net: Network<u32, u32> = Network::new();
    assert!(!net.resolve(RequestId(3), 60));
    assert_eq!(net.read(RequestId(3)), None);
}

#[test]
fn resolved_request_can_be_sent_again() {
    let mut net: Network<u32, u32> = Network::new();
    let id = net.send_with(5, RequestId(1));
    assert!(net.resolve(id, 50));
    let again = net.send_with(5, RequestId(1));
    assert_eq!(again, RequestId(2));
    assert_eq!(net.pending_count(), 1);
}

#[test]
fn cycle_with_nothing_pending_is_done_at_once() {
    let net: Network<String, u32> = Network::new();
    let mut d = Dispatcher::new();
    assert_eq!(d.begin(&net), Action::Done);
    assert_eq!(d.phase(), Phase::Idle);
    assert!(!d.is_connected());
}

#[test]
fn ping_cycle_resolves_response() {
    let mut net: Network<String, u32> = Network::new();
    let id = net.send("ping".to_string());
    let mut d = Dispatcher::new();
    assert_eq!(d.begin(&net), Action::Connect);
    assert_eq!(d.phase(), Phase::Connecting);
    assert_eq!(d.on_connect(true), Action::Send(id));
    assert!(d.is_sent(id));
    let frame = net_channel::protocol::frame_request(&ping_payload()).unwrap();
    assert_eq!(&frame[..6], &[0, 0, 6, 0, 0, 0]);
    assert_eq!(d.on_written(), Action::ReadHeader);
    assert_eq!(d.on_header(&[0, 1, 4, 0, 0, 0]), Action::ReadPayload(4));
    assert_eq!(d.phase(), Phase::Reconciling);
    assert_eq!(d.on_response(&mut net, 4, Some(42)), Action::Done);
    assert_eq!(d.phase(), Phase::Idle);
    assert_eq!(net.read(id), Some(&42));
    assert_eq!(net.pending_count(), 0);
    assert!(d.is_connected());
}

#[test]
fn failed_connect_leaves_requests_pending_and_unsent() {
    let mut net: Network<String, u32> = Network::new();
    let a = net.send("ping".to_string());
    let b = net.send("pong".to_string());
    assert_ne!(a, b);
    let mut d = Dispatcher::new();
    assert_eq!(d.begin(&net), Action::Connect);
    assert_eq!(d.on_connect(false), Action::Abort(FrameError::ConnectionError));
    assert_eq!(d.phase(), Phase::Failed);
    assert_eq!(net.pending_count(), 2);
    assert!(!d.is_sent(a));
    assert!(!d.is_sent(b));
    assert_eq!(d.begin(&net), Action::Connect);
}

#[test]
fn replies_pair_with_requests_in_send_order() {
    let mut net: Network<u32, u32> = Network::new();
    let a = net.send_with(1, RequestId(300));
    let b = net.send_with(2, RequestId(100));
    let c = net.send_with(3, RequestId(200));
    let mut d = Dispatcher::new();
    assert_eq!(d.begin(&net), Action::Connect);
    assert_eq!(d.on_connect(true), Action::Send(a));
    assert_eq!(d.on_written(), Action::ReadHeader);
    assert_eq!(d.on_header(&[0, 1, 4, 0, 0, 0]), Action::ReadPayload(4));
    assert_eq!(d.on_response(&mut net, 4, Some(30)), Action::Send(b));
    assert_eq!(d.on_written(), Action::ReadHeader);
    assert_eq!(d.on_header(&[0, 1, 4, 0, 0, 0]), Action::ReadPayload(4));
    assert_eq!(d.on_response(&mut net, 4, Some(10)), Action::Send(c));
    assert_eq!(d.on_written(), Action::ReadHeader);
    assert_eq!(d.on_header(&[0, 1, 4, 0, 0, 0]), Action::ReadPayload(4));
    assert_eq!(d.on_response(&mut net, 4, Some(20)), Action::Done);
    assert_eq!(net.read(a), Some(&30));
    assert_eq!(net.read(b), Some(&10));
    assert_eq!(net.read(c), Some(&20));
}

#[test]
fn live_connection_is_reused() {
    let mut net: Network<u32, u32> = Network::new();
    let a = net.send_with(1, RequestId(1));
    let mut d = Dispatcher::new();
    assert_eq!(d.begin(&net), Action::Connect);
    assert_eq!(d.on_connect(true), Action::Send(a));
    assert_eq!(d.on_written(), Action::ReadHeader);
    assert_eq!(d.on_header(&[0, 1, 0, 0, 0, 0]), Action::ReadPayload(0));
    assert_eq!(d.on_response(&mut net, 0, Some(9)), Action::Done);
    let b = net.send_with(2, RequestId(2));
    assert_eq!(d.begin(&net), Action::Send(b));
}

#[test]
fn malformed_reply_header_fails_the_cycle() {
    let mut net: Network<u32, u32> = Network::new();
    let a = net.send_with(1, RequestId(1));
    let mut d = Dispatcher::new();
    d.begin(&net);
    d.on_connect(true);
    d.on_written();
    assert_eq!(d.on_header(&[0, 1, 4]), Action::Abort(FrameError::MalformedHeader));
    assert_eq!(d.phase(), Phase::Failed);
    assert!(!d.is_connected());
    assert!(!d.is_sent(a));
    assert_eq!(net.pending_count(), 1);
}

#[test]
fn request_kind_reply_is_a_violation() {
    let mut net: Network<u32, u32> = Network::new();
    net.send_with(1, RequestId(1));
    let mut d = Dispatcher::new();
    d.begin(&net);
    d.on_connect(true);
    d.on_written();
    assert_eq!(d.on_header(&[0, 0, 4, 0, 0, 0]), Action::Abort(FrameError::ProtocolViolation));
}

#[test]
fn short_payload_is_a_violation() {
    let mut net: Network<u32, u32> = Network::new();
    let a = net.send_with(1, RequestId(1));
    let mut d = Dispatcher::new();
    d.begin(&net);
    d.on_connect(true);
    d.on_written();
    d.on_header(&[0, 1, 4, 0, 0, 0]);
    assert_eq!(d.on_response(&mut net, 3, Some(5)), Action::Abort(FrameError::ProtocolViolation));
    assert_eq!(net.read(a), None);
    assert_eq!(net.pending_count(), 1);
}

#[test]
fn undecodable_payload_is_malformed() {
    let mut net: Network<u32, u32> = Network::new();
    let a = net.send_with(1, RequestId(1));
    let mut d = Dispatcher::new();
    d.begin(&net);
    d.on_connect(true);
    d.on_written();
    d.on_header(&[0, 1, 4, 0, 0, 0]);
    assert_eq!(d.on_response(&mut net, 4, None), Action::Abort(FrameError::MalformedPayload));
    assert_eq!(net.read(a), None);
    assert!(!d.is_sent(a));
    assert_eq!(d.begin(&net), Action::Connect);
}

#[test]
fn write_failure_clears_the_sent_set() {
    let mut net: Network<u32, u32> = Network::new();
    let a = net.send_with(1, RequestId(1));
    let mut d = Dispatcher::new();
    d.begin(&net);
    assert_eq!(d.on_connect(true), Action::Send(a));
    assert!(d.is_sent(a));
    assert_eq!(d.on_failure(FrameError::ConnectionError), Action::Abort(FrameError::ConnectionError));
    assert!(!d.is_sent(a));
    assert!(!d.is_connected());
    assert_eq!(net.pending_count(), 1);
}
