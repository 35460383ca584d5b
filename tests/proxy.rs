use splice_proxy::dispatch::dispatch_order;
use splice_proxy::dns::DNS;
use splice_proxy::header::{
    authority_of, find_byte, host_of, is_tunnel_target, last_host_field, parse_head, port_of,
    same_bytes, scan_head, target_of, FieldScan, Head,
};
use splice_proxy::registry::SessionRegistry;
use splice_proxy::relay::{Relay, Splice, Step, Transfer, CHUNK};
use splice_proxy::session::{
    tunnel_reply, Direction, Outgoing, Probe, ProxyError, ReadAction, Session, State,
};

const GET_REQ: &[u8] = b"GET http://example.com/ HTTP/1.1\r\nHost: example.com\r\n\r\n";
const CONNECT_REQ: &[u8] = b"CONNECT example.com:443 HTTP/1.1\r\nHost: example.com\r\n\r\n";
const REPLY: &[u8] = b"HTTP/1.1 200 Connection established\r\n\r\n";

fn ready(h: Head) -> (Vec<u8>, u16, bool) {
    match h {
        Head::Ready(q) => (q.host, q.port, q.is_tunnel),
        Head::Incomplete => panic!("incomplete"),
        Head::Malformed => panic!("malformed"),
    }
}

#[test]
fn plain_get_head_is_ready() {
    assert_eq!(ready(parse_head(GET_REQ)), (b"example.com".to_vec(), 80, false));
}

#[test]
fn connect_head_is_tunnel() {
    assert_eq!(ready(parse_head(CONNECT_REQ)), (b"example.com".to_vec(), 443, true));
}

#[test]
fn head_split_over_reads_waits_for_the_whole_block() {
    let mut s = Session::new(7);
    s.append_head_bytes(b"GET http://exam");
    assert!(matches!(s.parse_header_line(), Head::Incomplete));
    s.append_head_bytes(b"ple.com/ HTTP/1.1\r\nHost: exa");
    assert!(matches!(s.parse_header_line(), Head::Incomplete));
    s.append_head_bytes(b"mple.com\r\n");
    assert!(matches!(s.parse_header_line(), Head::Incomplete));
    s.append_head_bytes(b"\r\n");
    assert_eq!(s.connect_header_buf, GET_REQ.to_vec());
    assert_eq!(ready(s.parse_header_line()), (b"example.com".to_vec(), 80, false));
}

#[test]
fn empty_buffer_is_incomplete() {
    assert!(matches!(parse_head(b""), Head::Incomplete));
}

#[test]
fn malformed_field_is_refused() {
    let req = b"GET http://example.com/ HTTP/1.1\r\nHost example.com\r\n\r\n";
    assert!(matches!(parse_head(req), Head::Malformed));
}

#[test]
fn missing_host_field_is_refused() {
    let req = b"GET http://example.com/ HTTP/1.1\r\nAccept: */*\r\n\r\n";
    assert!(matches!(parse_head(req), Head::Malformed));
}

#[test]
fn bad_port_is_refused() {
    let req = b"GET http://example.com:99999/ HTTP/1.1\r\nHost: example.com\r\n\r\n";
    assert!(matches!(parse_head(req), Head::Malformed));
}

#[test]
fn scan_head_follows_the_field_verdict() {
    assert!(matches!(scan_head(GET_REQ, FieldScan::Partial), Head::Incomplete));
    assert!(matches!(scan_head(GET_REQ, FieldScan::Invalid), Head::Malformed));
    let fields = vec![(b"Host".to_vec(), b"example.com".to_vec())];
    assert_eq!(
        ready(scan_head(GET_REQ, FieldScan::Complete(fields))),
        (b"example.com".to_vec(), 80, false)
    );
    assert!(matches!(scan_head(GET_REQ, FieldScan::Complete(vec![])), Head::Malformed));
}

#[test]
fn last_host_field_wins() {
    let fields = vec![
        (b"Host".to_vec(), b"a.example".to_vec()),
        (b"Accept".to_vec(), b"*/*".to_vec()),
        (b"Host".to_vec(), b"b.example".to_vec()),
        (b"host".to_vec(), b"c.example".to_vec()),
    ];
    assert_eq!(last_host_field(&fields), Some(b"b.example".to_vec()));
    assert_eq!(last_host_field(&vec![]), None);
}

#[test]
fn target_pieces() {
    assert_eq!(target_of(b"GET http://example.com/x HTTP/1.1"), Some(b"http://example.com/x".to_vec()));
    assert_eq!(target_of(b"GET"), None);
    assert_eq!(authority_of(b"https://example.com:8443/x"), b"example.com:8443".to_vec());
    assert_eq!(host_of(b"http://example.com/"), b"example.com".to_vec());
    assert_eq!(host_of(b"example.com:443"), b"example.com".to_vec());
    assert_eq!(port_of(b"example.com:443"), Some(443));
    assert_eq!(port_of(b"http://example.com/"), Some(80));
    assert_eq!(port_of(b"example.com:65535"), Some(65535));
    assert_eq!(port_of(b"example.com:65536"), None);
    assert_eq!(port_of(b"example.com:8x"), None);
    assert_eq!(port_of(b"example.com:"), None);
    assert!(is_tunnel_target(b"example.com:443"));
    assert!(!is_tunnel_target(b"example.com:80"));
    assert!(!is_tunnel_target(b"443"));
}

#[test]
fn byte_helpers() {
    assert_eq!(find_byte(b"ab\ncd\n", b'\n'), 2);
    assert_eq!(find_byte(b"abc", b'\n'), 3);
    assert!(same_bytes(b"abc", b"abc"));
    assert!(!same_bytes(b"abc", b"abd"));
    assert!(!same_bytes(b"abc", b"ab"));
}

#[test]
fn empty_lookup_is_not_cached() {
    let mut dns = DNS::new();
    assert_eq!(dns.store(b"example.com", vec![]), None);
    assert_eq!(dns.cached(b"example.com"), None);
    let ips = vec!["93.184.216.34".to_string(), "93.184.216.35".to_string()];
    assert_eq!(dns.store(b"example.com", ips), Some("93.184.216.34".to_string()));
    assert_eq!(dns.cached(b"example.com"), Some("93.184.216.34".to_string()));
    assert_eq!(dns.store(b"example.com", vec![]), None);
    assert_eq!(dns.cached(b"example.com"), None);
}

#[test]
fn cached_host_is_answered_from_the_cache() {
    let mut dns = DNS::new();
    dns.store(b"example.com", vec!["93.184.216.34".to_string()]);
    dns.store(b"other.test", vec!["10.0.0.1".to_string()]);
    assert_eq!(dns.query(b"example.com"), Some("93.184.216.34".to_string()));
    assert_eq!(dns.query(b"other.test"), Some("10.0.0.1".to_string()));
    dns.store(b"example.com", vec!["1.2.3.4".to_string()]);
    assert_eq!(dns.query(b"example.com"), Some("1.2.3.4".to_string()));
    assert_eq!(dns.cached(b"other.test"), Some("10.0.0.1".to_string()));
}

#[test]
fn relay_would_block_after_progress_reports_bytes() {
    let (mut r, step) = Relay::start(0);
    assert_eq!(step, Step::Fill);
    assert_eq!(r.on_fill(Splice::Moved(100)), Step::Drain);
    assert_eq!(r.on_drain(Splice::Moved(60)), Step::Drain);
    assert_eq!(r.on_drain(Splice::WouldBlock), Step::Done(Transfer::Moved(60)));
    assert_eq!(r.pending, 40);
    let (mut next, step) = Relay::start(r.pending);
    assert_eq!(step, Step::Drain);
    assert_eq!(next.on_drain(Splice::Moved(40)), Step::Fill);
    assert_eq!(next.on_fill(Splice::WouldBlock), Step::Done(Transfer::Moved(40)));
    assert_eq!(next.pending, 0);
}

#[test]
fn relay_outcomes() {
    let (mut r, _) = Relay::start(0);
    assert_eq!(r.on_fill(Splice::WouldBlock), Step::Done(Transfer::WouldBlock));
    let (mut r, _) = Relay::start(0);
    assert_eq!(r.on_fill(Splice::Moved(0)), Step::Done(Transfer::Eof));
    let (mut r, _) = Relay::start(0);
    assert_eq!(r.on_fill(Splice::Failed), Step::Done(Transfer::Failed));
    let (mut r, _) = Relay::start(0);
    assert_eq!(r.on_fill(Splice::Moved(CHUNK)), Step::Drain);
    assert_eq!(r.on_drain(Splice::Moved(CHUNK)), Step::Fill);
    assert_eq!(r.on_fill(Splice::Moved(0)), Step::Done(Transfer::Moved(CHUNK as u64)));
    let (mut r, _) = Relay::start(5);
    assert_eq!(r.on_drain(Splice::Moved(0)), Step::Done(Transfer::Eof));
    let (mut r, _) = Relay::start(5);
    assert_eq!(r.on_drain(Splice::Failed), Step::Done(Transfer::Failed));
}

#[test]
fn session_transfer_results() {
    let mut s = Session::new(5);
    assert_eq!(s.down2up(Transfer::Moved(3)), Err(ProxyError::System));
    s.attach_upstream(9);
    assert_eq!(s.down2up(Transfer::Moved(3)), Ok(3));
    assert_eq!(s.up2down(Transfer::Eof), Err(ProxyError::Eof));
    assert_eq!(s.up2down(Transfer::WouldBlock), Err(ProxyError::WouldBlock));
    assert_eq!(s.down2up(Transfer::Failed), Err(ProxyError::System));
    assert_eq!(s.pipe(5), Direction::DownToUp);
    assert_eq!(s.pipe(9), Direction::UpToDown);
    assert_eq!(s.pipe(4), Direction::Neither);
}

#[test]
fn tunnel_reply_bytes_are_exact() {
    assert_eq!(tunnel_reply(), REPLY.to_vec());
}

#[test]
fn connect_errors() {
    let mut dns = DNS::new();
    let mut s = Session::new(5);
    s.append_head_bytes(b"GET http://exa");
    assert!(matches!(s.connect(&mut dns), Err(ProxyError::WouldBlock)));
    let mut s = Session::new(5);
    s.append_head_bytes(b"GET / HTTP/1.1\r\nHost example.com\r\n\r\n");
    assert!(matches!(s.connect(&mut dns), Err(ProxyError::Protocol)));
}

#[test]
fn write_probe_outcomes() {
    let mut s = Session::new(5);
    assert!(matches!(s.handle_write(5, Probe::Connected), Ok(Outgoing::Nothing)));
    s.attach_upstream(9);
    assert!(matches!(s.handle_write(9, Probe::NotConnected), Err(ProxyError::WouldBlock)));
    assert!(matches!(s.handle_write(9, Probe::Failed), Err(ProxyError::Connect)));
    assert!(matches!(s.handle_write(5, Probe::Connected), Ok(Outgoing::Nothing)));
    assert_eq!(s.state, State::Head);
}

#[test]
fn registry_pairs_and_removes_both_identities() {
    let mut reg = SessionRegistry::new();
    assert!(reg.accept(5));
    assert!(!reg.accept(5));
    assert!(!reg.accept(0));
    assert!(reg.accept(6));
    assert_eq!(reg.len(), 2);
    assert!(!reg.attach_upstream(5, 6));
    assert!(reg.attach_upstream(5, 9));
    assert!(!reg.attach_upstream(5, 10));
    assert_eq!(reg.len(), 3);
    assert_eq!(reg.get(9).unwrap().down_sock_id, 5);
    assert_eq!(reg.get(5).unwrap().up_sock_id, 9);
    let s = reg.remove(9).unwrap();
    assert_eq!((s.down_sock_id, s.up_sock_id), (5, 9));
    assert!(reg.get(5).is_none());
    assert!(reg.get(9).is_none());
    assert!(reg.remove(5).is_none());
    assert_eq!(reg.len(), 1);
    assert_eq!(reg.get(6).unwrap().down_sock_id, 6);
}

#[test]
fn plain_http_end_to_end() {
    let mut dns = DNS::new();
    dns.store(b"example.com", vec!["93.184.216.34".to_string()]);
    let mut reg = SessionRegistry::new();
    assert!(reg.accept(5));
    assert!(reg.append_head_bytes(5, GET_REQ));
    let e = reg.connect(5, &mut dns).unwrap().unwrap();
    assert_eq!((e.address.as_str(), e.port), ("93.184.216.34", 80));
    assert!(reg.attach_upstream(5, 9));
    assert!(!reg.get(9).unwrap().is_https);
    assert!(matches!(reg.handle_write(9, Probe::NotConnected), Some(Err(ProxyError::WouldBlock))));
    match reg.handle_write(9, Probe::Connected) {
        Some(Ok(Outgoing::ToTarget(b))) => assert_eq!(b, GET_REQ.to_vec()),
        _ => panic!("expected the request for the target"),
    }
    assert_eq!(reg.get(5).unwrap().state, State::Piping);
    assert!(matches!(reg.handle_write(9, Probe::Connected), Some(Ok(Outgoing::Nothing))));
    let s = reg.get(9).unwrap();
    assert_eq!(s.pipe(9), Direction::UpToDown);
    assert_eq!(s.up2down(Transfer::Moved(1234)), Ok(1234));
}

#[test]
fn tunnel_end_to_end() {
    let mut dns = DNS::new();
    dns.store(b"example.com", vec!["93.184.216.34".to_string()]);
    let mut reg = SessionRegistry::new();
    assert!(reg.accept(5));
    assert!(reg.append_head_bytes(5, CONNECT_REQ));
    let e = reg.connect(5, &mut dns).unwrap().unwrap();
    assert_eq!((e.address.as_str(), e.port), ("93.184.216.34", 443));
    assert!(reg.attach_upstream(5, 9));
    assert!(reg.get(5).unwrap().is_https);
    match reg.handle_write(9, Probe::Connected) {
        Some(Ok(Outgoing::ToClient(b))) => assert_eq!(b, REPLY.to_vec()),
        _ => panic!("expected the tunnel reply"),
    }
    assert!(matches!(reg.handle_write(5, Probe::Connected), Some(Ok(Outgoing::Nothing))));
    assert!(matches!(reg.handle_write(9, Probe::Connected), Some(Ok(Outgoing::Nothing))));
    assert_eq!(reg.get(9).unwrap().pipe(5), Direction::DownToUp);
}

#[test]
fn unknown_identity_is_ignored() {
    let mut dns = DNS::new();
    let mut reg = SessionRegistry::new();
    assert!(reg.get(3).is_none());
    assert!(!reg.append_head_bytes(3, b"x"));
    assert!(reg.connect(3, &mut dns).is_none());
    assert!(reg.handle_write(3, Probe::Connected).is_none());
    assert!(reg.remove(3).is_none());
    assert_eq!(reg.len(), 0);
}

#[test]
fn dispatch_order_is_a_permutation() {
    assert!(dispatch_order(0).is_empty());
    let mut order = dispatch_order(50);
    order.sort();
    assert_eq!(order, (0..50).collect::<Vec<usize>>());
}

#[test]
fn readable_event_actions() {
    let mut s = Session::new(5);
    assert_eq!(s.on_readable(5), ReadAction::ReadHead);
    s.attach_upstream(9);
    assert_eq!(s.on_readable(5), ReadAction::Wait);
    assert!(matches!(s.handle_write(9, Probe::Connected), Ok(Outgoing::ToTarget(_))));
    assert_eq!(s.on_readable(5), ReadAction::Relay(Direction::DownToUp));
    assert_eq!(s.on_readable(9), ReadAction::Relay(Direction::UpToDown));
}
