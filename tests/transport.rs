use simnet::netsim::NodeId;
use simnet::tcp::{Addr, Net, NetError, Poll, StreamState, TcpListener, TcpStream};

const IP1: u32 = 0x0a00_0001; // 10.0.0.1
const IP2: u32 = 0x0a00_0002; // 10.0.0.2
const IP3: u32 = 0x0a00_0003; // 10.0.0.3

fn two_nodes() -> (Net, NodeId, NodeId, Addr) {
    let mut net = Net::new();
    let a = net.add_node(IP1);
    let b = net.add_node(IP2);
    (net, a, b, Addr { ip: IP1, port: 1 })
}

fn accepted(net: &mut Net, l: TcpListener) -> (TcpStream, Addr) {
    match net.accept(l) {
        Poll::Ready(Ok(x)) => x,
        other => panic!("accept did not succeed: {:?}", other),
    }
}

fn established(net: &mut Net, a: NodeId, b: NodeId, addr: Addr) -> (TcpListener, TcpStream, TcpStream) {
    let l = net.bind(a, addr).unwrap();
    let c = net.connect_to(b, addr).unwrap();
    let (srv, _) = accepted(net, l);
    assert_eq!(net.poll_connect(c), Poll::Ready(Ok(())));
    (l, srv, c)
}

#[test]
fn send_recv() {
    let (mut net, a, b, addr1) = two_nodes();
    let l = net.bind(a, addr1).unwrap();
    let c = net.connect_to(b, addr1).unwrap();
    assert_eq!(net.poll_connect(c), Poll::Pending);
    let (srv, peer) = accepted(&mut net, l);
    assert_eq!(peer.ip, IP2);
    assert_eq!(net.poll_connect(c), Poll::Ready(Ok(())));
    assert_eq!(net.write(srv, b"hello world"), Ok(11));
    assert_eq!(net.flush(srv), Ok(()));
    assert_eq!(net.read(c, 20), Poll::Ready(Ok(b"hello world".to_vec())));
}

#[test]
fn disconnect_and_recovery() {
    let (mut net, a, b, addr1) = two_nodes();
    // node A is cut off before it binds
    net.disconnect(a);
    let l = net.bind(a, addr1).unwrap();
    assert!(net.connect_to(b, addr1).is_err(), "connect should fail");
    assert_eq!(net.accept(l), Poll::Pending, "listener should not get connection");

    net.connect(a);
    let c = net.connect_to(b, addr1).unwrap();
    let (srv, _) = accepted(&mut net, l);
    assert_eq!(net.poll_connect(c), Poll::Ready(Ok(())));
    assert_eq!(net.write(srv, b"hello world"), Ok(11));
    assert_eq!(net.flush(srv), Ok(()));
    assert_eq!(net.read(c, 20), Poll::Ready(Ok(b"hello world".to_vec())));

    // only the pair is cut: the write stays in flight
    net.disconnect2(a, b);
    assert_eq!(net.write(srv, b"hello world"), Ok(11));
    assert_eq!(net.flush(srv), Ok(()));
    assert_eq!(net.read(c, 20), Poll::Pending);
    net.connect2(a, b);
    assert_eq!(net.read(c, 20), Poll::Ready(Ok(b"hello world".to_vec())));
}

#[test]
fn reset() {
    let (mut net, a, b, addr1) = two_nodes();
    let (_, srv, c) = established(&mut net, a, b, addr1);
    net.reset_node(a);
    assert_eq!(net.write(srv, b"hello world"), Err(NetError::ConnectionReset));
    assert!(net.flush(srv).is_err(), "write should fail");
    assert_eq!(net.read(c, 20), Poll::Ready(Ok(Vec::new())), "read should return EOF");
}

#[test]
fn reset_errors_on_the_reset_node() {
    let (mut net, a, b, addr1) = two_nodes();
    let (l, srv, c) = established(&mut net, a, b, addr1);
    net.reset_node(a);
    assert_eq!(net.flush(srv), Err(NetError::ConnectionReset));
    assert_eq!(net.flush(c), Err(NetError::ConnectionReset));
    assert_eq!(net.read(srv, 20), Poll::Ready(Err(NetError::ConnectionReset)));
    assert_eq!(net.accept(l), Poll::Ready(Err(NetError::ListenerClosed)));
    assert_eq!(net.state(srv), StreamState::Reset);
    assert_eq!(net.state(c), StreamState::Reset);
}

#[test]
fn reset_refuses_pending_requests() {
    let (mut net, a, b, addr1) = two_nodes();
    net.bind(a, addr1).unwrap();
    let c = net.connect_to(b, addr1).unwrap();
    net.reset_node(a);
    assert_eq!(net.poll_connect(c), Poll::Ready(Err(NetError::ConnectionRefused)));
}

#[test]
fn bytes_arrive_in_order() {
    let (mut net, a, b, addr1) = two_nodes();
    let (_, srv, c) = established(&mut net, a, b, addr1);
    assert_eq!(net.write(c, b"abc"), Ok(3));
    assert_eq!(net.write(c, b"de"), Ok(2));
    assert_eq!(net.flush(c), Ok(()));
    assert_eq!(net.write(c, b"fg"), Ok(2));
    assert_eq!(net.flush(c), Ok(()));
    assert_eq!(net.read(srv, 4), Poll::Ready(Ok(b"abcd".to_vec())));
    assert_eq!(net.read(srv, 100), Poll::Ready(Ok(b"efg".to_vec())));
    assert_eq!(net.read(srv, 100), Poll::Pending);
}

#[test]
fn nothing_arrives_before_flush() {
    let (mut net, a, b, addr1) = two_nodes();
    let (_, srv, c) = established(&mut net, a, b, addr1);
    assert_eq!(net.write(srv, b"x"), Ok(1));
    assert_eq!(net.read(c, 10), Poll::Pending);
}

#[test]
fn connect_without_listener_is_refused() {
    let (mut net, _, b, addr1) = two_nodes();
    assert_eq!(net.connect_to(b, addr1), Err(NetError::ConnectionRefused));
}

#[test]
fn connect_across_cut_pair_is_unreachable() {
    let (mut net, a, b, addr1) = two_nodes();
    net.bind(a, addr1).unwrap();
    net.disconnect2(a, b);
    assert_eq!(net.connect_to(b, addr1), Err(NetError::Unreachable));
    net.connect2(a, b);
    assert!(net.connect_to(b, addr1).is_ok());
}

#[test]
fn pair_cut_leaves_third_node_alone() {
    let (mut net, a, b, addr1) = two_nodes();
    let c3 = net.add_node(IP3);
    net.bind(a, addr1).unwrap();
    net.disconnect2(a, b);
    assert!(net.connect_to(c3, addr1).is_ok());
    let addr2 = Addr { ip: IP2, port: 1 };
    net.bind(b, addr2).unwrap();
    assert!(net.connect_to(c3, addr2).is_ok());
}

#[test]
fn disconnect_fails_established_streams() {
    let (mut net, a, b, addr1) = two_nodes();
    let (_, srv, c) = established(&mut net, a, b, addr1);
    assert_eq!(net.write(srv, b"late"), Ok(4));
    assert_eq!(net.flush(srv), Ok(()));
    net.disconnect(b);
    assert_eq!(net.read(c, 10), Poll::Ready(Err(NetError::Unreachable)));
    assert_eq!(net.flush(srv), Err(NetError::Unreachable));
    assert_eq!(net.write(srv, b"x"), Err(NetError::Unreachable));
    net.connect(b);
    assert_eq!(net.read(c, 10), Poll::Ready(Ok(b"late".to_vec())));
}

#[test]
fn pending_connect_fails_once_unreachable() {
    let (mut net, a, b, addr1) = two_nodes();
    net.bind(a, addr1).unwrap();
    let c = net.connect_to(b, addr1).unwrap();
    net.disconnect(a);
    assert_eq!(net.poll_connect(c), Poll::Ready(Err(NetError::Unreachable)));
    assert_eq!(net.state(c), StreamState::Refused);
}

#[test]
fn bind_twice_is_addr_in_use() {
    let (mut net, a, _, addr1) = two_nodes();
    let l = net.bind(a, addr1).unwrap();
    assert_eq!(net.bind(a, addr1), Err(NetError::AddrInUse));
    net.close_listener(l);
    assert!(net.bind(a, addr1).is_ok());
}

#[test]
fn closed_listener_fails_accepts_and_requests() {
    let (mut net, a, b, addr1) = two_nodes();
    let l = net.bind(a, addr1).unwrap();
    let c = net.connect_to(b, addr1).unwrap();
    net.close_listener(l);
    assert_eq!(net.accept(l), Poll::Ready(Err(NetError::ListenerClosed)));
    assert_eq!(net.poll_connect(c), Poll::Ready(Err(NetError::ConnectionRefused)));
    assert_eq!(net.write(c, b"x"), Err(NetError::ConnectionRefused));
}

#[test]
fn accept_serves_requests_in_order() {
    let (mut net, a, b, addr1) = two_nodes();
    let c3 = net.add_node(IP3);
    let l = net.bind(a, addr1).unwrap();
    let first = net.connect_to(b, addr1).unwrap();
    let second = net.connect_to(c3, addr1).unwrap();
    assert_eq!(first.conn, 0);
    let (s1, p1) = accepted(&mut net, l);
    let (s2, p2) = accepted(&mut net, l);
    assert_eq!((s1.conn, p1.ip), (first.conn, IP2));
    assert_eq!((s2.conn, p2.ip), (second.conn, IP3));
    assert_ne!(p1.port, p2.port);
    assert_eq!(net.accept(l), Poll::Pending);
}

#[test]
fn write_before_established_is_not_connected() {
    let (mut net, a, b, addr1) = two_nodes();
    net.bind(a, addr1).unwrap();
    let c = net.connect_to(b, addr1).unwrap();
    assert_eq!(net.write(c, b"x"), Err(NetError::NotConnected));
    assert_eq!(net.read(c, 1), Poll::Ready(Err(NetError::NotConnected)));
    assert_eq!(net.state(c), StreamState::Connecting);
}

#[test]
fn shutdown_gives_end_of_stream_after_data() {
    let (mut net, a, b, addr1) = two_nodes();
    let (_, srv, c) = established(&mut net, a, b, addr1);
    assert_eq!(net.write(srv, b"bye"), Ok(3));
    assert_eq!(net.shutdown(srv), Ok(()));
    assert_eq!(net.state(srv), StreamState::HalfClosed);
    assert_eq!(net.write(srv, b"more"), Err(NetError::BrokenPipe));
    assert_eq!(net.read(c, 10), Poll::Ready(Ok(b"bye".to_vec())));
    assert_eq!(net.read(c, 10), Poll::Ready(Ok(Vec::new())));
    assert_eq!(net.write(c, b"ok"), Ok(2));
    assert_eq!(net.shutdown(c), Ok(()));
    assert_eq!(net.state(c), StreamState::Closed);
    assert_eq!(net.read(srv, 10), Poll::Ready(Ok(b"ok".to_vec())));
}

#[test]
fn dropping_a_stream_notifies_the_peer_only_when_up() {
    let (mut net, a, b, addr1) = two_nodes();
    let (_, srv, c) = established(&mut net, a, b, addr1);
    net.disconnect(a);
    net.close_stream(srv);
    net.connect(a);
    assert_eq!(net.read(c, 10), Poll::Pending);
    net.close_stream(srv);
    assert_eq!(net.read(c, 10), Poll::Ready(Ok(Vec::new())));
}
