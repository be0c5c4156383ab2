use simnet::netsim::NetSim;
use simnet::streaming::{Endpoint, Msg, Streaming, TaskHandle};
use simnet::tcp::{NetError, Poll};

#[test]
fn items_come_in_tag_order_until_end() {
    let sim = NetSim::new();
    let mut ep: Endpoint<u32> = Endpoint::new(1);
    ep.send(&sim, 2, 12, Msg::End).unwrap();
    ep.send(&sim, 2, 11, Msg::Item(20)).unwrap();
    ep.send(&sim, 2, 10, Msg::Item(10)).unwrap();
    let mut st: Streaming<u32> = Streaming::new(10, 2, None);
    assert_eq!(st.message(&mut ep, &sim), Poll::Ready(Ok(Some(10))));
    assert_eq!(st.message(&mut ep, &sim), Poll::Ready(Ok(Some(20))));
    assert_eq!(st.message(&mut ep, &sim), Poll::Ready(Ok(None)));
    // one-shot: the sequence does not restart
    ep.send(&sim, 2, 13, Msg::Item(30)).unwrap();
    assert_eq!(st.message(&mut ep, &sim), Poll::Ready(Ok(None)));
}

#[test]
fn waits_for_the_next_tag() {
    let sim = NetSim::new();
    let mut ep: Endpoint<u32> = Endpoint::new(1);
    ep.send(&sim, 2, 6, Msg::Item(6)).unwrap();
    let mut st: Streaming<u32> = Streaming::new(5, 2, None);
    assert_eq!(st.message(&mut ep, &sim), Poll::Pending);
    ep.send(&sim, 2, 5, Msg::Item(5)).unwrap();
    assert_eq!(st.message(&mut ep, &sim), Poll::Ready(Ok(Some(5))));
    assert_eq!(st.message(&mut ep, &sim), Poll::Ready(Ok(Some(6))));
}

#[test]
fn failure_ends_the_sequence() {
    let mut sim = NetSim::new();
    let mut ep: Endpoint<u32> = Endpoint::new(1);
    ep.send(&sim, 2, 0, Msg::Item(1)).unwrap();
    let mut st: Streaming<u32> = Streaming::new(0, 2, None);
    sim.disconnect(1);
    assert_eq!(st.message(&mut ep, &sim), Poll::Ready(Err(NetError::Unreachable)));
    sim.connect(1);
    assert_eq!(st.message(&mut ep, &sim), Poll::Ready(Ok(None)));
}

#[test]
fn send_to_unreachable_node_fails() {
    let mut sim = NetSim::new();
    let mut ep: Endpoint<u32> = Endpoint::new(1);
    sim.disconnect2(2, 1);
    assert_eq!(ep.send(&sim, 2, 0, Msg::Item(1)), Err(NetError::Unreachable));
    assert!(ep.send(&sim, 3, 0, Msg::Item(1)).is_ok());
}

#[test]
fn cut_sender_is_held_back() {
    let mut sim = NetSim::new();
    let mut ep: Endpoint<u32> = Endpoint::new(1);
    ep.send(&sim, 2, 0, Msg::Item(1)).unwrap();
    sim.disconnect2(1, 2);
    assert_eq!(ep.recv(&sim, 0), Poll::Pending);
    sim.connect2(1, 2);
    assert_eq!(ep.recv(&sim, 0), Poll::Ready(Ok((2, Msg::Item(1)))));
}

#[test]
fn last_tag_ends_the_sequence() {
    let sim = NetSim::new();
    let mut ep: Endpoint<u32> = Endpoint::new(1);
    ep.send(&sim, 2, u64::MAX, Msg::Item(7)).unwrap();
    let mut st: Streaming<u32> = Streaming::new(u64::MAX, 2, None);
    assert_eq!(st.message(&mut ep, &sim), Poll::Ready(Ok(Some(7))));
    assert_eq!(st.message(&mut ep, &sim), Poll::Ready(Ok(None)));
}

#[test]
fn from_stream_yields_items_then_ends() {
    let sim = NetSim::new();
    let mut ep: Endpoint<&str> = Endpoint::new(1);
    let mut st = Streaming::from_stream(vec![Ok("a"), Err(NetError::ConnectionReset), Ok("b")]);
    assert_eq!(st.message(&mut ep, &sim), Poll::Ready(Ok(Some("a"))));
    assert_eq!(st.message(&mut ep, &sim), Poll::Ready(Err(NetError::ConnectionReset)));
    assert_eq!(st.message(&mut ep, &sim), Poll::Ready(Ok(Some("b"))));
    assert_eq!(st.message(&mut ep, &sim), Poll::Ready(Ok(None)));
    assert_eq!(st.close(), None);
}

#[test]
fn queued_message_from_down_sender_fails() {
    let mut sim = NetSim::new();
    let mut ep: Endpoint<u32> = Endpoint::new(1);
    ep.send(&sim, 2, 0, Msg::Item(1)).unwrap();
    let mut st: Streaming<u32> = Streaming::new(0, 2, None);
    sim.disconnect(2);
    assert_eq!(st.message(&mut ep, &sim), Poll::Ready(Err(NetError::Unreachable)));
    assert_eq!(st.message(&mut ep, &sim), Poll::Ready(Ok(None)));
}

#[test]
fn waiting_pull_fails_once_sender_is_down() {
    let mut sim = NetSim::new();
    let mut ep: Endpoint<u32> = Endpoint::new(1);
    let mut st: Streaming<u32> = Streaming::new(0, 2, None);
    assert_eq!(st.message(&mut ep, &sim), Poll::Pending);
    sim.disconnect(2);
    assert_eq!(st.message(&mut ep, &sim), Poll::Ready(Err(NetError::Unreachable)));
}

#[test]
fn recv_fails_on_down_sender_and_holds_on_cut() {
    let mut sim = NetSim::new();
    let mut ep: Endpoint<u32> = Endpoint::new(1);
    ep.send(&sim, 2, 0, Msg::Item(1)).unwrap();
    sim.disconnect(2);
    assert_eq!(ep.recv(&sim, 0), Poll::Ready(Err(NetError::Unreachable)));
    sim.connect(2);
    sim.disconnect2(1, 2);
    assert_eq!(ep.recv(&sim, 0), Poll::Pending);
    sim.connect2(1, 2);
    assert_eq!(ep.recv(&sim, 0), Poll::Ready(Ok((2, Msg::Item(1)))));
}

#[test]
fn reconnected_sender_delivers_normally() {
    let mut sim = NetSim::new();
    let mut ep: Endpoint<u32> = Endpoint::new(1);
    sim.disconnect(2);
    sim.connect(2);
    ep.send(&sim, 2, 3, Msg::Item(30)).unwrap();
    ep.send(&sim, 2, 4, Msg::End).unwrap();
    let mut st: Streaming<u32> = Streaming::new(3, 2, None);
    assert_eq!(st.message(&mut ep, &sim), Poll::Ready(Ok(Some(30))));
    assert_eq!(st.message(&mut ep, &sim), Poll::Ready(Ok(None)));
}

#[test]
fn close_hands_back_the_sender_task() {
    let st: Streaming<u32> = Streaming::new(0, 2, Some(TaskHandle { id: 4 }));
    assert_eq!(st.close(), Some(TaskHandle { id: 4 }));
}

#[test]
fn controller_toggles() {
    let mut sim = NetSim::new();
    assert!(sim.reachable(1, 2));
    sim.disconnect(1);
    assert!(sim.is_down(1));
    assert!(!sim.reachable(2, 1));
    assert!(sim.reachable(2, 3));
    sim.connect(1);
    assert!(sim.reachable(1, 2));
    sim.disconnect2(2, 1);
    assert!(!sim.reachable(1, 2));
    assert!(sim.both_up(1, 2));
    assert!(sim.reachable(1, 3));
    sim.connect2(1, 2);
    assert!(sim.reachable(2, 1));
}
