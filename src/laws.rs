//! Properties that relate several operations of the transport.
use vstd::prelude::*;
use crate::netsim::{pair_key, NetSimView, NodeId};
use crate::streaming::{first_on_tag, pull_step, Msg, Slot, StreamingView};
use crate::tcp::{
    accept_step, connect_node_step, connect_step, connect2_step, disconnect_step, disconnect2_step,
    flush_step, poll_connect_step, read_step, reset_conn, reset_listener, reset_step, write_step, Addr,
    NetError, NetView, Phase, Poll, TcpListener, TcpStream,
};

verus! {

/// Bytes written in two pieces on one end and then flushed come out of a read
/// on the other end in the order they were written, with nothing lost or added.
pub proof fn law_stream_order(v: NetView, s: TcpStream, a: Seq<u8>, b: Seq<u8>, max: usize)
    requires
        v.valid_stream(s),
        v.conn(s).phase == Phase::Open,
        !v.local(s).shut,
        v.local(s).wbuf.len() == 0,
        v.remote(s).inbox.len() == 0,
        v.sim.reachable(v.local(s).node, v.remote(s).node),
        a.len() + b.len() <= max,
        a.len() + b.len() > 0,
    ensures
        ({
            let v1 = write_step(v, s, a).0;
            let v2 = write_step(v1, s, b).0;
            let v3 = flush_step(v2, s).0;
            read_step(v3, s.flip(), max).1 == Poll::<Result<Seq<u8>, NetError>>::Ready(Ok(a + b))
        }),
{
    let v1 = write_step(v, s, a).0;
    let v2 = write_step(v1, s, b).0;
    let v3 = flush_step(v2, s).0;
    assert(v2.local(s).wbuf =~= a + b);
    assert(v3.remote(s).inbox =~= a + b);
    assert(v3.local(s.flip()) == v3.remote(s));
    assert(v3.local(s.flip()).inbox.subrange(0, (a + b).len() as int) =~= a + b);
}

/// A read hands out a prefix of what arrived, and keeps the rest in order.
pub proof fn law_read_prefix(v: NetView, s: TcpStream, max: usize)
    requires
        v.valid_stream(s),
        v.conn(s).phase == Phase::Open,
        v.local(s).inbox.len() > 0,
    ensures
        match read_step(v, s, max).1 {
            Poll::Ready(Ok(m)) => m.len() > 0 ==> m + read_step(v, s, max).0.local(s).inbox == v.local(s).inbox,
            _ => true,
        },
{
    let me = v.local(s);
    let k = if max < me.inbox.len() { max as int } else { me.inbox.len() as int };
    assert(me.inbox.subrange(0, k) + me.inbox.subrange(k, me.inbox.len() as int) =~= me.inbox);
}

/// Connecting to an address where no listener is live is refused, and
/// connecting to a listener whose node cannot be reached fails as
/// unreachable; either way at once, with nothing left waiting.
pub proof fn law_connect_fails_fast(v: NetView, node: NodeId, addr: Addr)
    requires
        v.wf(),
    ensures
        !(exists|j: int| v.listens_at(j, addr)) ==> connect_step(v, node, addr) == (v, Err::<TcpStream, NetError>(NetError::ConnectionRefused)),
        forall|j: int| v.listens_at(j, addr) && !v.sim.reachable(node, #[trigger] v.listeners[j].node)
            ==> connect_step(v, node, addr) == (v, Err::<TcpStream, NetError>(NetError::Unreachable)),
{
    assert forall|j: int| v.listens_at(j, addr) && !v.sim.reachable(node, #[trigger] v.listeners[j].node)
        implies connect_step(v, node, addr) == (v, Err::<TcpStream, NetError>(NetError::Unreachable)) by {
        let c = choose|k: int| v.listens_at(k, addr);
        assert(c == j);
    }
}

/// A request still waiting re-checks connectivity when polled: once its ends
/// cannot reach each other, it fails instead of waiting on.
pub proof fn law_pending_connect_rechecks(v: NetView, s: TcpStream)
    requires
        v.valid_stream(s),
        s.client,
        v.conn(s).phase == Phase::Connecting,
        !v.sim.reachable(v.conn(s).client.node, v.conn(s).server.node),
    ensures
        poll_connect_step(v, s).1 is Ready,
        poll_connect_step(v, s).0.conn(s).phase == Phase::Refused,
{
}

/// Once a node is disconnected, every read, write and flush on an established
/// stream touching it fails as unreachable, delivering nothing.
pub proof fn law_disconnect_blocks(v: NetView, n: NodeId, s: TcpStream, max: usize)
    requires
        v.valid_stream(s),
        v.conn(s).phase == Phase::Open,
        v.local(s).node == n || v.remote(s).node == n,
    ensures
        read_step(disconnect_step(v, n), s, max) == (
            disconnect_step(v, n),
            Poll::<Result<Seq<u8>, NetError>>::Ready(Err(NetError::Unreachable)),
        ),
        flush_step(disconnect_step(v, n), s) == (disconnect_step(v, n), Err::<(), NetError>(NetError::Unreachable)),
        !v.local(s).shut ==> write_step(disconnect_step(v, n), s, seq![0u8]) == (
            disconnect_step(v, n),
            Err::<usize, NetError>(NetError::Unreachable),
        ),
{
}

/// Reconnecting a node that was disconnected restores the connectivity
/// state that was in effect before.
pub proof fn law_reconnect_restores(v: NetView, n: NodeId)
    requires
        !v.sim.down.contains(n),
    ensures
        connect_node_step(disconnect_step(v, n), n) == v,
{
    assert(v.sim.down.insert(n).remove(n) =~= v.sim.down);
}

/// Cutting the pair `a`, `b` stops traffic between them and no other, and
/// restoring the pair undoes the cut.
pub proof fn law_pair_cut(v: NetView, a: NodeId, b: NodeId, x: NodeId, y: NodeId)
    ensures
        !disconnect2_step(v, a, b).sim.reachable(a, b),
        pair_key(x, y) != pair_key(a, b) ==> disconnect2_step(v, a, b).sim.reachable(x, y) == v.sim.reachable(x, y),
        !v.sim.cut.contains(pair_key(a, b)) ==> connect2_step(disconnect2_step(v, a, b), a, b) == v,
{
    assert(v.sim.cut.insert(pair_key(a, b)).remove(pair_key(a, b)) =~= v.sim.cut.remove(pair_key(a, b)));
    if !v.sim.cut.contains(pair_key(a, b)) {
        assert(v.sim.cut.insert(pair_key(a, b)).remove(pair_key(a, b)) =~= v.sim.cut);
    }
}

/// After node `n` is reset, a peer of `n` with an established stream reads
/// end-of-stream and fails to write or flush, the end on `n` fails with a reset, and
/// every listener of `n` refuses accepts.
pub proof fn law_reset_observed(v: NetView, n: NodeId, s: TcpStream, max: usize, l: TcpListener)
    requires
        v.valid_stream(s),
        v.conn(s).phase == Phase::Open,
        v.remote(s).node == n,
        v.local(s).node != n,
        !v.local(s).reset,
        v.valid_listener(l),
        v.listeners[l.id as int].node == n,
    ensures
        read_step(reset_step(v, n), s, max).1 == Poll::<Result<Seq<u8>, NetError>>::Ready(Ok(Seq::empty())),
        flush_step(reset_step(v, n), s).1 == Err::<(), NetError>(NetError::ConnectionReset),
        write_step(reset_step(v, n), s, seq![0u8]).1 == Err::<usize, NetError>(NetError::ConnectionReset),
        read_step(reset_step(v, n), s.flip(), max).1 == Poll::<Result<Seq<u8>, NetError>>::Ready(
            Err(NetError::ConnectionReset),
        ),
        accept_step(reset_step(v, n), l).1 == Poll::<Result<(TcpStream, Addr), NetError>>::Ready(
            Err(NetError::ListenerClosed),
        ),
{
    let w = reset_step(v, n);
    assert(w.conns[s.conn as int] == reset_conn(v.conns[s.conn as int], n));
    assert(w.listeners[l.id as int] == reset_listener(v.listeners[l.id as int], n));
}

/// The items `xs` sent by `peer` on the successive tags `t`, `t + 1`, ...
pub open spec fn tagged_items<T>(xs: Seq<T>, t: int, peer: NodeId) -> Seq<Slot<T>> {
    Seq::new(xs.len(), |i: int| Slot { tag: (t + i) as u64, from: peer, msg: Msg::Item(xs[i]) })
}

/// The items handed out by at most `fuel` successive pulls, up to the first
/// pull that is not an item.
pub open spec fn drain<T>(sv: StreamingView<T>, slots: Seq<Slot<T>>, node: NodeId, sim: NetSimView, fuel: nat) -> Seq<T>
    decreases fuel,
{
    if fuel == 0 {
        Seq::empty()
    } else {
        let (sv2, s2, r) = pull_step(sv, slots, node, sim);
        match r {
            Poll::Ready(Ok(Some(x))) => seq![x] + drain(sv2, s2, node, sim, (fuel - 1) as nat),
            _ => Seq::empty(),
        }
    }
}

/// Items sent on successive tags, followed by the end marker, come out of a
/// channel in exactly the order they were sent, and then the channel ends.
pub proof fn law_channel_order<T>(sv: StreamingView<T>, xs: Seq<T>, t: u64, peer: NodeId, node: NodeId, sim: NetSimView)
    requires
        !sv.done,
        sv.next_tag == Some(t),
        sv.peer == peer,
        sim.reachable(peer, node),
        !sim.down.contains(node),
        t + xs.len() < u64::MAX,
    ensures
        ({
            let slots = tagged_items(xs, t as int, peer).push(Slot { tag: (t + xs.len()) as u64, from: peer, msg: Msg::End });
            drain(sv, slots, node, sim, xs.len() + 1) == xs
        }),
    decreases xs.len(),
{
    let slots = tagged_items(xs, t as int, peer).push(Slot { tag: (t + xs.len()) as u64, from: peer, msg: Msg::End });
    assert(first_on_tag(slots, t, 0)) by {
        if xs.len() == 0 {
            assert(slots[0].tag == t);
        } else {
            assert(slots[0] == tagged_items(xs, t as int, peer)[0]);
        }
    }
    let c = choose|i: int| first_on_tag(slots, t, i);
    assert(c == 0) by {
        if c > 0 {
            assert(slots[0].tag != t);
        }
    }
    let (sv2, s2, r) = pull_step(sv, slots, node, sim);
    if xs.len() == 0 {
        assert(r == Poll::<Result<Option<T>, NetError>>::Ready(Ok(None)));
        assert(drain(sv, slots, node, sim, 1) =~= xs);
    } else {
        let ys = xs.drop_first();
        let t2 = (t + 1) as u64;
        assert(slots[0].msg == Msg::Item(xs[0]));
        assert(r == Poll::<Result<Option<T>, NetError>>::Ready(Ok(Some(xs[0]))));
        assert(sv2 == StreamingView { next_tag: Some(t2), ..sv });
        let slots2 = tagged_items(ys, t2 as int, peer).push(Slot { tag: (t2 + ys.len()) as u64, from: peer, msg: Msg::End });
        assert(s2 =~= slots2);
        law_channel_order(sv2, ys, t2, peer, node, sim);
        assert(drain(sv, slots, node, sim, xs.len() + 1) == seq![xs[0]] + drain(sv2, s2, node, sim, xs.len() as nat));
        assert(seq![xs[0]] + ys =~= xs);
    }
}

/// A pull on a channel whose peer or receiving node is down fails at once,
/// whether or not anything is queued, and the pull after it reports the end:
/// the channel never waits on a disconnected node.
pub proof fn law_channel_fails_when_down<T>(sv: StreamingView<T>, slots: Seq<Slot<T>>, node: NodeId, sim: NetSimView)
    requires
        !sv.done,
        sv.next_tag is Some,
        sim.down.contains(sv.peer) || sim.down.contains(node),
    ensures
        pull_step(sv, slots, node, sim).2 == Poll::<Result<Option<T>, NetError>>::Ready(Err(NetError::Unreachable)),
        ({
            let (sv2, s2, _) = pull_step(sv, slots, node, sim);
            pull_step(sv2, s2, node, sim).2 == Poll::<Result<Option<T>, NetError>>::Ready(Ok(None))
        }),
{
}

/// A message waiting on the channel's tag whose sender is down is not
/// delivered: the pull fails instead.
pub proof fn law_channel_fails_on_down_sender<T>(sv: StreamingView<T>, slots: Seq<Slot<T>>, node: NodeId, sim: NetSimView, i: int)
    requires
        !sv.done,
        sv.next_tag is Some,
        first_on_tag(slots, sv.next_tag->Some_0, i),
        sim.down.contains(slots[i].from),
    ensures
        pull_step(sv, slots, node, sim).2 == Poll::<Result<Option<T>, NetError>>::Ready(Err(NetError::Unreachable)),
{
    let tag = sv.next_tag->Some_0;
    let c = choose|k: int| first_on_tag(slots, tag, k);
    assert(c == i) by {
        if c < i {
            assert(slots[c].tag != tag);
        }
        if c > i {
            assert(slots[i].tag != tag);
        }
    }
}

/// Reconnecting a node restores the fault state in effect before it was
/// disconnected, so every later operation, on streams and channels alike,
/// behaves as if it had never been disconnected.
pub proof fn law_sim_reconnect_restores(v: NetSimView, n: NodeId)
    requires
        !v.down.contains(n),
    ensures
        (NetSimView { down: v.down.insert(n).remove(n), ..v }) == v,
{
    assert(v.down.insert(n).remove(n) =~= v.down);
}

/// Restoring a cut pair restores the fault state in effect before the cut.
pub proof fn law_sim_pair_restores(v: NetSimView, a: NodeId, b: NodeId)
    requires
        !v.cut.contains(pair_key(a, b)),
    ensures
        (NetSimView { cut: v.cut.insert(pair_key(a, b)).remove(pair_key(a, b)), ..v }) == v,
{
    assert(v.cut.insert(pair_key(a, b)).remove(pair_key(a, b)) =~= v.cut);
}

} // verus!
