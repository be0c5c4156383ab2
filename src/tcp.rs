//! Simulated connection-oriented transport: listeners, streams, and the
//! fault-injection surface that every operation consults.
//!
//! Operations never block. An operation that would have to wait for another
//! node returns `Poll::Pending`, and the caller polls it again later; every poll
//! re-reads the current connectivity state.
//!
//! Fault policy: a node-level disconnect makes every send or receive on a
//! stream touching that node fail with `Unreachable`. A pair-level cut makes
//! new connections between the pair fail with `Unreachable`, while bytes
//! flushed on an established stream stay in flight and are delivered once the
//! pair is reconnected.
use vstd::prelude::*;
use crate::netsim::{pair_key, NetSim, NetSimView, NodeId};

verus! {

/// A listening or connecting address: network identity and port.
#[derive(Clone, Copy, PartialEq, Eq, Structural, Debug)]
pub struct Addr {
    pub ip: u32,
    pub port: u16,
}

/// The ways a transport operation can fail.
#[derive(Clone, Copy, PartialEq, Eq, Structural, Debug)]
pub enum NetError {
    /// A node involved is disconnected, or the pair is cut.
    Unreachable,
    /// The connection was hard-reset.
    ConnectionReset,
    /// No live listener took the connection.
    ConnectionRefused,
    /// The listener was closed or invalidated.
    ListenerClosed,
    /// A live listener already holds the address.
    AddrInUse,
    /// The stream is not established yet.
    NotConnected,
    /// The local write side was shut down.
    BrokenPipe,
}

/// Outcome of one poll of an operation that may have to wait.
#[derive(PartialEq, Eq, Debug)]
pub enum Poll<T> {
    Ready(T),
    Pending,
}

/// Where a connection is in its life.
#[derive(Clone, Copy, PartialEq, Eq, Structural, Debug)]
pub enum Phase {
    Connecting,
    Refused,
    Open,
    Reset,
}

/// State of a stream as seen from one of its two ends.
#[derive(Clone, Copy, PartialEq, Eq, Structural, Debug)]
pub enum StreamState {
    Connecting,
    Refused,
    Open,
    /// The local write side is shut; reads may still deliver.
    HalfClosed,
    /// Both write sides are shut.
    Closed,
    Reset,
}

/// Handle of a listener of a `Net`.
#[derive(Clone, Copy, PartialEq, Eq, Structural, Debug)]
pub struct TcpListener {
    pub id: usize,
}

/// Handle of one end of a connection of a `Net`.
#[derive(Clone, Copy, PartialEq, Eq, Structural, Debug)]
pub struct TcpStream {
    pub conn: usize,
    /// Whether this is the connecting end.
    pub client: bool,
}

/// A bound listener.
#[derive(Clone, Copy, PartialEq, Eq, Structural, Debug)]
pub struct ListenerEntry {
    pub node: NodeId,
    pub addr: Addr,
    pub live: bool,
}

/// One end of a connection, as a mathematical value.
pub struct HalfView {
    pub node: NodeId,
    pub addr: Addr,
    /// Written but not yet flushed.
    pub wbuf: Seq<u8>,
    /// Delivered to this end and not yet read, in send order.
    pub inbox: Seq<u8>,
    /// This end shut its write side.
    pub shut: bool,
    /// This end's node was reset.
    pub reset: bool,
}

/// A connection, as a mathematical value.
pub struct ConnView {
    pub client: HalfView,
    pub server: HalfView,
    pub phase: Phase,
    /// The listener the connection was made to.
    pub listener: usize,
}

/// The whole simulated network, as a mathematical value.
pub struct NetView {
    pub sim: NetSimView,
    /// The address identity of each node, by node id.
    pub ips: Seq<u32>,
    pub listeners: Seq<ListenerEntry>,
    pub conns: Seq<ConnView>,
}

impl HalfView {
    pub open spec fn fresh(node: NodeId, addr: Addr) -> HalfView {
        HalfView { node, addr, wbuf: Seq::empty(), inbox: Seq::empty(), shut: false, reset: false }
    }
}

impl TcpStream {
    /// The other end of the same connection.
    pub open spec fn flip(self) -> TcpStream {
        TcpStream { conn: self.conn, client: !self.client }
    }
}

impl NetView {
    pub open spec fn valid_listener(self, l: TcpListener) -> bool {
        l.id < self.listeners.len()
    }

    pub open spec fn valid_stream(self, s: TcpStream) -> bool {
        s.conn < self.conns.len()
    }

    pub open spec fn conn(self, s: TcpStream) -> ConnView {
        self.conns[s.conn as int]
    }

    pub open spec fn local(self, s: TcpStream) -> HalfView {
        if s.client { self.conn(s).client } else { self.conn(s).server }
    }

    pub open spec fn remote(self, s: TcpStream) -> HalfView {
        self.local(s.flip())
    }

    /// Replaces both ends of the connection of `s`.
    pub open spec fn with_halves(self, s: TcpStream, local: HalfView, remote: HalfView) -> NetView {
        let c = self.conn(s);
        let c2 = if s.client {
            ConnView { client: local, server: remote, ..c }
        } else {
            ConnView { client: remote, server: local, ..c }
        };
        NetView { conns: self.conns.update(s.conn as int, c2), ..self }
    }

    pub open spec fn with_phase(self, i: int, phase: Phase) -> NetView {
        NetView { conns: self.conns.update(i, ConnView { phase, ..self.conns[i] }), ..self }
    }

    /// Every node id and listener index held in the state is in range, and no
    /// two live listeners share an address.
    pub open spec fn wf(self) -> bool {
        &&& forall|i: int| 0 <= i < self.conns.len() ==> (#[trigger] self.conns[i]).listener
            < self.listeners.len()
        &&& forall|j: int, k: int|
            0 <= j < self.listeners.len() && 0 <= k < self.listeners.len()
                && (#[trigger] self.listeners[j]).live && (#[trigger] self.listeners[k]).live
                && self.listeners[j].addr == self.listeners[k].addr ==> j == k
    }

    /// The live listener at `addr`, if any, is the one at index `j`.
    pub open spec fn listens_at(self, j: int, addr: Addr) -> bool {
        0 <= j < self.listeners.len() && self.listeners[j].live && self.listeners[j].addr == addr
    }

    /// Connection `i` waits on listener `l` and its ends can reach each other.
    pub open spec fn acceptable(self, l: TcpListener, i: int) -> bool {
        0 <= i < self.conns.len() && self.conns[i].listener == l.id && self.conns[i].phase
            == Phase::Connecting && self.sim.reachable(
            self.conns[i].client.node,
            self.conns[i].server.node,
        )
    }

    pub open spec fn state_of(self, s: TcpStream) -> StreamState {
        match self.conn(s).phase {
            Phase::Connecting => StreamState::Connecting,
            Phase::Refused => StreamState::Refused,
            Phase::Reset => StreamState::Reset,
            Phase::Open => if self.local(s).shut && self.remote(s).shut {
                StreamState::Closed
            } else if self.local(s).shut {
                StreamState::HalfClosed
            } else {
                StreamState::Open
            },
        }
    }
}

/// The ephemeral port given to the connecting end of connection `i`.
pub open spec fn ephemeral_port(i: int) -> u16 {
    (49152 + i % 16384) as u16
}

/// What `disconnect` does.
pub open spec fn disconnect_step(v: NetView, node: NodeId) -> NetView {
    NetView { sim: NetSimView { down: v.sim.down.insert(node), ..v.sim }, ..v }
}

/// What `connect` does.
pub open spec fn connect_node_step(v: NetView, node: NodeId) -> NetView {
    NetView { sim: NetSimView { down: v.sim.down.remove(node), ..v.sim }, ..v }
}

/// What `disconnect2` does.
pub open spec fn disconnect2_step(v: NetView, a: NodeId, b: NodeId) -> NetView {
    NetView { sim: NetSimView { cut: v.sim.cut.insert(pair_key(a, b)), ..v.sim }, ..v }
}

/// What `connect2` does.
pub open spec fn connect2_step(v: NetView, a: NodeId, b: NodeId) -> NetView {
    NetView { sim: NetSimView { cut: v.sim.cut.remove(pair_key(a, b)), ..v.sim }, ..v }
}

/// What `write` does: the bytes are buffered until `flush`. A pair cut
/// does not fail it.
pub open spec fn write_step(v: NetView, s: TcpStream, bytes: Seq<u8>) -> (NetView, Result<usize, NetError>) {
    match v.conn(s).phase {
        Phase::Connecting => (v, Err(NetError::NotConnected)),
        Phase::Refused => (v, Err(NetError::ConnectionRefused)),
        Phase::Reset => (v, Err(NetError::ConnectionReset)),
        Phase::Open => if v.local(s).shut {
            (v, Err(NetError::BrokenPipe))
        } else if !v.sim.both_up(v.local(s).node, v.remote(s).node) {
            (v, Err(NetError::Unreachable))
        } else {
            (
                v.with_halves(s, HalfView { wbuf: v.local(s).wbuf + bytes, ..v.local(s) }, v.remote(s)),
                Ok(bytes.len() as usize),
            )
        },
    }
}

/// What `flush` does: the written bytes are appended to the other end's inbox.
pub open spec fn flush_step(v: NetView, s: TcpStream) -> (NetView, Result<(), NetError>) {
    match v.conn(s).phase {
        Phase::Connecting => (v, Err(NetError::NotConnected)),
        Phase::Refused => (v, Err(NetError::ConnectionRefused)),
        Phase::Reset => (v, Err(NetError::ConnectionReset)),
        Phase::Open => if !v.sim.both_up(v.local(s).node, v.remote(s).node) {
            (v, Err(NetError::Unreachable))
        } else {
            (
                v.with_halves(
                    s,
                    HalfView { wbuf: Seq::empty(), ..v.local(s) },
                    HalfView { inbox: v.remote(s).inbox + v.local(s).wbuf, ..v.remote(s) },
                ),
                Ok(()),
            )
        },
    }
}

/// What `read` does: it takes at most `max` bytes from the front of the inbox.
/// An empty `Ok` is end-of-stream.
pub open spec fn read_step(v: NetView, s: TcpStream, max: usize) -> (NetView, Poll<Result<Seq<u8>, NetError>>) {
    let me = v.local(s);
    match v.conn(s).phase {
        Phase::Connecting => (v, Poll::Ready(Err(NetError::NotConnected))),
        Phase::Refused => (v, Poll::Ready(Err(NetError::ConnectionRefused))),
        Phase::Reset => if me.reset {
            (v, Poll::Ready(Err(NetError::ConnectionReset)))
        } else {
            (v, Poll::Ready(Ok(Seq::empty())))
        },
        Phase::Open => if !v.sim.both_up(me.node, v.remote(s).node) {
            (v, Poll::Ready(Err(NetError::Unreachable)))
        } else if !v.sim.reachable(me.node, v.remote(s).node) {
            (v, Poll::Pending)
        } else if me.inbox.len() > 0 {
            let k = if max < me.inbox.len() { max as int } else { me.inbox.len() as int };
            (
                v.with_halves(s, HalfView { inbox: me.inbox.subrange(k, me.inbox.len() as int), ..me }, v.remote(s)),
                Poll::Ready(Ok(me.inbox.subrange(0, k))),
            )
        } else if v.remote(s).shut {
            (v, Poll::Ready(Ok(Seq::empty())))
        } else {
            (v, Poll::Pending)
        },
    }
}

/// What `shutdown` does: flush, then shut the local write side.
pub open spec fn shutdown_step(v: NetView, s: TcpStream) -> (NetView, Result<(), NetError>) {
    let (w, r) = flush_step(v, s);
    match r {
        Ok(_) => (w.with_halves(s, HalfView { shut: true, ..w.local(s) }, w.remote(s)), Ok(())),
        Err(e) => (w, Err(e)),
    }
}

/// What `bind` does.
pub open spec fn bind_step(v: NetView, node: NodeId, addr: Addr) -> (NetView, Result<TcpListener, NetError>) {
    if exists|j: int| v.listens_at(j, addr) {
        (v, Err(NetError::AddrInUse))
    } else {
        (
            NetView { listeners: v.listeners.push(ListenerEntry { node, addr, live: true }), ..v },
            Ok(TcpListener { id: v.listeners.len() as usize }),
        )
    }
}

/// What `connect` does: a request is queued at the live listener of `addr`.
pub open spec fn connect_step(v: NetView, node: NodeId, addr: Addr) -> (NetView, Result<TcpStream, NetError>) {
    if !exists|j: int| v.listens_at(j, addr) {
        (v, Err(NetError::ConnectionRefused))
    } else {
        let j = choose|j: int| v.listens_at(j, addr);
        let server = v.listeners[j].node;
        if !v.sim.reachable(node, server) {
            (v, Err(NetError::Unreachable))
        } else {
            let i = v.conns.len() as int;
            let c = ConnView {
                client: HalfView::fresh(node, Addr { ip: v.ips[node as int], port: ephemeral_port(i) }),
                server: HalfView::fresh(server, addr),
                phase: Phase::Connecting,
                listener: j as usize,
            };
            (NetView { conns: v.conns.push(c), ..v }, Ok(TcpStream { conn: i as usize, client: true }))
        }
    }
}

/// What `poll_connect` does on the connecting end.
pub open spec fn poll_connect_step(v: NetView, s: TcpStream) -> (NetView, Poll<Result<(), NetError>>) {
    let c = v.conn(s);
    match c.phase {
        Phase::Open => (v, Poll::Ready(Ok(()))),
        Phase::Refused => (v, Poll::Ready(Err(NetError::ConnectionRefused))),
        Phase::Reset => (v, Poll::Ready(Err(NetError::ConnectionReset))),
        Phase::Connecting => if !v.listeners[c.listener as int].live {
            (v.with_phase(s.conn as int, Phase::Refused), Poll::Ready(Err(NetError::ConnectionRefused)))
        } else if !v.sim.reachable(c.client.node, c.server.node) {
            (v.with_phase(s.conn as int, Phase::Refused), Poll::Ready(Err(NetError::Unreachable)))
        } else {
            (v, Poll::Pending)
        },
    }
}

/// Connection `i` is the earliest request that listener `l` can take.
pub open spec fn first_acceptable(v: NetView, l: TcpListener, i: int) -> bool {
    v.acceptable(l, i) && forall|k: int| 0 <= k < i ==> !v.acceptable(l, k)
}

/// What `accept` does: requests are taken in the order they were made.
pub open spec fn accept_step(v: NetView, l: TcpListener) -> (NetView, Poll<Result<(TcpStream, Addr), NetError>>) {
    if !v.listeners[l.id as int].live {
        (v, Poll::Ready(Err(NetError::ListenerClosed)))
    } else if exists|i: int| v.acceptable(l, i) {
        let i = choose|i: int| first_acceptable(v, l, i);
        (
            v.with_phase(i, Phase::Open),
            Poll::Ready(Ok((TcpStream { conn: i as usize, client: false }, v.conns[i].client.addr))),
        )
    } else {
        (v, Poll::Pending)
    }
}

/// What `close_listener` does.
pub open spec fn close_listener_step(v: NetView, l: TcpListener) -> NetView {
    NetView {
        listeners: v.listeners.update(l.id as int, ListenerEntry { live: false, ..v.listeners[l.id as int] }),
        ..v
    }
}

/// A connection after its node `n` (at either end) was reset.
pub open spec fn reset_conn(c: ConnView, n: NodeId) -> ConnView {
    if c.client.node == n || c.server.node == n {
        ConnView {
            phase: match c.phase {
                Phase::Open | Phase::Reset => Phase::Reset,
                _ => Phase::Refused,
            },
            client: HalfView { reset: c.client.reset || c.client.node == n, ..c.client },
            server: HalfView { reset: c.server.reset || c.server.node == n, ..c.server },
            ..c
        }
    } else {
        c
    }
}

/// A listener after node `n` was reset.
pub open spec fn reset_listener(e: ListenerEntry, n: NodeId) -> ListenerEntry {
    if e.node == n { ListenerEntry { live: false, ..e } } else { e }
}

/// What `reset_node` does.
pub open spec fn reset_step(v: NetView, n: NodeId) -> NetView {
    NetView {
        conns: v.conns.map_values(|c: ConnView| reset_conn(c, n)),
        listeners: v.listeners.map_values(|e: ListenerEntry| reset_listener(e, n)),
        ..v
    }
}

/// Changing the ends or the phase of a connection keeps the network well formed.
proof fn lemma_wf_conns_shape(v: NetView, w: NetView)
    requires
        w.listeners == v.listeners,
        w.conns.len() == v.conns.len(),
        forall|i: int| 0 <= i < v.conns.len() ==> (#[trigger] w.conns[i]).listener == v.conns[i].listener,
    ensures
        w.wf() == v.wf(),
{
    if v.wf() {
        assert forall|i: int| 0 <= i < w.conns.len() implies (#[trigger] w.conns[i]).listener < w.listeners.len() by {
            assert(v.conns[i].listener < v.listeners.len());
        }
    }
    if w.wf() {
        assert forall|i: int| 0 <= i < v.conns.len() implies (#[trigger] v.conns[i]).listener < v.listeners.len() by {
            assert(w.conns[i].listener < w.listeners.len());
        }
    }
}

struct Half {
    node: NodeId,
    addr: Addr,
    wbuf: Vec<u8>,
    inbox: Vec<u8>,
    shut: bool,
    reset: bool,
}

impl Half {
    closed spec fn view(&self) -> HalfView {
        HalfView {
            node: self.node,
            addr: self.addr,
            wbuf: self.wbuf@,
            inbox: self.inbox@,
            shut: self.shut,
            reset: self.reset,
        }
    }

    fn fresh(node: NodeId, addr: Addr) -> (r: Half)
        ensures
            r@ == HalfView::fresh(node, addr),
    {
        Half { node, addr, wbuf: Vec::new(), inbox: Vec::new(), shut: false, reset: false }
    }

    fn write(&mut self, bytes: &[u8])
        ensures
            final(self)@ == (HalfView { wbuf: old(self)@.wbuf + bytes@, ..old(self)@ }),
    {
        let mut i: usize = 0;
        while i < bytes.len()
            invariant
                i <= bytes@.len(),
                self@ == (HalfView { wbuf: old(self)@.wbuf + bytes@.subrange(0, i as int), ..old(self)@ }),
            decreases bytes@.len() - i,
        {
            self.wbuf.push(bytes[i]);
            proof {
                assert(old(self)@.wbuf + bytes@.subrange(0, i + 1) =~= old(self)@.wbuf + bytes@.subrange(0, i as int) + seq![bytes@[i as int]]);
                assert(self.wbuf@ =~= old(self)@.wbuf + bytes@.subrange(0, i + 1));
            }
            i += 1;
        }
        assert(bytes@.subrange(0, bytes@.len() as int) =~= bytes@);
    }

    fn flush_into(&mut self, to: &mut Half)
        ensures
            final(self)@ == (HalfView { wbuf: Seq::empty(), ..old(self)@ }),
            final(to)@ == (HalfView { inbox: old(to)@.inbox + old(self)@.wbuf, ..old(to)@ }),
    {
        to.inbox.append(&mut self.wbuf);
    }

    fn take(&mut self, max: usize) -> (r: Vec<u8>)
        requires
            old(self)@.inbox.len() > 0,
        ensures
            ({
                let k = if max < old(self)@.inbox.len() { max as int } else { old(self)@.inbox.len() as int };
                &&& r@ == old(self)@.inbox.subrange(0, k)
                &&& final(self)@ == (HalfView {
                    inbox: old(self)@.inbox.subrange(k, old(self)@.inbox.len() as int),
                    ..old(self)@
                })
            }),
    {
        let k = if max < self.inbox.len() { max } else { self.inbox.len() };
        let rest = self.inbox.split_off(k);
        let mut r = rest;
        std::mem::swap(&mut self.inbox, &mut r);
        r
    }
}

struct Conn {
    client: Half,
    server: Half,
    phase: Phase,
    listener: usize,
}

impl Conn {
    closed spec fn view(&self) -> ConnView {
        ConnView { client: self.client@, server: self.server@, phase: self.phase, listener: self.listener }
    }
}

/// The simulated network: fault state, nodes, listeners and connections.
pub struct Net {
    sim: NetSim,
    ips: Vec<u32>,
    listeners: Vec<ListenerEntry>,
    conns: Vec<Conn>,
}

impl Net {
    pub closed spec fn view(&self) -> NetView {
        NetView {
            sim: self.sim@,
            ips: self.ips@,
            listeners: self.listeners@,
            conns: self.conns@.map_values(|c: Conn| c@),
        }
    }

    /// An empty network with no fault in effect.
    pub fn new() -> (r: Net)
        ensures
            r@.wf(),
            r@.sim.down == Set::<NodeId>::empty(),
            r@.sim.cut == Set::<(NodeId, NodeId)>::empty(),
            r@.ips == Seq::<u32>::empty(),
            r@.listeners == Seq::<ListenerEntry>::empty(),
            r@.conns == Seq::<ConnView>::empty(),
    {
        let r = Net { sim: NetSim::new(), ips: Vec::new(), listeners: Vec::new(), conns: Vec::new() };
        assert(r@.conns =~= Seq::<ConnView>::empty());
        r
    }

    /// Adds a node with address identity `ip`; its id is returned.
    pub fn add_node(&mut self, ip: u32) -> (r: NodeId)
        requires
            old(self)@.ips.len() < u64::MAX,
        ensures
            r == old(self)@.ips.len(),
            final(self)@ == (NetView { ips: old(self)@.ips.push(ip), ..old(self)@ }),
    {
        let r = self.ips.len() as u64;
        self.ips.push(ip);
        assert(self@.conns =~= old(self)@.conns);
        r
    }

    /// Cuts `node` off from every other node.
    pub fn disconnect(&mut self, node: NodeId)
        ensures
            final(self)@ == disconnect_step(old(self)@, node),
    {
        self.sim.disconnect(node);
        assert(self@.conns =~= old(self)@.conns);
    }

    /// Makes `node` reachable again.
    pub fn connect(&mut self, node: NodeId)
        ensures
            final(self)@ == connect_node_step(old(self)@, node),
    {
        self.sim.connect(node);
        assert(self@.conns =~= old(self)@.conns);
    }

    /// Cuts the link between `a` and `b` only.
    pub fn disconnect2(&mut self, a: NodeId, b: NodeId)
        ensures
            final(self)@ == disconnect2_step(old(self)@, a, b),
    {
        self.sim.disconnect2(a, b);
        assert(self@.conns =~= old(self)@.conns);
    }

    /// Restores the link between `a` and `b`.
    pub fn connect2(&mut self, a: NodeId, b: NodeId)
        ensures
            final(self)@ == connect2_step(old(self)@, a, b),
    {
        self.sim.connect2(a, b);
        assert(self@.conns =~= old(self)@.conns);
    }

    /// Hard-resets node `n`: its connections are reset and its listeners closed.
    pub fn reset_node(&mut self, n: NodeId)
        requires
            old(self)@.wf(),
        ensures
            final(self)@ == reset_step(old(self)@, n),
            final(self)@.wf(),
    {
        let mut i: usize = 0;
        while i < self.conns.len()
            invariant
                i <= self.conns@.len(),
                self.conns@.len() == old(self).conns@.len(),
                self.sim == old(self).sim,
                self.ips == old(self).ips,
                self.listeners == old(self).listeners,
                forall|k: int| 0 <= k < i ==> #[trigger] self.conns@[k]@ == reset_conn(old(self).conns@[k]@, n),
                forall|k: int| i <= k < self.conns@.len() ==> #[trigger] self.conns@[k] == old(self).conns@[k],
            decreases self.conns@.len() - i,
        {
            let c = &mut self.conns[i];
            if c.client.node == n || c.server.node == n {
                c.phase = match c.phase {
                    Phase::Open | Phase::Reset => Phase::Reset,
                    _ => Phase::Refused,
                };
                if c.client.node == n {
                    c.client.reset = true;
                }
                if c.server.node == n {
                    c.server.reset = true;
                }
            }
            i += 1;
        }
        let mut j: usize = 0;
        while j < self.listeners.len()
            invariant
                j <= self.listeners@.len(),
                self.listeners@.len() == old(self).listeners@.len(),
                self.sim == old(self).sim,
                self.ips == old(self).ips,
                self.conns@.len() == old(self).conns@.len(),
                forall|k: int| 0 <= k < self.conns@.len() ==> #[trigger] self.conns@[k]@ == reset_conn(old(self).conns@[k]@, n),
                forall|k: int| 0 <= k < j ==> #[trigger] self.listeners@[k] == reset_listener(old(self).listeners@[k], n),
                forall|k: int| j <= k < self.listeners@.len() ==> #[trigger] self.listeners@[k] == old(self).listeners@[k],
            decreases self.listeners@.len() - j,
        {
            if self.listeners[j].node == n {
                let e = self.listeners[j];
                self.listeners.set(j, ListenerEntry { live: false, ..e });
            }
            j += 1;
        }
        assert(self@.conns =~= reset_step(old(self)@, n).conns);
        assert(self@.listeners =~= reset_step(old(self)@, n).listeners);
    }

    /// Binds a listener of `node` at `addr`.
    pub fn bind(&mut self, node: NodeId, addr: Addr) -> (r: Result<TcpListener, NetError>)
        requires
            old(self)@.wf(),
        ensures
            (final(self)@, r) == bind_step(old(self)@, node, addr),
            final(self)@.wf(),
    {
        let mut j: usize = 0;
        while j < self.listeners.len()
            invariant
                j <= self.listeners@.len(),
                self@ == old(self)@,
                self@.wf(),
                forall|k: int| 0 <= k < j ==> !self@.listens_at(k, addr),
            decreases self.listeners@.len() - j,
        {
            if self.listeners[j].live && self.listeners[j].addr == addr {
                assert(self@.listens_at(j as int, addr));
                return Err(NetError::AddrInUse);
            }
            j += 1;
        }
        let id = self.listeners.len();
        let ghost v0 = self@;
        self.listeners.push(ListenerEntry { node, addr, live: true });
        assert(self@.conns =~= old(self)@.conns);
        assert forall|a: int, b: int|
            0 <= a < self@.listeners.len() && 0 <= b < self@.listeners.len()
                && (#[trigger] self@.listeners[a]).live && (#[trigger] self@.listeners[b]).live
                && self@.listeners[a].addr == self@.listeners[b].addr implies a == b by {
            if a < id {
                assert(self@.listeners[a] == v0.listeners[a]);
                assert(!v0.listens_at(a, addr));
            }
            if b < id {
                assert(self@.listeners[b] == v0.listeners[b]);
                assert(!v0.listens_at(b, addr));
            }
        }
        Ok(TcpListener { id })
    }

    /// Closes listener `l`: its pending and future accepts fail.
    pub fn close_listener(&mut self, l: TcpListener)
        requires
            old(self)@.wf(),
            old(self)@.valid_listener(l),
        ensures
            final(self)@ == close_listener_step(old(self)@, l),
            final(self)@.wf(),
    {
        let e = self.listeners[l.id];
        self.listeners.set(l.id, ListenerEntry { live: false, ..e });
        assert(self@.conns =~= old(self)@.conns);
    }

    /// Requests a connection from `node` to the listener at `addr`. The
    /// returned connecting end is established once `poll_connect` is ready.
    pub fn connect_to(&mut self, node: NodeId, addr: Addr) -> (r: Result<TcpStream, NetError>)
        requires
            old(self)@.wf(),
            node < old(self)@.ips.len(),
            old(self)@.conns.len() < usize::MAX,
        ensures
            (final(self)@, r) == connect_step(old(self)@, node, addr),
            final(self)@.wf(),
    {
        let mut j: usize = 0;
        while j < self.listeners.len()
            invariant
                j <= self.listeners@.len(),
                self@ == old(self)@,
                forall|k: int| 0 <= k < j ==> !self@.listens_at(k, addr),
            ensures
                j <= self.listeners@.len(),
                self@ == old(self)@,
                j < self.listeners@.len() ==> self@.listens_at(j as int, addr),
                forall|k: int| 0 <= k < j ==> !self@.listens_at(k, addr),
            decreases self.listeners@.len() - j,
        {
            if self.listeners[j].live && self.listeners[j].addr == addr {
                break;
            }
            j += 1;
        }
        if j == self.listeners.len() {
            return Err(NetError::ConnectionRefused);
        }
        assert(self@.listens_at(j as int, addr));
        assert(j == choose|k: int| self@.listens_at(k, addr));
        let server = self.listeners[j].node;
        if !self.sim.reachable(node, server) {
            return Err(NetError::Unreachable);
        }
        let i = self.conns.len();
        let port = (49152 + i % 16384) as u16;
        let n_nodes = self.ips.len();
        assert(node < n_nodes);
        let ip = self.ips[node as usize];
        let client = Half::fresh(node, Addr { ip, port });
        let server_half = Half::fresh(server, addr);
        self.conns.push(Conn { client, server: server_half, phase: Phase::Connecting, listener: j });
        assert(self@.conns =~= connect_step(old(self)@, node, addr).0.conns);
        Ok(TcpStream { conn: i, client: true })
    }

    /// Polls the establishment of a connecting end.
    pub fn poll_connect(&mut self, s: TcpStream) -> (r: Poll<Result<(), NetError>>)
        requires
            old(self)@.wf(),
            old(self)@.valid_stream(s),
            s.client,
        ensures
            (final(self)@, r) == poll_connect_step(old(self)@, s),
            final(self)@.wf(),
    {
        let phase = self.conns[s.conn].phase;
        match phase {
            Phase::Open => Poll::Ready(Ok(())),
            Phase::Refused => Poll::Ready(Err(NetError::ConnectionRefused)),
            Phase::Reset => Poll::Ready(Err(NetError::ConnectionReset)),
            Phase::Connecting => {
                assert(self@.conns[s.conn as int] == self.conns@[s.conn as int]@);
                let live = self.listeners[self.conns[s.conn].listener].live;
                let reach = self.sim.reachable(self.conns[s.conn].client.node, self.conns[s.conn].server.node);
                if live && reach {
                    Poll::Pending
                } else {
                    self.conns[s.conn].phase = Phase::Refused;
                    assert(self@.conns =~= old(self)@.with_phase(s.conn as int, Phase::Refused).conns);
                    if !live {
                        Poll::Ready(Err(NetError::ConnectionRefused))
                    } else {
                        Poll::Ready(Err(NetError::Unreachable))
                    }
                }
            },
        }
    }

    /// Takes the earliest pending request to `l` whose ends can reach each
    /// other, and establishes it.
    pub fn accept(&mut self, l: TcpListener) -> (r: Poll<Result<(TcpStream, Addr), NetError>>)
        requires
            old(self)@.wf(),
            old(self)@.valid_listener(l),
        ensures
            (final(self)@, r) == accept_step(old(self)@, l),
            final(self)@.wf(),
    {
        if !self.listeners[l.id].live {
            return Poll::Ready(Err(NetError::ListenerClosed));
        }
        let mut i: usize = 0;
        while i < self.conns.len()
            invariant
                i <= self.conns@.len(),
                self@ == old(self)@,
                forall|k: int| 0 <= k < i ==> !self@.acceptable(l, k),
            ensures
                i <= self.conns@.len(),
                self@ == old(self)@,
                forall|k: int| 0 <= k < i ==> !self@.acceptable(l, k),
                i < self.conns@.len() ==> self@.acceptable(l, i as int),
            decreases self.conns@.len() - i,
        {
            assert(self@.conns[i as int] == self.conns@[i as int]@);
            let c = &self.conns[i];
            if c.listener == l.id && c.phase == Phase::Connecting && self.sim.reachable(c.client.node, c.server.node) {
                break;
            }
            i += 1;
        }
        if i == self.conns.len() {
            return Poll::Pending;
        }
        let ghost v = self@;
        assert(first_acceptable(v, l, i as int));
        assert(exists|k: int| v.acceptable(l, k));
        let ghost w = choose|k: int| first_acceptable(v, l, k);
        assert(w == i) by {
            if w < i {
                assert(!v.acceptable(l, w));
            }
            if w > i {
                assert(!v.acceptable(l, i as int));
            }
        }
        let peer = self.conns[i].client.addr;
        self.conns[i].phase = Phase::Open;
        assert(self@.conns =~= v.with_phase(i as int, Phase::Open).conns);
        Poll::Ready(Ok((TcpStream { conn: i, client: false }, peer)))
    }

    /// Appends `bytes` to the local write buffer; `flush` sends them.
    pub fn write(&mut self, s: TcpStream, bytes: &[u8]) -> (r: Result<usize, NetError>)
        requires
            old(self)@.valid_stream(s),
        ensures
            (final(self)@, r) == write_step(old(self)@, s, bytes@),
            final(self)@.wf() == old(self)@.wf(),
    {
        assert(self@.conns[s.conn as int] == self.conns@[s.conn as int]@);
        match self.conns[s.conn].phase {
            Phase::Connecting => { return Err(NetError::NotConnected); },
            Phase::Refused => { return Err(NetError::ConnectionRefused); },
            Phase::Reset => { return Err(NetError::ConnectionReset); },
            Phase::Open => {},
        }
        let shut = if s.client { self.conns[s.conn].client.shut } else { self.conns[s.conn].server.shut };
        if shut {
            return Err(NetError::BrokenPipe);
        }
        if !self.sim.both_up(self.conns[s.conn].client.node, self.conns[s.conn].server.node) {
            return Err(NetError::Unreachable);
        }
        let c = &mut self.conns[s.conn];
        if s.client {
            c.client.write(bytes);
        } else {
            c.server.write(bytes);
        }
        assert(self@.conns =~= write_step(old(self)@, s, bytes@).0.conns);
        proof {
            lemma_wf_conns_shape(old(self)@, self@);
        }
        Ok(bytes.len())
    }

    /// Sends the written bytes to the other end, in order.
    pub fn flush(&mut self, s: TcpStream) -> (r: Result<(), NetError>)
        requires
            old(self)@.valid_stream(s),
        ensures
            (final(self)@, r) == flush_step(old(self)@, s),
            final(self)@.wf() == old(self)@.wf(),
    {
        assert(self@.conns[s.conn as int] == self.conns@[s.conn as int]@);
        match self.conns[s.conn].phase {
            Phase::Connecting => { return Err(NetError::NotConnected); },
            Phase::Refused => { return Err(NetError::ConnectionRefused); },
            Phase::Reset => { return Err(NetError::ConnectionReset); },
            Phase::Open => {},
        }
        if !self.sim.both_up(self.conns[s.conn].client.node, self.conns[s.conn].server.node) {
            return Err(NetError::Unreachable);
        }
        let c = &mut self.conns[s.conn];
        if s.client {
            c.client.flush_into(&mut c.server);
        } else {
            c.server.flush_into(&mut c.client);
        }
        assert(self@.conns =~= flush_step(old(self)@, s).0.conns);
        proof {
            lemma_wf_conns_shape(old(self)@, self@);
        }
        Ok(())
    }

    /// Reads at most `max` bytes that arrived at `s`, in send order. An empty
    /// result is end-of-stream.
    pub fn read(&mut self, s: TcpStream, max: usize) -> (r: Poll<Result<Vec<u8>, NetError>>)
        requires
            old(self)@.valid_stream(s),
        ensures
            final(self)@ == read_step(old(self)@, s, max).0,
            match (r, read_step(old(self)@, s, max).1) {
                (Poll::Ready(Ok(b)), Poll::Ready(Ok(m))) => b@ == m,
                (Poll::Ready(Err(e)), Poll::Ready(Err(f))) => e == f,
                (Poll::Pending, Poll::Pending) => true,
                _ => false,
            },
            final(self)@.wf() == old(self)@.wf(),
    {
        assert(self@.conns[s.conn as int] == self.conns@[s.conn as int]@);
        let c = &self.conns[s.conn];
        let me_reset = if s.client { c.client.reset } else { c.server.reset };
        match c.phase {
            Phase::Connecting => { return Poll::Ready(Err(NetError::NotConnected)); },
            Phase::Refused => { return Poll::Ready(Err(NetError::ConnectionRefused)); },
            Phase::Reset => {
                if me_reset {
                    return Poll::Ready(Err(NetError::ConnectionReset));
                } else {
                    return Poll::Ready(Ok(Vec::new()));
                }
            },
            Phase::Open => {},
        }
        if !self.sim.both_up(c.client.node, c.server.node) {
            return Poll::Ready(Err(NetError::Unreachable));
        }
        if !self.sim.reachable(c.client.node, c.server.node) {
            return Poll::Pending;
        }
        let (avail, peer_shut) = if s.client {
            (c.client.inbox.len(), c.server.shut)
        } else {
            (c.server.inbox.len(), c.client.shut)
        };
        if avail == 0 {
            if peer_shut {
                return Poll::Ready(Ok(Vec::new()));
            } else {
                return Poll::Pending;
            }
        }
        let c = &mut self.conns[s.conn];
        let out = if s.client { c.client.take(max) } else { c.server.take(max) };
        assert(self@.conns =~= read_step(old(self)@, s, max).0.conns);
        proof {
            lemma_wf_conns_shape(old(self)@, self@);
        }
        Poll::Ready(Ok(out))
    }

    /// Flushes, then shuts the local write side: once the other end has read
    /// everything, its reads report end-of-stream.
    pub fn shutdown(&mut self, s: TcpStream) -> (r: Result<(), NetError>)
        requires
            old(self)@.valid_stream(s),
        ensures
            (final(self)@, r) == shutdown_step(old(self)@, s),
            final(self)@.wf() == old(self)@.wf(),
    {
        let r = self.flush(s);
        if r.is_err() {
            return r;
        }
        let ghost w = self@;
        assert(self@.conns[s.conn as int] == self.conns@[s.conn as int]@);
        let c = &mut self.conns[s.conn];
        if s.client {
            c.client.shut = true;
        } else {
            c.server.shut = true;
        }
        assert(self@.conns =~= w.with_halves(s, HalfView { shut: true, ..w.local(s) }, w.remote(s)).conns);
        proof {
            lemma_wf_conns_shape(w, self@);
        }
        Ok(())
    }

    /// Drops the end `s`: the other end is told of the close, so that its
    /// reads end cleanly, if the two nodes are up; otherwise nothing is sent.
    pub fn close_stream(&mut self, s: TcpStream)
        requires
            old(self)@.valid_stream(s),
        ensures
            final(self)@ == shutdown_step(old(self)@, s).0,
            final(self)@.wf() == old(self)@.wf(),
    {
        let _ = self.shutdown(s);
    }

    /// The state of the stream `s`, seen from its own end.
    pub fn state(&self, s: TcpStream) -> (r: StreamState)
        requires
            self@.valid_stream(s),
        ensures
            r == self@.state_of(s),
    {
        assert(self@.conns[s.conn as int] == self.conns@[s.conn as int]@);
        let c = &self.conns[s.conn];
        let (mine, theirs) = if s.client { (c.client.shut, c.server.shut) } else { (c.server.shut, c.client.shut) };
        match c.phase {
            Phase::Connecting => StreamState::Connecting,
            Phase::Refused => StreamState::Refused,
            Phase::Reset => StreamState::Reset,
            Phase::Open => if mine && theirs {
                StreamState::Closed
            } else if mine {
                StreamState::HalfClosed
            } else {
                StreamState::Open
            },
        }
    }
}

} // verus!
