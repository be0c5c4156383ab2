//! Tagged streaming channel: a one-shot sequence of typed items received from
//! successive tags of an endpoint, ended by a sentinel.
use vstd::prelude::*;
use crate::netsim::{NetSim, NetSimView, NodeId};
use crate::tcp::{NetError, Poll};

verus! {

/// What travels on a tag: an item, or the end-of-stream sentinel.
#[derive(PartialEq, Eq, Debug)]
pub enum Msg<T> {
    Item(T),
    End,
}

/// A message waiting in an endpoint: its tag, its sender and its content.
pub struct Slot<T> {
    pub tag: u64,
    pub from: NodeId,
    pub msg: Msg<T>,
}

/// Tag-addressed mailbox of one node.
pub struct Endpoint<T> {
    node: NodeId,
    slots: Vec<Slot<T>>,
}

/// Handle of a background task that sends the outbound half of an exchange.
#[derive(Clone, Copy, PartialEq, Eq, Structural, Debug)]
pub struct TaskHandle {
    pub id: u64,
}

/// `slots[i]` is the earliest message waiting on `tag`.
pub open spec fn first_on_tag<T>(slots: Seq<Slot<T>>, tag: u64, i: int) -> bool {
    &&& 0 <= i < slots.len()
    &&& slots[i].tag == tag
    &&& forall|k: int| 0 <= k < i ==> slots[k].tag != tag
}

/// What `Endpoint::recv` does: it looks at the earliest message on `tag`. It
/// fails while the receiving node or that message's sender is down, holds the
/// message back while only the pair is cut, and otherwise takes it.
pub open spec fn recv_step<T>(slots: Seq<Slot<T>>, node: NodeId, sim: NetSimView, tag: u64) -> (
    Seq<Slot<T>>,
    Poll<Result<(NodeId, Msg<T>), NetError>>,
) {
    if sim.down.contains(node) {
        (slots, Poll::Ready(Err(NetError::Unreachable)))
    } else if !exists|i: int| first_on_tag(slots, tag, i) {
        (slots, Poll::Pending)
    } else {
        let i = choose|i: int| first_on_tag(slots, tag, i);
        if sim.down.contains(slots[i].from) {
            (slots, Poll::Ready(Err(NetError::Unreachable)))
        } else if !sim.reachable(slots[i].from, node) {
            (slots, Poll::Pending)
        } else {
            (slots.remove(i), Poll::Ready(Ok((slots[i].from, slots[i].msg))))
        }
    }
}

impl<T> Endpoint<T> {
    pub closed spec fn node(&self) -> NodeId {
        self.node
    }

    pub closed spec fn view(&self) -> Seq<Slot<T>> {
        self.slots@
    }

    /// An empty mailbox of `node`.
    pub fn new(node: NodeId) -> (r: Endpoint<T>)
        ensures
            r.node() == node,
            r@ == Seq::<Slot<T>>::empty(),
    {
        Endpoint { node, slots: Vec::new() }
    }

    /// Delivers `msg` from `from` on `tag`; fails while the two nodes cannot reach
    /// each other.
    pub fn send(&mut self, sim: &NetSim, from: NodeId, tag: u64, msg: Msg<T>) -> (r: Result<(), NetError>)
        ensures
            final(self).node() == old(self).node(),
            sim@.reachable(from, old(self).node()) ==> r == Ok::<(), NetError>(()) && final(self)@ == old(
                self,
            )@.push(Slot { tag, from, msg }),
            !sim@.reachable(from, old(self).node()) ==> r == Err::<(), NetError>(NetError::Unreachable)
                && final(self)@ == old(self)@,
    {
        if !sim.reachable(from, self.node) {
            return Err(NetError::Unreachable);
        }
        self.slots.push(Slot { tag, from, msg });
        Ok(())
    }

    /// Receives the earliest message on `tag`, re-reading the fault state.
    pub fn recv(&mut self, sim: &NetSim, tag: u64) -> (r: Poll<Result<(NodeId, Msg<T>), NetError>>)
        ensures
            final(self).node() == old(self).node(),
            (final(self)@, r) == recv_step(old(self)@, old(self).node(), sim@, tag),
    {
        if sim.is_down(self.node) {
            return Poll::Ready(Err(NetError::Unreachable));
        }
        let mut i: usize = 0;
        while i < self.slots.len()
            invariant
                i <= self.slots@.len(),
                *self == *old(self),
                forall|k: int| 0 <= k < i ==> self@[k].tag != tag,
            ensures
                i <= self.slots@.len(),
                *self == *old(self),
                forall|k: int| 0 <= k < i ==> self@[k].tag != tag,
                i < self.slots@.len() ==> self@[i as int].tag == tag,
            decreases self.slots@.len() - i,
        {
            if self.slots[i].tag == tag {
                break;
            }
            i += 1;
        }
        if i == self.slots.len() {
            assert forall|k: int| !first_on_tag(self@, tag, k) by {
                if 0 <= k < i {
                }
            }
            return Poll::Pending;
        }
        assert(first_on_tag(self@, tag, i as int));
        let ghost c = choose|k: int| first_on_tag(self@, tag, k);
        assert(c == i) by {
            if c < i {
                assert(self@[c].tag != tag);
            }
            if c > i {
                assert(self@[i as int].tag != tag);
            }
        }
        let from = self.slots[i].from;
        if sim.is_down(from) {
            return Poll::Ready(Err(NetError::Unreachable));
        }
        if !sim.reachable(from, self.node) {
            return Poll::Pending;
        }
        let slot = self.slots.remove(i);
        Poll::Ready(Ok((slot.from, slot.msg)))
    }
}

/// Mathematical state of a channel.
pub struct StreamingView<T> {
    /// Results still to hand out, for a channel made from ready results.
    pub ready: Seq<Result<T, NetError>>,
    /// The next tag to receive from, for a channel fed by an endpoint.
    pub next_tag: Option<u64>,
    /// The node whose messages a channel fed by an endpoint receives.
    pub peer: NodeId,
    /// The sequence has ended; it cannot restart.
    pub done: bool,
    /// The paired background sender, still owned by the channel.
    pub task: Option<TaskHandle>,
}

/// What `Streaming::message` does, given the channel, the mailbox of the
/// receiving `node`, and the fault state. It returns the new channel, the new
/// mailbox and the result.
pub open spec fn pull_step<T>(sv: StreamingView<T>, slots: Seq<Slot<T>>, node: NodeId, sim: NetSimView) -> (
    StreamingView<T>,
    Seq<Slot<T>>,
    Poll<Result<Option<T>, NetError>>,
) {
    if sv.done {
        (sv, slots, Poll::Ready(Ok(None)))
    } else {
        match sv.next_tag {
            None => if sv.ready.len() == 0 {
                (StreamingView { done: true, ..sv }, slots, Poll::Ready(Ok(None)))
            } else {
                let rest = StreamingView { ready: sv.ready.drop_first(), ..sv };
                match sv.ready[0] {
                    Ok(x) => (rest, slots, Poll::Ready(Ok(Some(x)))),
                    Err(e) => (rest, slots, Poll::Ready(Err(e))),
                }
            },
            Some(tag) => if sim.down.contains(sv.peer) {
                (StreamingView { done: true, ..sv }, slots, Poll::Ready(Err(NetError::Unreachable)))
            } else {
                let (s2, r) = recv_step(slots, node, sim, tag);
                match r {
                    Poll::Pending => (sv, slots, Poll::Pending),
                    Poll::Ready(Err(e)) => (StreamingView { done: true, ..sv }, s2, Poll::Ready(Err(e))),
                    Poll::Ready(Ok((_, Msg::End))) => (StreamingView { done: true, ..sv }, s2, Poll::Ready(Ok(None))),
                    Poll::Ready(Ok((_, Msg::Item(x)))) => (
                        if tag == u64::MAX {
                            StreamingView { done: true, ..sv }
                        } else {
                            StreamingView { next_tag: Some((tag + 1) as u64), ..sv }
                        },
                        s2,
                        Poll::Ready(Ok(Some(x))),
                    ),
                }
            },
        }
    }
}

/// Streaming requests and responses: a lazy, finite, one-shot sequence of
/// items.
pub struct Streaming<T> {
    ready: Vec<Result<T, NetError>>,
    next_tag: Option<u64>,
    peer: NodeId,
    done: bool,
    task: Option<TaskHandle>,
}

impl<T> Streaming<T> {
    pub closed spec fn view(&self) -> StreamingView<T> {
        StreamingView { ready: self.ready@, next_tag: self.next_tag, peer: self.peer, done: self.done, task: self.task }
    }

    /// A channel that receives the messages of node `peer` from the endpoint,
    /// starting at `tag`. For a bidirectional exchange, `request_sending_task`
    /// is the task sending the requests; it is cancelled when the channel is
    /// closed.
    pub fn new(tag: u64, peer: NodeId, request_sending_task: Option<TaskHandle>) -> (r: Streaming<T>)
        ensures
            r@ == (StreamingView::<T> {
                ready: Seq::empty(),
                next_tag: Some(tag),
                peer,
                done: false,
                task: request_sending_task,
            }),
    {
        Streaming { ready: Vec::new(), next_tag: Some(tag), peer, done: false, task: request_sending_task }
    }

    /// A channel that hands out `items` in order, errors included, and then
    /// ends.
    pub fn from_stream(items: Vec<Result<T, NetError>>) -> (r: Streaming<T>)
        ensures
            r@ == (StreamingView::<T> { ready: items@, next_tag: None, peer: 0, done: false, task: None }),
    {
        Streaming { ready: items, next_tag: None, peer: 0, done: false, task: None }
    }

    /// Fetches the next item: `Some(item)`, `None` once the sequence has ended,
    /// or a failure. `Pending` means nothing has arrived yet; every call
    /// re-reads the fault state.
    pub fn message(&mut self, ep: &mut Endpoint<T>, sim: &NetSim) -> (r: Poll<Result<Option<T>, NetError>>)
        ensures
            final(ep).node() == old(ep).node(),
            (final(self)@, final(ep)@, r) == pull_step(old(self)@, old(ep)@, old(ep).node(), sim@),
    {
        if self.done {
            return Poll::Ready(Ok(None));
        }
        match self.next_tag {
            None => {
                if self.ready.len() == 0 {
                    self.done = true;
                    Poll::Ready(Ok(None))
                } else {
                    let x = self.ready.remove(0);
                    assert(self.ready@ =~= old(self)@.ready.drop_first());
                    match x {
                        Ok(v) => Poll::Ready(Ok(Some(v))),
                        Err(e) => Poll::Ready(Err(e)),
                    }
                }
            },
            Some(tag) => {
                if sim.is_down(self.peer) {
                    self.done = true;
                    return Poll::Ready(Err(NetError::Unreachable));
                }
                match ep.recv(sim, tag) {
                    Poll::Pending => Poll::Pending,
                    Poll::Ready(Err(e)) => {
                        self.done = true;
                        Poll::Ready(Err(e))
                    },
                    Poll::Ready(Ok((_, Msg::End))) => {
                        self.done = true;
                        Poll::Ready(Ok(None))
                    },
                    Poll::Ready(Ok((_, Msg::Item(x)))) => {
                        if tag == u64::MAX {
                            self.done = true;
                        } else {
                            self.next_tag = Some(tag + 1);
                        }
                        Poll::Ready(Ok(Some(x)))
                    },
                }
            },
        }
    }

    /// Discards the channel. The paired background sender, if any, is handed
    /// back for cancellation: it must not outlive the exchange.
    pub fn close(self) -> (r: Option<TaskHandle>)
        ensures
            r == self@.task,
    {
        self.task
    }
}

} // verus!
