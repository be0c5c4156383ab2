//! Fault-injection controller: which nodes and which node pairs are cut off.
use vstd::prelude::*;

verus! {

/// Identity of a simulation participant.
pub type NodeId = u64;

/// The unordered pair `{a, b}`, written with the smaller node first.
pub open spec fn pair_key(a: NodeId, b: NodeId) -> (NodeId, NodeId) {
    if a <= b { (a, b) } else { (b, a) }
}

/// Mathematical state of the controller.
pub struct NetSimView {
    /// Nodes that are globally disconnected.
    pub down: Set<NodeId>,
    /// Node pairs (as `pair_key`) that are disconnected from each other.
    pub cut: Set<(NodeId, NodeId)>,
}

impl NetSimView {
    /// Neither node is globally disconnected.
    pub open spec fn both_up(self, a: NodeId, b: NodeId) -> bool {
        !self.down.contains(a) && !self.down.contains(b)
    }

    /// Traffic between `a` and `b` can flow right now.
    pub open spec fn reachable(self, a: NodeId, b: NodeId) -> bool {
        self.both_up(a, b) && !self.cut.contains(pair_key(a, b))
    }
}

/// Registry of node reachability and pairwise connectivity.
pub struct NetSim {
    down: Vec<NodeId>,
    cut: Vec<(NodeId, NodeId)>,
}

/// Membership in a sequence after a push.
proof fn lemma_push_contains<T>(s: Seq<T>, y: T, z: T)
    ensures
        s.push(y).contains(z) <==> (s.contains(z) || z == y),
{
    if s.push(y).contains(z) {
        let k = choose|k: int| 0 <= k < s.push(y).len() && s.push(y)[k] == z;
        if k < s.len() {
            assert(s[k] == z);
        }
    }
    if s.contains(z) {
        let k = choose|k: int| 0 <= k < s.len() && s[k] == z;
        assert(s.push(y)[k] == z);
    }
    if z == y {
        assert(s.push(y)[s.len() as int] == z);
    }
}

/// `s` as a set, without the element `x`.
fn without_node(s: &Vec<NodeId>, x: NodeId) -> (r: Vec<NodeId>)
    ensures
        r@.to_set() == s@.to_set().remove(x),
{
    let mut r: Vec<NodeId> = Vec::new();
    let mut i: usize = 0;
    while i < s.len()
        invariant
            i <= s@.len(),
            forall|y: NodeId| r@.contains(y) <==> (s@.subrange(0, i as int).contains(y) && y != x),
        decreases s@.len() - i,
    {
        let y = s[i];
        let ghost old_r = r@;
        if y != x {
            r.push(y);
        }
        proof {
            assert(s@.subrange(0, i + 1) =~= s@.subrange(0, i as int).push(y));
            assert forall|z: NodeId| r@.contains(z) <==> (s@.subrange(0, i + 1).contains(z) && z != x) by {
                lemma_push_contains(s@.subrange(0, i as int), y, z);
                lemma_push_contains(old_r, y, z);
            }
        }
        i += 1;
    }
    proof {
        assert(s@.subrange(0, s@.len() as int) =~= s@);
        assert(r@.to_set() =~= s@.to_set().remove(x));
    }
    r
}

/// Whether `x` occurs in `s`.
fn holds_node(s: &Vec<NodeId>, x: NodeId) -> (r: bool)
    ensures
        r == s@.to_set().contains(x),
{
    let mut i: usize = 0;
    while i < s.len()
        invariant
            i <= s@.len(),
            forall|j: int| 0 <= j < i ==> s@[j] != x,
        decreases s@.len() - i,
    {
        if s[i] == x {
            assert(s@.contains(x));
            return true;
        }
        i += 1;
    }
    false
}

/// `s` as a set, without the element `x`.
fn without_pair(s: &Vec<(NodeId, NodeId)>, x: (NodeId, NodeId)) -> (r: Vec<(NodeId, NodeId)>)
    ensures
        r@.to_set() == s@.to_set().remove(x),
{
    let mut r: Vec<(NodeId, NodeId)> = Vec::new();
    let mut i: usize = 0;
    while i < s.len()
        invariant
            i <= s@.len(),
            forall|y: (NodeId, NodeId)| r@.contains(y) <==> (s@.subrange(0, i as int).contains(y) && y != x),
        decreases s@.len() - i,
    {
        let y = s[i];
        let ghost old_r = r@;
        if y.0 != x.0 || y.1 != x.1 {
            r.push(y);
        }
        proof {
            assert(s@.subrange(0, i + 1) =~= s@.subrange(0, i as int).push(y));
            assert forall|z: (NodeId, NodeId)| r@.contains(z) <==> (s@.subrange(0, i + 1).contains(z) && z != x) by {
                lemma_push_contains(s@.subrange(0, i as int), y, z);
                lemma_push_contains(old_r, y, z);
            }
        }
        i += 1;
    }
    proof {
        assert(s@.subrange(0, s@.len() as int) =~= s@);
        assert(r@.to_set() =~= s@.to_set().remove(x));
    }
    r
}

/// Whether `x` occurs in `s`.
fn holds_pair(s: &Vec<(NodeId, NodeId)>, x: (NodeId, NodeId)) -> (r: bool)
    ensures
        r == s@.to_set().contains(x),
{
    let mut i: usize = 0;
    while i < s.len()
        invariant
            i <= s@.len(),
            forall|j: int| 0 <= j < i ==> s@[j] != x,
        decreases s@.len() - i,
    {
        if s[i].0 == x.0 && s[i].1 == x.1 {
            assert(s@.contains(x));
            return true;
        }
        i += 1;
    }
    false
}

impl NetSim {
    pub closed spec fn view(&self) -> NetSimView {
        NetSimView { down: self.down@.to_set(), cut: self.cut@.to_set() }
    }

    /// A controller under which every node reaches every other.
    pub fn new() -> (r: NetSim)
        ensures
            r@.down == Set::<NodeId>::empty(),
            r@.cut == Set::<(NodeId, NodeId)>::empty(),
    {
        let r = NetSim { down: Vec::new(), cut: Vec::new() };
        assert(r@.down =~= Set::<NodeId>::empty());
        assert(r@.cut =~= Set::<(NodeId, NodeId)>::empty());
        r
    }

    /// Cuts `node` off from every other node.
    pub fn disconnect(&mut self, node: NodeId)
        ensures
            final(self)@.down == old(self)@.down.insert(node),
            final(self)@.cut == old(self)@.cut,
    {
        self.down.push(node);
        assert forall|z: NodeId| self.down@.contains(z) <==> old(self).down@.contains(z) || z == node by {
            lemma_push_contains(old(self).down@, node, z);
        }
        assert(self.down@.to_set() =~= old(self).down@.to_set().insert(node));
    }

    /// Makes `node` globally reachable again.
    pub fn connect(&mut self, node: NodeId)
        ensures
            final(self)@.down == old(self)@.down.remove(node),
            final(self)@.cut == old(self)@.cut,
    {
        self.down = without_node(&self.down, node);
    }

    /// Cuts the link between `a` and `b` only.
    pub fn disconnect2(&mut self, a: NodeId, b: NodeId)
        ensures
            final(self)@.cut == old(self)@.cut.insert(pair_key(a, b)),
            final(self)@.down == old(self)@.down,
    {
        let k = if a <= b { (a, b) } else { (b, a) };
        self.cut.push(k);
        assert forall|z: (NodeId, NodeId)| self.cut@.contains(z) <==> old(self).cut@.contains(z) || z == k by {
            lemma_push_contains(old(self).cut@, k, z);
        }
        assert(self.cut@.to_set() =~= old(self).cut@.to_set().insert(k));
    }

    /// Restores the link between `a` and `b`.
    pub fn connect2(&mut self, a: NodeId, b: NodeId)
        ensures
            final(self)@.cut == old(self)@.cut.remove(pair_key(a, b)),
            final(self)@.down == old(self)@.down,
    {
        let k = if a <= b { (a, b) } else { (b, a) };
        self.cut = without_pair(&self.cut, k);
    }

    /// Whether `node` is globally disconnected.
    pub fn is_down(&self, node: NodeId) -> (r: bool)
        ensures
            r == self@.down.contains(node),
    {
        holds_node(&self.down, node)
    }

    /// Whether neither node is globally disconnected.
    pub fn both_up(&self, a: NodeId, b: NodeId) -> (r: bool)
        ensures
            r == self@.both_up(a, b),
    {
        !self.is_down(a) && !self.is_down(b)
    }

    /// Whether traffic between `a` and `b` can flow right now.
    pub fn reachable(&self, a: NodeId, b: NodeId) -> (r: bool)
        ensures
            r == self@.reachable(a, b),
    {
        let k = if a <= b { (a, b) } else { (b, a) };
        self.both_up(a, b) && !holds_pair(&self.cut, k)
    }
}

} // verus!
