//! Trust topology: node declarations, validation and the spawn order.
use vstd::prelude::*;
use vstd::set_lib::{lemma_int_range, lemma_len_subset, set_int_range};
use vstd::string::StringExecFns;

verus! {

/// Whether a node takes part in block production.
#[derive(Debug, Clone, Copy, PartialEq, Eq, Structural)]
pub enum LeadershipMode {
    Leader,
    Passive,
}

/// Whether a node's chain storage survives a restart.
#[derive(Debug, Clone, Copy, PartialEq, Eq, Structural)]
pub enum PersistenceMode {
    Persistent,
    InMemory,
}

/// Where a node finds its genesis block: by hash (as bytes), or in a file (by path).
#[derive(Debug, Clone, PartialEq, Eq)]
pub enum NodeBlock0 {
    Hash(Vec<u8>),
    File(String),
}

/// Declaration of one node of a test network.
#[derive(Debug, Clone)]
pub struct NodeDescriptor {
    pub alias: String,
    /// Aliases of the peers this node trusts, without repetition, in the order given.
    pub trusted_peers: Vec<String>,
    pub leadership: LeadershipMode,
    pub persistence: PersistenceMode,
}

/// Mathematical model of a [`NodeDescriptor`].
pub struct NodeDescriptorView {
    pub alias: Seq<char>,
    pub trusted_peers: Seq<Seq<char>>,
    pub leadership: LeadershipMode,
    pub persistence: PersistenceMode,
}

impl View for NodeDescriptor {
    type V = NodeDescriptorView;

    open spec fn view(&self) -> NodeDescriptorView {
        NodeDescriptorView {
            alias: self.alias@,
            trusted_peers: self.trusted_peers@.map_values(|s: String| s@),
            leadership: self.leadership,
            persistence: self.persistence,
        }
    }
}

/// The models of a sequence of descriptors.
pub open spec fn descriptors_view(v: Seq<NodeDescriptor>) -> Seq<NodeDescriptorView> {
    v.map_values(|d: NodeDescriptor| d@)
}

/// Node `i` trusts node `j`.
pub open spec fn trusts(ds: Seq<NodeDescriptorView>, i: int, j: int) -> bool {
    &&& 0 <= i < ds.len()
    &&& 0 <= j < ds.len()
    &&& ds[i].trusted_peers.contains(ds[j].alias)
}

/// Some node is declared under alias `a`.
pub open spec fn is_declared(ds: Seq<NodeDescriptorView>, a: Seq<char>) -> bool {
    exists|j: int| 0 <= j < ds.len() && ds[j].alias == a
}

/// No two nodes share an alias.
pub open spec fn aliases_distinct(ds: Seq<NodeDescriptorView>) -> bool {
    forall|i: int, j: int| 0 <= i < j < ds.len() ==> ds[i].alias != ds[j].alias
}

/// Every trusted peer of the nodes before `i`, and the first `k` of node `i`, is declared.
pub open spec fn peers_declared_before(ds: Seq<NodeDescriptorView>, i: int, k: int) -> bool {
    &&& forall|a: int, b: int|
        0 <= a < i && 0 <= b < ds[a].trusted_peers.len() ==> is_declared(
            ds,
            #[trigger] ds[a].trusted_peers[b],
        )
    &&& forall|b: int| 0 <= b < k ==> is_declared(ds, #[trigger] ds[i].trusted_peers[b])
}

/// Every trust edge names a declared node.
pub open spec fn peers_declared(ds: Seq<NodeDescriptorView>) -> bool {
    forall|a: int, b: int|
        0 <= a < ds.len() && 0 <= b < ds[a].trusted_peers.len() ==> is_declared(
            ds,
            #[trigger] ds[a].trusted_peers[b],
        )
}

/// Node `j` is the first whose alias repeats an earlier one.
pub open spec fn first_duplicate_at(ds: Seq<NodeDescriptorView>, j: int) -> bool {
    &&& 0 <= j < ds.len()
    &&& aliases_distinct(ds.take(j))
    &&& exists|i: int| 0 <= i < j && ds[i].alias == ds[j].alias
}

/// Trusted peer `k` of node `i` is the first, in declaration order, that names no node.
pub open spec fn first_unknown_at(ds: Seq<NodeDescriptorView>, i: int, k: int) -> bool {
    &&& 0 <= i < ds.len()
    &&& 0 <= k < ds[i].trusted_peers.len()
    &&& !is_declared(ds, ds[i].trusted_peers[k])
    &&& peers_declared_before(ds, i, k)
}

/// `p` is a walk along trust edges.
pub open spec fn is_trust_walk(ds: Seq<NodeDescriptorView>, p: Seq<int>) -> bool {
    &&& p.len() >= 1
    &&& forall|k: int| 0 <= k < p.len() ==> 0 <= #[trigger] p[k] < ds.len()
    &&& forall|k: int| 0 <= k < p.len() - 1 ==> trusts(ds, #[trigger] p[k], p[k + 1])
}

/// Some node reaches itself along trust edges.
pub open spec fn has_cycle(ds: Seq<NodeDescriptorView>) -> bool {
    exists|p: Seq<int>| #[trigger] is_trust_walk(ds, p) && p.len() >= 2 && p[0] == p[p.len() - 1]
}

/// Node `v` may be spawned once the nodes in `placed` are: it is not among
/// them and every node it trusts is.
pub open spec fn is_ready(ds: Seq<NodeDescriptorView>, placed: Seq<int>, v: int) -> bool {
    &&& 0 <= v < ds.len()
    &&& !placed.contains(v)
    &&& forall|j: int| #[trigger] trusts(ds, v, j) ==> placed.contains(j)
}

/// `order` spawns every node after the nodes it trusts, choosing at each step
/// the ready node declared first.
pub open spec fn is_spawn_order(ds: Seq<NodeDescriptorView>, order: Seq<int>) -> bool {
    &&& order.len() == ds.len()
    &&& forall|k: int| 0 <= k < order.len() ==> #[trigger] is_ready(ds, order.take(k), order[k])
    &&& forall|k: int, w: int|
        0 <= k < order.len() && 0 <= w < order[k] ==> !#[trigger] is_ready(ds, order.take(k), w)
}

/// A sequence of distinct integers below `n` has at most `n` elements.
proof fn lemma_distinct_below_len(s: Seq<int>, n: int)
    requires
        n >= 0,
        s.no_duplicates(),
        forall|k: int| 0 <= k < s.len() ==> 0 <= #[trigger] s[k] < n,
    ensures
        s.len() <= n,
{
    s.unique_seq_to_set();
    lemma_int_range(0, n);
    assert(s.to_set().subset_of(set_int_range(0, n))) by {
        assert forall|x: int| s.to_set().contains(x) implies set_int_range(0, n).contains(x) by {
            let k = choose|k: int| 0 <= k < s.len() && s[k] == x;
        }
    }
    lemma_len_subset(s.to_set(), set_int_range(0, n));
}

/// A sequence of `n` distinct integers below `n` holds each of them.
proof fn lemma_distinct_below_covers(s: Seq<int>, n: int, v: int)
    requires
        0 <= v < n,
        s.len() == n,
        s.no_duplicates(),
        forall|k: int| 0 <= k < s.len() ==> 0 <= #[trigger] s[k] < n,
    ensures
        s.contains(v),
{
    if !s.contains(v) {
        s.unique_seq_to_set();
        lemma_int_range(0, n);
        let r = set_int_range(0, n).remove(v);
        assert(s.to_set().subset_of(r)) by {
            assert forall|x: int| s.to_set().contains(x) implies r.contains(x) by {
                let k = choose|k: int| 0 <= k < s.len() && s[k] == x;
            }
        }
        lemma_len_subset(s.to_set(), r);
    }
}

/// The nodes of a spawn order are distinct.
proof fn lemma_spawn_order_distinct(ds: Seq<NodeDescriptorView>, order: Seq<int>)
    requires
        is_spawn_order(ds, order),
    ensures
        order.no_duplicates(),
        forall|k: int| 0 <= k < order.len() ==> 0 <= #[trigger] order[k] < ds.len(),
{
    assert forall|k: int| 0 <= k < order.len() implies 0 <= #[trigger] order[k] < ds.len() by {
        assert(is_ready(ds, order.take(k), order[k]));
    }
    assert forall|i: int, j: int| 0 <= i < order.len() && 0 <= j < order.len() && i != j implies order[i]
        != order[j] by {
        if i < j {
            assert(is_ready(ds, order.take(j), order[j]));
            assert(order.take(j)[i] == order[i]);
        } else {
            assert(is_ready(ds, order.take(i), order[i]));
            assert(order.take(i)[j] == order[j]);
        }
    }
}

/// Where node `v` stands in `order`.
spec fn position_in(order: Seq<int>, v: int) -> int {
    choose|k: int| 0 <= k < order.len() && order[k] == v
}

/// Along a walk of two or more nodes, the last stands earlier in a spawn
/// order than the first.
proof fn lemma_walk_descends(ds: Seq<NodeDescriptorView>, order: Seq<int>, p: Seq<int>)
    requires
        is_spawn_order(ds, order),
        order.no_duplicates(),
        forall|v: int| 0 <= v < ds.len() ==> order.contains(v),
        is_trust_walk(ds, p),
        p.len() >= 2,
    ensures
        position_in(order, p[p.len() - 1]) < position_in(order, p[0]),
        0 <= position_in(order, p[0]) < order.len(),
    decreases p.len(),
{
    let m = p.len();
    // the last edge goes to an earlier position
    let a = p[m - 2];
    let b = p[m - 1];
    assert(trusts(ds, p[m - 2], p[m - 1]));
    assert(order.contains(a));
    assert(order.contains(b));
    let pa = position_in(order, a);
    let pb = position_in(order, b);
    assert(is_ready(ds, order.take(pa), order[pa]));
    assert(order.take(pa).contains(b));
    let kb = choose|kb: int| 0 <= kb < order.take(pa).len() && order.take(pa)[kb] == b;
    assert(order[kb] == b);
    assert(kb == pb);
    assert(order.contains(p[0]));
    if m > 2 {
        let q = p.drop_last();
        assert(is_trust_walk(ds, q)) by {
            assert forall|k: int| 0 <= k < q.len() - 1 implies trusts(ds, #[trigger] q[k], q[k + 1]) by {
                assert(trusts(ds, p[k], p[k + 1]));
            }
        }
        lemma_walk_descends(ds, order, q);
    }
}

/// Nodes that trust one another in a cycle have no spawn order.
pub proof fn lemma_spawn_order_acyclic(ds: Seq<NodeDescriptorView>, order: Seq<int>)
    requires
        is_spawn_order(ds, order),
    ensures
        !has_cycle(ds),
{
    lemma_spawn_order_distinct(ds, order);
    assert forall|v: int| 0 <= v < ds.len() implies order.contains(v) by {
        lemma_distinct_below_covers(order, ds.len() as int, v);
    }
    if has_cycle(ds) {
        let p = choose|p: Seq<int>| #[trigger] is_trust_walk(ds, p) && p.len() >= 2 && p[0] == p[p.len() - 1];
        lemma_walk_descends(ds, order, p);
    }
}

/// A spawn order holds every node once, and each node after every node it trusts.
pub proof fn lemma_spawn_order_respects_trust(ds: Seq<NodeDescriptorView>, order: Seq<int>)
    requires
        is_spawn_order(ds, order),
    ensures
        order.no_duplicates(),
        forall|v: int| 0 <= v < ds.len() ==> order.contains(v),
        forall|k: int, j: int|
            0 <= k < order.len() && #[trigger] trusts(ds, order[k], j) ==> order.take(k).contains(j),
{
    lemma_spawn_order_distinct(ds, order);
    assert forall|v: int| 0 <= v < ds.len() implies order.contains(v) by {
        lemma_distinct_below_covers(order, ds.len() as int, v);
    }
    assert forall|k: int, j: int|
        0 <= k < order.len() && #[trigger] trusts(ds, order[k], j) implies order.take(k).contains(j) by {
        assert(is_ready(ds, order.take(k), order[k]));
    }
}

/// A trusted peer of `w` that is not in `placed`.
spec fn next_unplaced(ds: Seq<NodeDescriptorView>, placed: Seq<int>, w: int) -> int {
    choose|j: int| trusts(ds, w, j) && !placed.contains(j)
}

/// The walk of `len` nodes from `start` that always steps to an unplaced peer.
spec fn unplaced_walk(ds: Seq<NodeDescriptorView>, placed: Seq<int>, start: int, len: nat) -> Seq<int>
    decreases len,
{
    if len <= 1 {
        seq![start]
    } else {
        let p = unplaced_walk(ds, placed, start, (len - 1) as nat);
        p.push(next_unplaced(ds, placed, p.last()))
    }
}

proof fn lemma_unplaced_walk(ds: Seq<NodeDescriptorView>, placed: Seq<int>, start: int, len: nat)
    requires
        len >= 1,
        0 <= start < ds.len(),
        !placed.contains(start),
        forall|w: int| 0 <= w < ds.len() && !placed.contains(w) ==> !#[trigger] is_ready(ds, placed, w),
    ensures
        unplaced_walk(ds, placed, start, len).len() == len,
        is_trust_walk(ds, unplaced_walk(ds, placed, start, len)),
        forall|k: int|
            0 <= k < len ==> !placed.contains(#[trigger] unplaced_walk(ds, placed, start, len)[k]),
    decreases len,
{
    if len > 1 {
        lemma_unplaced_walk(ds, placed, start, (len - 1) as nat);
        let p = unplaced_walk(ds, placed, start, (len - 1) as nat);
        let w = p.last();
        assert(!placed.contains(p[p.len() - 1]));
        assert(!is_ready(ds, placed, w));
        assert(exists|j: int| trusts(ds, w, j) && !placed.contains(j));
        let q = unplaced_walk(ds, placed, start, len);
        assert(q == p.push(next_unplaced(ds, placed, w)));
        assert(forall|k: int| 0 <= k < p.len() ==> q[k] == p[k]);
        assert(is_trust_walk(ds, q)) by {
            assert forall|k: int| 0 <= k < q.len() - 1 implies trusts(ds, #[trigger] q[k], q[k + 1]) by {
                if k < p.len() - 1 {
                    assert(trusts(ds, p[k], p[k + 1]));
                }
            }
        }
    }
}

/// When nodes remain and none of them is ready, some of them trust one another in a cycle.
proof fn lemma_stalled_has_cycle(ds: Seq<NodeDescriptorView>, placed: Seq<int>)
    requires
        placed.len() < ds.len(),
        placed.no_duplicates(),
        forall|k: int| 0 <= k < placed.len() ==> 0 <= #[trigger] placed[k] < ds.len(),
        forall|w: int| 0 <= w < ds.len() && !placed.contains(w) ==> !#[trigger] is_ready(ds, placed, w),
    ensures
        has_cycle(ds),
{
    let n = ds.len() as int;
    let start = if exists|v: int| 0 <= v < n && !placed.contains(v) {
        choose|v: int| 0 <= v < n && !placed.contains(v)
    } else {
        placed.unique_seq_to_set();
        lemma_int_range(0, n);
        assert(set_int_range(0, n).subset_of(placed.to_set()));
        lemma_len_subset(set_int_range(0, n), placed.to_set());
        0
    };
    lemma_unplaced_walk(ds, placed, start, (n + 1) as nat);
    let p = unplaced_walk(ds, placed, start, (n + 1) as nat);
    if p.no_duplicates() {
        lemma_distinct_below_len(p, n);
    }
    let (i, j) = choose|i: int, j: int| 0 <= i < p.len() && 0 <= j < p.len() && i != j && p[i] == p[j];
    let (a, b) = if i < j { (i, j) } else { (j, i) };
    let c = p.subrange(a, b + 1);
    assert(is_trust_walk(ds, c)) by {
        assert forall|k: int| 0 <= k < c.len() - 1 implies trusts(ds, #[trigger] c[k], c[k + 1]) by {
            assert(trusts(ds, p[a + k], p[a + k + 1]));
        }
    }
    assert(c[0] == c[c.len() - 1]);
}

/// Why a set of node declarations cannot form a topology.
#[derive(Debug, Clone, PartialEq, Eq)]
pub enum TopologyError {
    /// Two nodes are declared under this alias.
    DuplicateAlias(String),
    /// A trust edge names this alias, which no node is declared under.
    UnknownPeer(String),
    /// Some node reaches itself along trust edges.
    CircularTrust,
}

impl NodeDescriptor {
    /// A leader node with persistent storage that trusts no peer.
    pub fn new(alias: &str) -> (r: NodeDescriptor)
        ensures
            r@.alias == alias@,
            r@.trusted_peers.len() == 0,
            r.leadership == LeadershipMode::Leader,
            r.persistence == PersistenceMode::Persistent,
    {
        NodeDescriptor {
            alias: String::from_str(alias),
            trusted_peers: Vec::new(),
            leadership: LeadershipMode::Leader,
            persistence: PersistenceMode::Persistent,
        }
    }

    /// Adds `peer` to the trusted peers, unless it is already among them.
    pub fn with_trusted_peer(self, peer: &str) -> (r: NodeDescriptor)
        ensures
            r@.alias == self@.alias,
            r.leadership == self.leadership,
            r.persistence == self.persistence,
            self@.trusted_peers.contains(peer@) ==> r@.trusted_peers == self@.trusted_peers,
            !self@.trusted_peers.contains(peer@) ==> r@.trusted_peers == self@.trusted_peers.push(
                peer@,
            ),
    {
        let mut d = self;
        let p = String::from_str(peer);
        let mut k: usize = 0;
        while k < d.trusted_peers.len()
            invariant
                k <= d.trusted_peers.len(),
                d@ == self@,
                p@ == peer@,
                forall|b: int| 0 <= b < k ==> d@.trusted_peers[b] != peer@,
            decreases d.trusted_peers.len() - k,
        {
            if d.trusted_peers[k] == p {
                assert(d@.trusted_peers[k as int] == peer@);
                return d;
            }
            k += 1;
        }
        d.trusted_peers.push(p);
        assert(d@.trusted_peers =~= self@.trusted_peers.push(peer@));
        d
    }

    /// The same declaration for a node that only relays and observes.
    pub fn passive(self) -> (r: NodeDescriptor)
        ensures
            r@ == (NodeDescriptorView { leadership: LeadershipMode::Passive, ..self@ }),
    {
        NodeDescriptor { leadership: LeadershipMode::Passive, ..self }
    }

    /// The same declaration for a node that keeps its chain in memory only.
    pub fn in_memory(self) -> (r: NodeDescriptor)
        ensures
            r@ == (NodeDescriptorView { persistence: PersistenceMode::InMemory, ..self@ }),
    {
        NodeDescriptor { persistence: PersistenceMode::InMemory, ..self }
    }
}

/// Index of the node declared under `alias`, if any.
fn find_alias(nodes: &Vec<NodeDescriptor>, alias: &String) -> (r: Option<usize>)
    ensures
        match r {
            Some(j) => j < nodes@.len() && descriptors_view(nodes@)[j as int].alias == alias@,
            None => !is_declared(descriptors_view(nodes@), alias@),
        },
{
    let ghost ds = descriptors_view(nodes@);
    let mut j: usize = 0;
    while j < nodes.len()
        invariant
            j <= nodes@.len(),
            ds == descriptors_view(nodes@),
            forall|a: int| 0 <= a < j ==> ds[a].alias != alias@,
        decreases nodes.len() - j,
    {
        if nodes[j].alias == *alias {
            return Some(j);
        }
        j += 1;
    }
    None
}

/// `edges[i][k]` is the node that trusted peer `k` of node `i` names.
spec fn edges_resolve(ds: Seq<NodeDescriptorView>, edges: Seq<Vec<usize>>, upto: int) -> bool {
    forall|i: int|
        0 <= i < upto ==> {
            &&& (#[trigger] edges[i])@.len() == ds[i].trusted_peers.len()
            &&& forall|k: int|
                0 <= k < edges[i]@.len() ==> {
                    &&& #[trigger] edges[i]@[k] < ds.len()
                    &&& ds[edges[i]@[k] as int].alias == ds[i].trusted_peers[k]
                }
        }
}

/// No peer of node `v` is missing from `placed`, and `v` is not in it.
fn ready_at(edges: &Vec<Vec<usize>>, placed: &Vec<bool>, v: usize) -> (r: bool)
    requires
        v < placed@.len(),
        v < edges@.len(),
        forall|k: int| 0 <= k < edges@[v as int]@.len() ==> edges@[v as int]@[k] < placed@.len(),
    ensures
        r == (!placed@[v as int] && forall|k: int|
            0 <= k < edges@[v as int]@.len() ==> placed@[#[trigger] edges@[v as int]@[k] as int]),
{
    if placed[v] {
        return false;
    }
    let row = &edges[v];
    let mut k: usize = 0;
    while k < row.len()
        invariant
            row@ == edges@[v as int]@,
            k <= row@.len(),
            forall|b: int| 0 <= b < row@.len() ==> row@[b] < placed@.len(),
            forall|b: int| 0 <= b < k ==> placed@[#[trigger] row@[b] as int],
        decreases row.len() - k,
    {
        if !placed[row[k]] {
            return false;
        }
        k += 1;
    }
    true
}

proof fn lemma_ready_at_matches(
    ds: Seq<NodeDescriptorView>,
    edges: Seq<Vec<usize>>,
    placed: Seq<bool>,
    order: Seq<int>,
    v: int,
)
    requires
        0 <= v < ds.len(),
        aliases_distinct(ds),
        edges.len() == ds.len(),
        edges_resolve(ds, edges, ds.len() as int),
        placed.len() == ds.len(),
        forall|j: int| 0 <= j < ds.len() ==> placed[j] == order.contains(j),
    ensures
        is_ready(ds, order, v) == (!placed[v] && forall|k: int|
            0 <= k < edges[v]@.len() ==> placed[#[trigger] edges[v]@[k] as int]),
{
    let all = forall|k: int| 0 <= k < edges[v]@.len() ==> placed[#[trigger] edges[v]@[k] as int];
    assert(edges[v]@.len() == ds[v].trusted_peers.len());
    if all && !placed[v] {
        assert forall|j: int| #[trigger] trusts(ds, v, j) implies order.contains(j) by {
            let k = choose|k: int| 0 <= k < ds[v].trusted_peers.len() && ds[v].trusted_peers[k] == ds[j].alias;
            let t = edges[v]@[k] as int;
            assert(placed[edges[v]@[k] as int]);
            assert(ds[t].alias == ds[j].alias);
        }
    }
    if !all {
        let k = choose|k: int| 0 <= k < edges[v]@.len() && !placed[#[trigger] edges[v]@[k] as int];
        let j = edges[v]@[k] as int;
        assert(ds[v].trusted_peers[k] == ds[j].alias);
        assert(trusts(ds, v, j));
    }
}

/// A validated set of node declarations together with their spawn order.
pub struct Topology {
    nodes: Vec<NodeDescriptor>,
    order: Vec<usize>,
}

/// Mathematical model of a [`Topology`]: the declarations, and the spawn
/// order as indices into them.
pub struct TopologyView {
    pub nodes: Seq<NodeDescriptorView>,
    pub order: Seq<int>,
}

impl View for Topology {
    type V = TopologyView;

    closed spec fn view(&self) -> TopologyView {
        TopologyView {
            nodes: descriptors_view(self.nodes@),
            order: self.order@.map_values(|x: usize| x as int),
        }
    }
}

impl Topology {
    #[verifier::type_invariant]
    spec fn well_formed(self) -> bool {
        &&& aliases_distinct(self@.nodes)
        &&& peers_declared(self@.nodes)
        &&& is_spawn_order(self@.nodes, self@.order)
    }

    /// Validates the declarations and computes the spawn order.
    ///
    /// A repeated alias is reported first (the first declaration that repeats
    /// an earlier one), then a trust edge to an undeclared alias (the first in
    /// declaration order), then a trust cycle. Otherwise every node is spawned
    /// after all the nodes it trusts; among the nodes that may go next, the one
    /// declared first goes first.
    pub fn build(descriptors: Vec<NodeDescriptor>) -> (r: Result<Topology, TopologyError>)
        ensures
            ({
                let ds = descriptors_view(descriptors@);
                match r {
                    Ok(t) => {
                        &&& aliases_distinct(ds)
                        &&& peers_declared(ds)
                        &&& !has_cycle(ds)
                        &&& t@.nodes == ds
                        &&& is_spawn_order(ds, t@.order)
                        &&& forall|v: int| 0 <= v < ds.len() ==> t@.order.contains(v)
                        &&& forall|k: int, j: int|
                            0 <= k < t@.order.len() && #[trigger] trusts(ds, t@.order[k], j)
                                ==> t@.order.take(k).contains(j)
                    },
                    Err(TopologyError::DuplicateAlias(a)) => exists|j: int|
                        first_duplicate_at(ds, j) && ds[j].alias == a@,
                    Err(TopologyError::UnknownPeer(a)) => {
                        &&& aliases_distinct(ds)
                        &&& exists|i: int, k: int|
                            first_unknown_at(ds, i, k) && ds[i].trusted_peers[k] == a@
                    },
                    Err(TopologyError::CircularTrust) => {
                        &&& aliases_distinct(ds)
                        &&& peers_declared(ds)
                        &&& has_cycle(ds)
                    },
                }
            }),
            aliases_distinct(descriptors_view(descriptors@)) && peers_declared(
                descriptors_view(descriptors@),
            ) ==> (has_cycle(descriptors_view(descriptors@)) <==> r == Err::<
                Topology,
                TopologyError,
            >(TopologyError::CircularTrust)),
            aliases_distinct(descriptors_view(descriptors@)) && peers_declared(
                descriptors_view(descriptors@),
            ) ==> (!has_cycle(descriptors_view(descriptors@)) <==> r is Ok),
    {
        let ghost ds = descriptors_view(descriptors@);
        let n = descriptors.len();

        let mut j: usize = 0;
        while j < n
            invariant
                n == descriptors@.len(),
                ds == descriptors_view(descriptors@),
                j <= n,
                aliases_distinct(ds.take(j as int)),
            decreases n - j,
        {
            let mut i: usize = 0;
            while i < j
                invariant
                    n == descriptors@.len(),
                    ds == descriptors_view(descriptors@),
                    i <= j < n,
                    aliases_distinct(ds.take(j as int)),
                    forall|a: int| 0 <= a < i ==> ds[a].alias != ds[j as int].alias,
                decreases j - i,
            {
                if descriptors[i].alias == descriptors[j].alias {
                    assert(ds[i as int].alias == ds[j as int].alias);
                    assert(first_duplicate_at(ds, j as int));
                    return Err(TopologyError::DuplicateAlias(descriptors[j].alias.clone()));
                }
                i += 1;
            }
            let ghost t = ds.take(j + 1);
            assert(aliases_distinct(t)) by {
                assert forall|a: int, b: int| #![trigger t[a], t[b]] 0 <= a < b < j + 1 implies t[a].alias
                    != t[b].alias by {
                    if b < j {
                        assert(ds.take(j as int)[a] == ds[a]);
                        assert(ds.take(j as int)[b] == ds[b]);
                    }
                }
            }
            assert(t == ds.take(j + 1));
            j += 1;
        }
        assert(ds.take(n as int) == ds);

        let mut edges: Vec<Vec<usize>> = Vec::new();
        let mut i: usize = 0;
        while i < n
            invariant
                n == descriptors@.len(),
                ds == descriptors_view(descriptors@),
                aliases_distinct(ds),
                i <= n,
                edges@.len() == i,
                edges_resolve(ds, edges@, i as int),
                peers_declared_before(ds, i as int, 0),
            decreases n - i,
        {
            let peers = &descriptors[i].trusted_peers;
            let mut row: Vec<usize> = Vec::new();
            let mut k: usize = 0;
            while k < peers.len()
                invariant
                    n == descriptors@.len(),
                    ds == descriptors_view(descriptors@),
                    aliases_distinct(ds),
                    i < n,
                    peers@.map_values(|s: String| s@) == ds[i as int].trusted_peers,
                    k <= peers@.len(),
                    row@.len() == k,
                    forall|b: int|
                        0 <= b < k ==> {
                            &&& #[trigger] row@[b] < n
                            &&& ds[row@[b] as int].alias == ds[i as int].trusted_peers[b]
                        },
                    peers_declared_before(ds, i as int, k as int),
                decreases peers.len() - k,
            {
                match find_alias(&descriptors, &peers[k]) {
                    Some(t) => {
                        assert(ds[i as int].trusted_peers[k as int] == peers@[k as int]@);
                        row.push(t);
                    },
                    None => {
                        assert(first_unknown_at(ds, i as int, k as int));
                        return Err(TopologyError::UnknownPeer(peers[k].clone()));
                    },
                }
                k += 1;
            }
            edges.push(row);
            assert(peers_declared_before(ds, i + 1, 0)) by {
                assert forall|a: int, b: int|
                    0 <= a < i + 1 && 0 <= b < ds[a].trusted_peers.len() implies is_declared(
                    ds,
                    #[trigger] ds[a].trusted_peers[b],
                ) by {
                    if a == i {
                        assert(is_declared(ds, ds[i as int].trusted_peers[b]));
                    }
                }
            }
            assert(edges_resolve(ds, edges@, i + 1)) by {
                assert forall|a: int| 0 <= a < i + 1 implies (#[trigger] edges@[a])@.len()
                    == ds[a].trusted_peers.len() by {}
            }
            i += 1;
        }
        assert(peers_declared(ds)) by {
            assert forall|a: int, b: int| 0 <= a < ds.len() && 0 <= b < ds[a].trusted_peers.len() implies is_declared(
                ds,
                #[trigger] ds[a].trusted_peers[b],
            ) by {
                assert(peers_declared_before(ds, n as int, 0));
            }
        }

        let mut placed: Vec<bool> = Vec::new();
        let mut c: usize = 0;
        while c < n
            invariant
                c <= n,
                placed@.len() == c,
                forall|b: int| 0 <= b < c ==> !placed@[b],
            decreases n - c,
        {
            placed.push(false);
            c += 1;
        }

        let mut order: Vec<usize> = Vec::new();
        let ghost mut order_i: Seq<int> = Seq::empty();
        while order.len() < n
            invariant
                n == descriptors@.len(),
                ds == descriptors_view(descriptors@),
                aliases_distinct(ds),
                peers_declared(ds),
                edges@.len() == n,
                edges_resolve(ds, edges@, n as int),
                placed@.len() == n,
                forall|b: int| 0 <= b < n ==> placed@[b] == order_i.contains(b),
                order_i == order@.map_values(|x: usize| x as int),
                order_i.len() <= n,
                order_i.no_duplicates(),
                forall|k: int| 0 <= k < order_i.len() ==> 0 <= #[trigger] order_i[k] < n,
                forall|k: int|
                    0 <= k < order_i.len() ==> #[trigger] is_ready(ds, order_i.take(k), order_i[k]),
                forall|k: int, w: int|
                    0 <= k < order_i.len() && 0 <= w < order_i[k] ==> !#[trigger] is_ready(
                        ds,
                        order_i.take(k),
                        w,
                    ),
            decreases n - order.len(),
        {
            let mut v: usize = 0;
            let mut found = false;
            while v < n
                invariant_except_break
                    forall|w: int| 0 <= w < v ==> !#[trigger] is_ready(ds, order_i, w),
                    !found,
                invariant
                    n == descriptors@.len(),
                    ds == descriptors_view(descriptors@),
                    aliases_distinct(ds),
                    edges@.len() == n,
                    edges_resolve(ds, edges@, n as int),
                    placed@.len() == n,
                    forall|b: int| 0 <= b < n ==> placed@[b] == order_i.contains(b),
                    v <= n,
                ensures
                    found ==> v < n && is_ready(ds, order_i, v as int),
                    found ==> forall|w: int| 0 <= w < v ==> !#[trigger] is_ready(ds, order_i, w),
                    !found ==> forall|w: int| 0 <= w < n ==> !#[trigger] is_ready(ds, order_i, w),
                decreases n - v,
            {
                proof {
                    assert(edges@[v as int]@.len() == ds[v as int].trusted_peers.len());
                    lemma_ready_at_matches(ds, edges@, placed@, order_i, v as int);
                }
                if ready_at(&edges, &placed, v) {
                    found = true;
                    break;
                }
                v += 1;
            }
            if !found {
                proof {
                    lemma_stalled_has_cycle(ds, order_i);
                }
                return Err(TopologyError::CircularTrust);
            }
            let ghost old_i = order_i;
            order.push(v);
            placed.set(v, true);
            proof {
                order_i = order_i.push(v as int);
                assert(order_i == order@.map_values(|x: usize| x as int));
                assert(order_i.take(old_i.len() as int) == old_i);
                assert forall|k: int| 0 <= k < old_i.len() implies #[trigger] order_i.take(k)
                    == old_i.take(k) by {
                    assert(order_i.take(k) =~= old_i.take(k));
                }
                assert forall|b: int| 0 <= b < n implies placed@[b] == order_i.contains(b) by {
                    if b == v {
                        assert(order_i[old_i.len() as int] == b);
                    } else if old_i.contains(b) {
                        let k = choose|k: int| 0 <= k < old_i.len() && old_i[k] == b;
                        assert(order_i[k] == b);
                    } else if order_i.contains(b) {
                        let k = choose|k: int| 0 <= k < order_i.len() && order_i[k] == b;
                        assert(k < old_i.len());
                    }
                }
                assert forall|k: int|
                    0 <= k < order_i.len() implies #[trigger] is_ready(ds, order_i.take(k), order_i[k]) by {
                    if k < old_i.len() {
                        assert(order_i.take(k) == old_i.take(k));
                    }
                }
                assert forall|k: int, w: int|
                    0 <= k < order_i.len() && 0 <= w < order_i[k] implies !#[trigger] is_ready(
                    ds,
                    order_i.take(k),
                    w,
                ) by {
                    if k < old_i.len() {
                        assert(order_i.take(k) == old_i.take(k));
                    }
                }
            }
        }
        proof {
            assert(is_spawn_order(ds, order_i));
            lemma_spawn_order_acyclic(ds, order_i);
            lemma_spawn_order_respects_trust(ds, order_i);
        }
        Ok(Topology { nodes: descriptors, order })
    }
}

impl Topology {
    /// Number of declared nodes.
    pub fn len(&self) -> (r: usize)
        ensures
            r == self@.nodes.len(),
    {
        self.nodes.len()
    }

    /// Aliases of the nodes in the order in which they are to be spawned.
    pub fn spawn_order(&self) -> (r: Vec<String>)
        ensures
            r@.len() == self@.order.len(),
            forall|k: int|
                0 <= k < r@.len() ==> (#[trigger] r@[k])@ == self@.nodes[self@.order[k]].alias,
    {
        proof {
            use_type_invariant(self);
            lemma_spawn_order_distinct(self@.nodes, self@.order);
        }
        let mut r: Vec<String> = Vec::new();
        let mut k: usize = 0;
        while k < self.order.len()
            invariant
                self@.order.len() == self.order@.len(),
                self@.order == self.order@.map_values(|x: usize| x as int),
                self@.nodes == descriptors_view(self.nodes@),
                forall|b: int| 0 <= b < self@.order.len() ==> 0 <= #[trigger] self@.order[b] < self@.nodes.len(),
                k <= self.order@.len(),
                r@.len() == k,
                forall|b: int| 0 <= b < k ==> (#[trigger] r@[b])@ == self@.nodes[self@.order[b]].alias,
            decreases self.order.len() - k,
        {
            assert(self@.order[k as int] == self.order@[k as int] as int);
            let v = self.order[k];
            r.push(self.nodes[v].alias.clone());
            k += 1;
        }
        r
    }

    /// Declaration of the node known by `alias`, if any.
    pub fn node(&self, alias: &str) -> (r: Option<&NodeDescriptor>)
        ensures
            match r {
                Some(d) => exists|j: int|
                    0 <= j < self@.nodes.len() && self@.nodes[j] == d@ && d@.alias == alias@,
                None => !is_declared(self@.nodes, alias@),
            },
    {
        let a = String::from_str(alias);
        match find_alias(&self.nodes, &a) {
            Some(j) => {
                assert(self@.nodes[j as int] == self.nodes@[j as int]@);
                Some(&self.nodes[j])
            },
            None => None,
        }
    }
}

} // verus!
