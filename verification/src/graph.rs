//! The graph store: a map from node identifier to the node's adjacency lists.

use std::collections::HashMap;
use vstd::prelude::*;

verus! {

broadcast use vstd::std_specs::hash::group_hash_axioms;

/// Identifier of a node.
pub type NodeId = u32;

/// The adjacency lists of one node, as mathematical sequences.
#[verifier::ext_equal]
pub ghost struct Adjacency {
    /// Targets of the edges that leave the node, in insertion order.
    pub outgoing: Seq<NodeId>,
    /// Sources of the edges that enter the node, in insertion order.
    pub incoming: Seq<NodeId>,
}

/// The mathematical model of a graph store.
pub type GraphView = Map<NodeId, Adjacency>;

/// The adjacency lists of one node. Both keep insertion order and may hold
/// the same neighbour many times.
#[derive(Clone, Debug)]
pub struct NodeMap {
    outgoing_edges: Vec<NodeId>,
    incoming_edges: Vec<NodeId>,
}

impl View for NodeMap {
    type V = Adjacency;

    closed spec fn view(&self) -> Adjacency {
        Adjacency { outgoing: self.outgoing_edges@, incoming: self.incoming_edges@ }
    }
}

/// A directed multigraph held in memory.
#[derive(Debug)]
pub struct Graph {
    nodes: HashMap<NodeId, NodeMap>,
}

impl View for Graph {
    type V = GraphView;

    closed spec fn view(&self) -> GraphView {
        self.nodes@.map_values(|n: NodeMap| n@)
    }
}

/// The store without any node.
pub open spec fn empty_graph() -> GraphView {
    Map::empty()
}

/// The adjacency of a node that no edge has touched yet.
pub open spec fn no_edges() -> Adjacency {
    Adjacency { outgoing: Seq::empty(), incoming: Seq::empty() }
}

/// The adjacency lists of `node` in `g`; both empty where `g` has no entry
/// for it.
pub open spec fn adjacency_of(g: GraphView, node: NodeId) -> Adjacency {
    if g.contains_key(node) {
        g[node]
    } else {
        no_edges()
    }
}

/// `g` after `target` was appended to the outgoing list of `source`.
pub open spec fn with_outgoing(g: GraphView, source: NodeId, target: NodeId) -> GraphView {
    let before = adjacency_of(g, source);
    g.insert(source, Adjacency { outgoing: before.outgoing.push(target), incoming: before.incoming })
}

/// `g` after `source` was appended to the incoming list of `target`.
pub open spec fn with_incoming(g: GraphView, target: NodeId, source: NodeId) -> GraphView {
    let before = adjacency_of(g, target);
    g.insert(target, Adjacency { outgoing: before.outgoing, incoming: before.incoming.push(source) })
}

/// `g` after the edge from `source` to `target` was added: both nodes have
/// an entry, `target` is the last element of `source`'s outgoing list and
/// `source` the last element of `target`'s incoming list. Nothing else
/// changes.
pub open spec fn with_edge(g: GraphView, source: NodeId, target: NodeId) -> GraphView {
    with_incoming(with_outgoing(g, source, target), target, source)
}

/// `g` after each edge of `edges` was added, the first one first.
pub open spec fn apply_edges(g: GraphView, edges: Seq<(NodeId, NodeId)>) -> GraphView
    decreases edges.len(),
{
    if edges.len() == 0 {
        g
    } else {
        with_edge(apply_edges(g, edges.drop_last()), edges.last().0, edges.last().1)
    }
}

/// The number of node identifiers there are.
pub open spec fn node_id_count() -> nat {
    0x1_0000_0000
}

/// The lengths of the outgoing lists of the nodes below `bound`, summed.
pub open spec fn outgoing_below(g: GraphView, bound: nat) -> nat
    decreases bound,
{
    if bound == 0 {
        0
    } else {
        outgoing_below(g, (bound - 1) as nat) + adjacency_of(g, (bound - 1) as NodeId).outgoing.len()
    }
}

/// The lengths of the incoming lists of the nodes below `bound`, summed.
pub open spec fn incoming_below(g: GraphView, bound: nat) -> nat
    decreases bound,
{
    if bound == 0 {
        0
    } else {
        incoming_below(g, (bound - 1) as nat) + adjacency_of(g, (bound - 1) as NodeId).incoming.len()
    }
}

/// The lengths of the outgoing lists of all nodes, summed. A node without
/// an entry counts as one without edges.
pub open spec fn total_outgoing(g: GraphView) -> nat {
    outgoing_below(g, node_id_count())
}

/// The lengths of the incoming lists of all nodes, summed.
pub open spec fn total_incoming(g: GraphView) -> nat {
    incoming_below(g, node_id_count())
}

/// What a store holds when it is created with the given hint: nothing,
/// whatever the hint.
pub open spec fn fresh_store(expected_node_count: u32) -> GraphView {
    empty_graph()
}

/// The targets of the edges of `edges` that leave `node`, in the order of
/// `edges`.
pub open spec fn targets_from(edges: Seq<(NodeId, NodeId)>, node: NodeId) -> Seq<NodeId>
    decreases edges.len(),
{
    if edges.len() == 0 {
        Seq::empty()
    } else if edges.last().0 == node {
        targets_from(edges.drop_last(), node).push(edges.last().1)
    } else {
        targets_from(edges.drop_last(), node)
    }
}

/// The sources of the edges of `edges` that enter `node`, in the order of
/// `edges`.
pub open spec fn sources_into(edges: Seq<(NodeId, NodeId)>, node: NodeId) -> Seq<NodeId>
    decreases edges.len(),
{
    if edges.len() == 0 {
        Seq::empty()
    } else if edges.last().1 == node {
        sources_into(edges.drop_last(), node).push(edges.last().0)
    } else {
        sources_into(edges.drop_last(), node)
    }
}

/// Putting `adjacency` at `node` changes each sum below `bound` by what the
/// list of `node` gains, where `node` is below `bound`.
proof fn lemma_below_insert(g: GraphView, node: NodeId, adjacency: Adjacency, bound: nat)
    requires
        bound <= node_id_count(),
    ensures
        outgoing_below(g.insert(node, adjacency), bound) == outgoing_below(g, bound) + (if node
            < bound {
            adjacency.outgoing.len() - adjacency_of(g, node).outgoing.len()
        } else {
            0
        }),
        incoming_below(g.insert(node, adjacency), bound) == incoming_below(g, bound) + (if node
            < bound {
            adjacency.incoming.len() - adjacency_of(g, node).incoming.len()
        } else {
            0
        }),
    decreases bound,
{
    if bound > 0 {
        lemma_below_insert(g, node, adjacency, (bound - 1) as nat);
    }
}

/// The lists of the empty store sum to nothing.
proof fn lemma_below_empty(bound: nat)
    ensures
        outgoing_below(empty_graph(), bound) == 0,
        incoming_below(empty_graph(), bound) == 0,
    decreases bound,
{
    if bound > 0 {
        lemma_below_empty((bound - 1) as nat);
    }
}

/// Each edge is counted once on either side: adding an edge adds one to the
/// sum of the outgoing lists and one to the sum of the incoming lists.
pub proof fn lemma_edge_counts_once(g: GraphView, source: NodeId, target: NodeId)
    ensures
        total_outgoing(with_edge(g, source, target)) == total_outgoing(g) + 1,
        total_incoming(with_edge(g, source, target)) == total_incoming(g) + 1,
{
    let left = adjacency_of(g, source);
    let g1 = with_outgoing(g, source, target);
    let right = adjacency_of(g1, target);
    lemma_below_insert(
        g,
        source,
        Adjacency { outgoing: left.outgoing.push(target), incoming: left.incoming },
        node_id_count(),
    );
    lemma_below_insert(
        g1,
        target,
        Adjacency { outgoing: right.outgoing, incoming: right.incoming.push(source) },
        node_id_count(),
    );
}

/// The lists of a node grow in the order in which the edges come: after
/// `edges` were added, the outgoing list of `node` is what it was, followed
/// by the targets of the edges that leave `node`, and its incoming list is
/// what it was, followed by the sources of the edges that enter it, each in
/// the order of `edges`.
pub proof fn lemma_lists_follow_edge_order(g: GraphView, edges: Seq<(NodeId, NodeId)>, node: NodeId)
    ensures
        adjacency_of(apply_edges(g, edges), node).outgoing == adjacency_of(g, node).outgoing
            + targets_from(edges, node),
        adjacency_of(apply_edges(g, edges), node).incoming == adjacency_of(g, node).incoming
            + sources_into(edges, node),
    decreases edges.len(),
{
    if edges.len() > 0 {
        lemma_lists_follow_edge_order(g, edges.drop_last(), node);
    }
    assert(adjacency_of(apply_edges(g, edges), node).outgoing =~= adjacency_of(g, node).outgoing
        + targets_from(edges, node));
    assert(adjacency_of(apply_edges(g, edges), node).incoming =~= adjacency_of(g, node).incoming
        + sources_into(edges, node));
}

/// Whether `edge` has `node` as its source or as its target.
pub open spec fn touches(edge: (NodeId, NodeId), node: NodeId) -> bool {
    edge.0 == node || edge.1 == node
}

/// A node has an entry after `edges` were added exactly where it had one
/// before or an edge of `edges` names it as its source or its target.
pub proof fn lemma_entries_are_endpoints(g: GraphView, edges: Seq<(NodeId, NodeId)>, node: NodeId)
    ensures
        apply_edges(g, edges).contains_key(node) <==> g.contains_key(node) || exists|i: int|
            0 <= i < edges.len() && touches(#[trigger] edges[i], node),
    decreases edges.len(),
{
    if edges.len() > 0 {
        let front = edges.drop_last();
        lemma_entries_are_endpoints(g, front, node);
        let named = exists|i: int| 0 <= i < edges.len() && touches(#[trigger] edges[i], node);
        let named_before = exists|i: int| 0 <= i < front.len() && touches(#[trigger] front[i], node);
        assert(named <==> named_before || touches(edges.last(), node)) by {
            if named {
                let i = choose|i: int| 0 <= i < edges.len() && touches(#[trigger] edges[i], node);
                if i < front.len() {
                    assert(touches(front[i], node));
                }
            }
            if named_before {
                let i = choose|i: int| 0 <= i < front.len() && touches(#[trigger] front[i], node);
                assert(touches(edges[i], node));
            }
            if touches(edges.last(), node) {
                assert(touches(edges[edges.len() - 1], node));
            }
        }
    }
}

/// Whatever edges are added to a store, in whatever order and however
/// often, the sum of its outgoing lists and the sum of its incoming lists
/// each grow by the number of edges added.
pub proof fn lemma_totals_grow_by_edges(g: GraphView, edges: Seq<(NodeId, NodeId)>)
    ensures
        total_outgoing(apply_edges(g, edges)) == total_outgoing(g) + edges.len(),
        total_incoming(apply_edges(g, edges)) == total_incoming(g) + edges.len(),
    decreases edges.len(),
{
    if edges.len() > 0 {
        lemma_totals_grow_by_edges(g, edges.drop_last());
        lemma_edge_counts_once(apply_edges(g, edges.drop_last()), edges.last().0, edges.last().1);
    }
}

/// In a store that was created empty and then given `edges`, the outgoing
/// lists hold as many entries as there were edges, and so do the incoming
/// lists.
pub proof fn lemma_totals_count_edges(expected_node_count: u32, edges: Seq<(NodeId, NodeId)>)
    ensures
        total_outgoing(apply_edges(fresh_store(expected_node_count), edges)) == edges.len(),
        total_incoming(apply_edges(fresh_store(expected_node_count), edges)) == edges.len(),
{
    lemma_below_empty(node_id_count());
    lemma_totals_grow_by_edges(empty_graph(), edges);
}

/// The capacity hint changes nothing that can be seen: two stores created
/// with different hints hold the same adjacency lists after the same
/// edges.
pub proof fn lemma_hint_leaves_no_trace(
    hint: u32,
    other_hint: u32,
    edges: Seq<(NodeId, NodeId)>,
)
    ensures
        fresh_store(hint) == fresh_store(other_hint),
        apply_edges(fresh_store(hint), edges) == apply_edges(fresh_store(other_hint), edges),
{
}

impl Graph {
    /// Creates an empty store with room for `expected_node_count` nodes.
    /// The count is a hint for allocation only: whatever it is, the store
    /// starts without nodes.
    pub fn new(expected_node_count: u32) -> (graph: Graph)
        ensures
            graph@ == fresh_store(expected_node_count),
    {
        let graph = Graph { nodes: HashMap::with_capacity(expected_node_count as usize) };
        assert(graph@ =~= empty_graph());
        graph
    }

    /// Adds one edge from `source` to `target`. An edge that is already
    /// there is added once more.
    pub fn add_edge(&mut self, source: NodeId, target: NodeId)
        ensures
            final(self)@ == with_edge(old(self)@, source, target),
            total_outgoing(final(self)@) == total_outgoing(old(self)@) + 1,
            total_incoming(final(self)@) == total_incoming(old(self)@) + 1,
    {
        let source_map = self.nodes.entry(source).or_insert(NodeMap::new());
        source_map.outgoing_edges.push(target);
        let target_map = self.nodes.entry(target).or_insert(NodeMap::new());
        target_map.incoming_edges.push(source);
        assert(self@ =~= with_edge(old(self)@, source, target));
        proof {
            lemma_edge_counts_once(old(self)@, source, target);
        }
    }

    /// The number of nodes that have an entry: those that an edge has
    /// named as its source or its target.
    pub fn node_count(&self) -> (count: usize)
        ensures
            count == self@.dom().len(),
    {
        assert(self@.dom() =~= self.nodes@.dom());
        self.nodes.len()
    }

    /// The adjacency lists of `node`, if it has an entry.
    pub fn node(&self, node: NodeId) -> (entry: Option<&NodeMap>)
        ensures
            match entry {
                Some(lists) => self@.contains_key(node) && lists@ == self@[node],
                None => !self@.contains_key(node),
            },
    {
        self.nodes.get(&node)
    }
}

impl NodeMap {
    /// A node without edges.
    pub fn new() -> (node: NodeMap)
        ensures
            node@ == no_edges(),
    {
        NodeMap { outgoing_edges: Vec::new(), incoming_edges: Vec::new() }
    }

    /// The targets of the edges that leave the node, in the order in which
    /// the edges were added.
    pub fn outgoing(&self) -> (targets: &Vec<NodeId>)
        ensures
            targets@ == self@.outgoing,
    {
        &self.outgoing_edges
    }

    /// The sources of the edges that enter the node, in the order in which
    /// the edges were added.
    pub fn incoming(&self) -> (sources: &Vec<NodeId>)
        ensures
            sources@ == self@.incoming,
    {
        &self.incoming_edges
    }
}

} // verus!
