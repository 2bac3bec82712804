//! Graph structure used by the graph neural network for causal and semantic
//! reasoning, and the configuration of that network.
use vstd::prelude::*;

verus! {

/// Configuration of the graph neural network.
#[derive(Debug, Clone)]
pub struct GnnConfig {
    /// Node feature dimension
    pub node_dim: usize,
    /// Hidden dimension
    pub hidden_dim: usize,
    /// Output dimension
    pub output_dim: usize,
    /// Number of message-passing layers
    pub num_layers: usize,
    /// Edge feature dimension
    pub edge_dim: usize,
}

/// The number of parameters of a network with the given node and hidden
/// dimensions: two message/self layers on each of the two passing levels and
/// the output projection.
pub open spec fn gnn_param_count(node_dim: int, hidden_dim: int) -> int {
    node_dim * hidden_dim * 2 + hidden_dim * hidden_dim * 2 + hidden_dim * 8
}

impl GnnConfig {
    /// Builds a configuration from its fields.
    pub fn new(node_dim: usize, hidden_dim: usize, output_dim: usize, num_layers: usize, edge_dim: usize) -> (c: GnnConfig)
        ensures
            c.node_dim == node_dim,
            c.hidden_dim == hidden_dim,
            c.output_dim == output_dim,
            c.num_layers == num_layers,
            c.edge_dim == edge_dim,
    {
        GnnConfig { node_dim, hidden_dim, output_dim, num_layers, edge_dim }
    }

    /// Default configuration: 32 -> 16 -> 8, two message-passing layers.
    pub fn default() -> (c: GnnConfig)
        ensures
            c.node_dim == 32,
            c.hidden_dim == 16,
            c.output_dim == 8,
            c.num_layers == 2,
            c.edge_dim == 8,
    {
        Self::new(32, 16, 8, 2, 8)
    }

    /// Configuration for causal graphs: larger hidden dimension.
    pub fn causal() -> (c: GnnConfig)
        ensures
            c.node_dim == 64,
            c.hidden_dim == 32,
            c.output_dim == 16,
            c.num_layers == 3,
            c.edge_dim == 16,
    {
        Self::new(64, 32, 16, 3, 16)
    }

    /// Estimated parameter count of the network built from this configuration.
    pub fn param_count(&self) -> (n: usize)
        requires
            gnn_param_count(self.node_dim as int, self.hidden_dim as int) <= usize::MAX,
        ensures
            n == gnn_param_count(self.node_dim as int, self.hidden_dim as int),
    {
        let node = self.node_dim as u128;
        let hidden = self.hidden_dim as u128;
        assert(node * hidden <= 0xffff_ffff_ffff_ffff_ffff_ffff_ffff_ffffu128) by (nonlinear_arith)
            requires node <= 0xffff_ffff_ffff_ffffu128, hidden <= 0xffff_ffff_ffff_ffffu128;
        assert(hidden * hidden <= 0xffff_ffff_ffff_ffff_ffff_ffff_ffff_ffffu128) by (nonlinear_arith)
            requires hidden <= 0xffff_ffff_ffff_ffffu128;
        let total: u128 = node * hidden * 2 + hidden * hidden * 2 + hidden * 8;
        total as usize
    }
}

/// A graph given by its number of nodes and its list of edges.
#[derive(Debug, Clone)]
pub struct Graph {
    /// Number of nodes
    pub num_nodes: usize,
    /// Edge list: `(src_node, dst_node)`
    pub edges: Vec<(usize, usize)>,
    /// Node feature dimension
    pub node_dim: usize,
}

/// The neighbours of `node` along the edge list `edges`, in edge order: for
/// each edge that starts at `node` its end, else for each edge that ends at
/// `node` its start.
pub open spec fn neighbor_seq(edges: Seq<(usize, usize)>, node: usize) -> Seq<usize>
    decreases edges.len(),
{
    if edges.len() == 0 {
        Seq::empty()
    } else {
        let prefix = neighbor_seq(edges.drop_last(), node);
        let (s, d) = edges.last();
        if s == node {
            prefix.push(d)
        } else if d == node {
            prefix.push(s)
        } else {
            prefix
        }
    }
}

/// `a` and `b` are joined by some edge of `edges`, in either direction.
pub open spec fn joined(edges: Seq<(usize, usize)>, a: usize, b: usize) -> bool {
    exists|i: int| 0 <= i < edges.len() && (edges[i] == (a, b) || edges[i] == (b, a))
}

impl Graph {
    /// Every edge joins two nodes of the graph.
    pub open spec fn wf(&self) -> bool {
        forall|i: int| 0 <= i < self.edges@.len() ==>
            (#[trigger] self.edges@[i]).0 < self.num_nodes && self.edges@[i].1 < self.num_nodes
    }

    /// An empty graph with the given node feature dimension.
    pub fn empty(node_dim: usize) -> (g: Graph)
        ensures
            g.num_nodes == 0,
            g.edges@ == Seq::<(usize, usize)>::empty(),
            g.node_dim == node_dim,
            g.wf(),
    {
        Graph { num_nodes: 0, edges: Vec::new(), node_dim }
    }

    /// Adds a node and returns its id, which is the previous number of nodes.
    pub fn add_node(&mut self) -> (id: usize)
        requires
            old(self).num_nodes < usize::MAX,
        ensures
            id == old(self).num_nodes,
            final(self).num_nodes == old(self).num_nodes + 1,
            final(self).edges@ == old(self).edges@,
            final(self).node_dim == old(self).node_dim,
            old(self).wf() ==> final(self).wf(),
    {
        let id = self.num_nodes;
        self.num_nodes = self.num_nodes + 1;
        id
    }

    /// Adds the edge `src -> dst`; both must be nodes of the graph.
    pub fn add_edge(&mut self, src: usize, dst: usize)
        requires
            src < old(self).num_nodes,
            dst < old(self).num_nodes,
        ensures
            final(self).edges@ == old(self).edges@.push((src, dst)),
            final(self).num_nodes == old(self).num_nodes,
            final(self).node_dim == old(self).node_dim,
            old(self).wf() ==> final(self).wf(),
    {
        self.edges.push((src, dst));
    }

    /// The neighbours of `node`, in edge order.
    pub fn neighbors(&self, node: usize) -> (result: Vec<usize>)
        ensures
            result@ == neighbor_seq(self.edges@, node),
    {
        let mut result: Vec<usize> = Vec::new();
        let n = self.edges.len();
        for i in 0..n
            invariant
                n == self.edges@.len(),
                result@ == neighbor_seq(self.edges@.take(i as int), node),
        {
            assert(self.edges@.take(i + 1).drop_last() =~= self.edges@.take(i as int));
            let (s, d) = self.edges[i];
            if s == node {
                result.push(d);
            } else if d == node {
                result.push(s);
            }
        }
        assert(self.edges@.take(n as int) =~= self.edges@);
        result
    }

    /// An example causal graph: five variables with A->B->C->D and A->E.
    pub fn example_causal_graph() -> (g: Graph)
        ensures
            g.num_nodes == 5,
            g.edges@ == seq![(0usize, 1usize), (1, 2), (2, 3), (0, 4)],
            g.node_dim == 32,
            g.wf(),
    {
        let mut graph = Self::empty(32);
        for k in 0..5
            invariant
                graph.num_nodes == k,
                graph.edges@.len() == 0,
                graph.node_dim == 32,
        {
            graph.add_node();
        }
        graph.add_edge(0, 1);
        graph.add_edge(1, 2);
        graph.add_edge(2, 3);
        graph.add_edge(0, 4);
        graph
    }

    /// An example semantic network of eight concepts.
    pub fn example_semantic_graph() -> (g: Graph)
        ensures
            g.num_nodes == 8,
            g.edges@ == seq![(0usize, 1usize), (0, 2), (1, 3), (2, 4), (3, 5), (4, 6), (5, 7)],
            g.node_dim == 32,
            g.wf(),
    {
        let mut graph = Self::empty(32);
        for k in 0..8
            invariant
                graph.num_nodes == k,
                graph.edges@.len() == 0,
                graph.node_dim == 32,
        {
            graph.add_node();
        }
        graph.add_edge(0, 1);
        graph.add_edge(0, 2);
        graph.add_edge(1, 3);
        graph.add_edge(2, 4);
        graph.add_edge(3, 5);
        graph.add_edge(4, 6);
        graph.add_edge(5, 7);
        graph
    }
}

/// `b` is a neighbour of `a` exactly when some edge joins `a` and `b`.
pub proof fn lemma_neighbor_iff_joined(edges: Seq<(usize, usize)>, a: usize, b: usize)
    ensures
        neighbor_seq(edges, a).contains(b) <==> joined(edges, a, b),
    decreases edges.len(),
{
    if edges.len() > 0 {
        let prefix = edges.drop_last();
        lemma_neighbor_iff_joined(prefix, a, b);
        let last = edges.last();
        if joined(edges, a, b) {
            let i = choose|i: int| 0 <= i < edges.len() && (edges[i] == (a, b) || edges[i] == (b, a));
            if i < edges.len() - 1 {
                assert(prefix[i] == edges[i]);
                assert(neighbor_seq(prefix, a).contains(b));
                let k = choose|k: int| 0 <= k < neighbor_seq(prefix, a).len() && neighbor_seq(prefix, a)[k] == b;
                assert(neighbor_seq(edges, a)[k] == b);
            } else {
                assert(neighbor_seq(edges, a).last() == b);
            }
        }
        if neighbor_seq(edges, a).contains(b) {
            let k = choose|k: int| 0 <= k < neighbor_seq(edges, a).len() && neighbor_seq(edges, a)[k] == b;
            if k < neighbor_seq(prefix, a).len() {
                assert(neighbor_seq(prefix, a)[k] == b);
                let i = choose|i: int| 0 <= i < prefix.len() && (prefix[i] == (a, b) || prefix[i] == (b, a));
                assert(edges[i] == prefix[i]);
            } else {
                assert(edges[edges.len() - 1] == last);
            }
        }
    }
}

/// The neighbour relation is symmetric: `b` is a neighbour of `a` exactly
/// when `a` is a neighbour of `b`.
pub proof fn lemma_neighbors_symmetric(g: Graph, a: usize, b: usize)
    ensures
        neighbor_seq(g.edges@, a).contains(b) <==> neighbor_seq(g.edges@, b).contains(a),
{
    lemma_neighbor_iff_joined(g.edges@, a, b);
    lemma_neighbor_iff_joined(g.edges@, b, a);
}

/// Every neighbour of a node of a well-formed graph is a node of the graph.
pub proof fn lemma_neighbors_are_nodes(g: Graph, a: usize, b: usize)
    requires
        g.wf(),
        neighbor_seq(g.edges@, a).contains(b),
    ensures
        b < g.num_nodes,
{
    lemma_neighbor_iff_joined(g.edges@, a, b);
    let i = choose|i: int| 0 <= i < g.edges@.len() && (g.edges@[i] == (a, b) || g.edges@[i] == (b, a));
    assert(g.edges@[i].0 < g.num_nodes && g.edges@[i].1 < g.num_nodes);
}

/// Adding the edge `src -> dst` makes `dst` the last neighbour of `src`
/// (and `src` the last neighbour of `dst` when the edge is no loop), and
/// leaves the neighbours of every other node unchanged.
pub proof fn lemma_add_edge_neighbors(edges: Seq<(usize, usize)>, src: usize, dst: usize, node: usize)
    ensures
        node == src ==> neighbor_seq(edges.push((src, dst)), node) == neighbor_seq(edges, node).push(dst),
        node != src && node == dst ==> neighbor_seq(edges.push((src, dst)), node) == neighbor_seq(edges, node).push(src),
        node != src && node != dst ==> neighbor_seq(edges.push((src, dst)), node) == neighbor_seq(edges, node),
{
    assert(edges.push((src, dst)).drop_last() =~= edges);
}

} // verus!
