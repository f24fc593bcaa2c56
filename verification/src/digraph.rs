use crate::dataprep::Book;
use petgraph::graph::DiGraph;
use petgraph::graph::NodeIndex;
use petgraph::visit::EdgeRef;
use vstd::prelude::*;

verus! {

/// `petgraph::graph::Graph`, the adjacency-list graph that holds the books
/// and their similarities. Nothing of its inside is visible to a proof.
#[verifier::external_type_specification]
#[verifier::external_body]
#[verifier::reject_recursive_types(N)]
#[verifier::reject_recursive_types(E)]
#[verifier::reject_recursive_types(Ty)]
#[verifier::reject_recursive_types(Ix)]
pub struct ExGraph<N, E, Ty, Ix>(petgraph::graph::Graph<N, E, Ty, Ix>);

/// `petgraph::Directed`, the marker of a graph whose edges have a direction.
#[verifier::external_type_specification]
#[verifier::external_body]
pub struct ExDirected(petgraph::Directed);

/// One directed edge: the indices of the node it leaves and of the node it
/// reaches, and its weight in tenths of a point.
#[derive(Clone, Copy, Debug)]
pub struct Edge {
    pub source: usize,
    pub target: usize,
    pub weight: u32,
}

/// The books on the nodes of `graph`, in the order of their node indices.
pub uninterp spec fn graph_nodes(graph: DiGraph<&Book, u32>) -> Seq<Book>;

/// The edges of `graph`, in the order of their edge indices.
pub uninterp spec fn graph_edges(graph: DiGraph<&Book, u32>) -> Seq<Edge>;

/// The indices of the edges that leave node `a`.
pub open spec fn edges_from(edges: Seq<Edge>, a: int) -> Set<int> {
    Set::new(|k: int| 0 <= k < edges.len() && edges[k].source == a)
}

/// The out-degree of node `a`: how many edges leave it.
pub open spec fn out_degree(edges: Seq<Edge>, a: int) -> nat {
    edges_from(edges, a).len()
}

/// The out-degree of every node, by node index.
pub open spec fn degrees(graph: DiGraph<&Book, u32>) -> Seq<usize> {
    Seq::new(graph_nodes(graph).len(), |a: int| out_degree(graph_edges(graph), a) as usize)
}

/// Every edge of the sequence joins two of `nodes` nodes.
pub open spec fn edges_within(edges: Seq<Edge>, nodes: nat) -> bool {
    forall|k: int|
        0 <= k < edges.len() ==> (#[trigger] edges[k]).source < nodes && edges[k].target < nodes
}

/// Calls `Graph::new`: the result is a directed graph with no node and no
/// edge.
#[verifier::external_body]
pub(crate) fn new_graph<'a>() -> (graph: DiGraph<&'a Book, u32>)
    ensures
        graph_nodes(graph) == Seq::<Book>::empty(),
        graph_edges(graph) == Seq::<Edge>::empty(),
{
    DiGraph::new()
}

/// Calls `Graph::add_node`, which appends a node that carries `book` and
/// leaves the edges alone. It panics once the node count has reached the
/// largest `u32`; the precondition keeps away from that.
#[verifier::external_body]
pub(crate) fn add_node<'a>(graph: &mut DiGraph<&'a Book, u32>, book: &'a Book)
    requires
        graph_nodes(*old(graph)).len() < u32::MAX,
    ensures
        graph_nodes(*final(graph)) == graph_nodes(*old(graph)).push(*book),
        graph_edges(*final(graph)) == graph_edges(*old(graph)),
{
    graph.add_node(book);
}

/// Calls `Graph::add_edge`, which appends an edge from node `source` to node
/// `target` and leaves the nodes alone. It panics when one of the two nodes
/// does not exist or the edge count has reached the largest `u32`; the
/// precondition keeps away from both.
#[verifier::external_body]
pub(crate) fn add_edge(graph: &mut DiGraph<&Book, u32>, source: usize, target: usize, weight: u32)
    requires
        source < graph_nodes(*old(graph)).len(),
        target < graph_nodes(*old(graph)).len(),
        graph_edges(*old(graph)).len() < u32::MAX,
    ensures
        graph_nodes(*final(graph)) == graph_nodes(*old(graph)),
        graph_edges(*final(graph)) == graph_edges(*old(graph)).push(
            (Edge { source, target, weight }),
        ),
{
    graph.add_edge(NodeIndex::new(source), NodeIndex::new(target), weight);
}

/// Calls `Graph::node_count`: the number of nodes.
#[verifier::external_body]
pub(crate) fn node_count(graph: &DiGraph<&Book, u32>) -> (count: usize)
    ensures
        count == graph_nodes(*graph).len(),
{
    graph.node_count()
}

/// Calls `Graph::edge_count`: the number of edges.
#[verifier::external_body]
pub(crate) fn edge_count(graph: &DiGraph<&Book, u32>) -> (count: usize)
    ensures
        count == graph_edges(*graph).len(),
{
    graph.edge_count()
}

/// Indexes the graph by a node index, which hands out what the node carries.
/// The index must be that of a node, or the call panics.
#[verifier::external_body]
pub(crate) fn node_book<'a>(graph: &DiGraph<&'a Book, u32>, a: usize) -> (book: &'a Book)
    requires
        a < graph_nodes(*graph).len(),
    ensures
        *book == graph_nodes(*graph)[a as int],
{
    graph[NodeIndex::new(a)]
}

/// Calls `Graph::edges`, which walks the edges that leave node `a`, and
/// collects their edge indices. Each such edge comes once; nothing is
/// claimed of their order.
#[verifier::external_body]
pub(crate) fn outgoing_edges(graph: &DiGraph<&Book, u32>, a: usize) -> (ids: Vec<usize>)
    requires
        a < graph_nodes(*graph).len(),
    ensures
        ids@.no_duplicates(),
        forall|p: int|
            0 <= p < ids@.len() ==> edges_from(graph_edges(*graph), a as int).contains(
                #[trigger] ids@[p] as int,
            ),
        forall|k: int|
            edges_from(graph_edges(*graph), a as int).contains(k) ==> exists|p: int|
                0 <= p < ids@.len() && #[trigger] ids@[p] == k,
{
    graph.edges(NodeIndex::new(a)).map(|e| e.id().index()).collect()
}

/// Calls `Graph::edge_references`, which walks all edges in the order of
/// their indices, and collects the two ends and the weight of each. Both
/// ends of an edge are nodes of the graph.
#[verifier::external_body]
pub(crate) fn all_edges(graph: &DiGraph<&Book, u32>) -> (edges: Vec<Edge>)
    ensures
        edges@ == graph_edges(*graph),
        edges_within(edges@, graph_nodes(*graph).len()),
{
    graph.edge_references().map(
        |e| Edge { source: e.source().index(), target: e.target().index(), weight: *e.weight() },
    ).collect()
}

/// Counts the edges that leave node `a`, which must be a node of the graph.
pub fn degree(graph: &DiGraph<&Book, u32>, a: usize) -> (d: usize)
    requires
        a < graph_nodes(*graph).len(),
    ensures
        d == out_degree(graph_edges(*graph), a as int),
{
    let ids = outgoing_edges(graph, a);
    proof {
        let leaving = edges_from(graph_edges(*graph), a as int);
        let found = ids@.map_values(|id: usize| id as int);
        assert(found.no_duplicates());
        assert(found.to_set() =~= leaving) by {
            assert forall|k: int| leaving.contains(k) implies found.to_set().contains(k) by {
                let p = choose|p: int| 0 <= p < ids@.len() && #[trigger] ids@[p] == k;
                assert(found[p] == k);
            }
            assert forall|k: int| found.to_set().contains(k) implies leaving.contains(k) by {
                let p = choose|p: int| 0 <= p < found.len() && found[p] == k;
                assert(ids@[p] as int == k);
            }
        }
        found.unique_seq_to_set();
    }
    ids.len()
}

} // verus!
