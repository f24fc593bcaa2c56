use crate::dataprep::Book;
use crate::digraph::Edge;
use crate::digraph::add_edge;
use crate::digraph::add_node;
use crate::digraph::all_edges;
use crate::digraph::degree;
use crate::digraph::degrees;
use crate::digraph::edge_count;
use crate::digraph::edges_within;
use crate::digraph::graph_edges;
use crate::digraph::graph_nodes;
use crate::digraph::new_graph;
use crate::digraph::node_book;
use crate::digraph::node_count;
use crate::digraph::out_degree;
use crate::distribution::degree_distribution;
use crate::distribution::distribution;
use crate::edges::edges_of_first;
use crate::edges::fits;
use crate::edges::is_keyed;
use crate::edges::lemma_edge_count;
use crate::edges::lemma_edges_so_far;
use crate::edges::lemma_source_node;
use crate::edges::link;
use crate::edges::linked;
use crate::edges::node_map;
use crate::edges::record_edges;
use crate::edges::similarity_edges;
use crate::edges::source_node;
use crate::ranking::is_top;
use crate::ranking::lemma_top_degrees_fall;
use crate::ranking::top_nodes;
use crate::ranking::top_ranked;
use crate::similarity::similarity;
use petgraph::graph::DiGraph;
use std::collections::HashMap;
use vstd::hash_map::StringHashMap;
use vstd::prelude::*;

verus! {

/// How many of the best-connected nodes are reported.
pub const TOP_NODES: usize = 5;

/// How many of the highest degrees the degree distribution keeps.
pub const TOP_DEGREES: usize = 10;

/// The executable lookup holds what [`node_map`] says of `books`.
pub open spec fn agrees(lookup: Map<Seq<char>, usize>, books: Seq<Book>) -> bool {
    &&& lookup.dom() =~= node_map(books).dom()
    &&& forall|title: Seq<char>| #[trigger]
        lookup.contains_key(title) ==> lookup[title] == node_map(books)[title]
}

/// Enters every book into a graph without edges and into the lookup from
/// titles to nodes.
fn add_books<'a>(books: &'a [Book]) -> (built: (DiGraph<&'a Book, u32>, StringHashMap<usize>))
    requires
        books@.len() <= u32::MAX,
    ensures
        graph_nodes(built.0) == books@,
        graph_edges(built.0) == Seq::<Edge>::empty(),
        agrees(built.1@, books@),
{
    let mut graph = new_graph();
    let mut lookup: StringHashMap<usize> = StringHashMap::new();
    let mut i: usize = 0;
    while i < books.len()
        invariant
            i <= books@.len() <= u32::MAX,
            graph_nodes(graph) == books@.take(i as int),
            graph_edges(graph) == Seq::<Edge>::empty(),
            agrees(lookup@, books@.take(i as int)),
        decreases books@.len() - i,
    {
        add_node(&mut graph, &books[i]);
        lookup.insert(books[i].title.clone(), i);
        proof {
            let grown = books@.take(i + 1);
            assert(grown.drop_last() == books@.take(i as int));
            assert(grown.last() == books@[i as int]);
            assert(books@.take(i as int).push(books@[i as int]) == grown);
        }
        i = i + 1;
    }
    proof {
        assert(books@.take(i as int) == books@);
    }
    (graph, lookup)
}

/// For every node, whether it is the one that its title leads to.
fn keyed_nodes(books: &[Book], lookup: &StringHashMap<usize>) -> (keyed: Vec<bool>)
    requires
        agrees(lookup@, books@),
    ensures
        keyed@.len() == books@.len(),
        forall|j: int| 0 <= j < books@.len() ==> keyed@[j] == is_keyed(books@, j),
{
    let mut keyed: Vec<bool> = Vec::new();
    let mut j: usize = 0;
    while j < books.len()
        invariant
            j <= books@.len(),
            agrees(lookup@, books@),
            keyed@.len() == j,
            forall|k: int| 0 <= k < j ==> keyed@[k] == is_keyed(books@, k),
        decreases books@.len() - j,
    {
        proof {
            lemma_source_node(books@, j as int);
        }
        let found = match lookup.get(books[j].title.as_str()) {
            Some(node) => *node == j,
            None => false,
        };
        keyed.push(found);
        j = j + 1;
    }
    keyed
}

/// Compares every book with every node that the lookup leads to and adds
/// the edges. Stops, and says so, before an edge that the graph cannot hold.
fn add_links<'a>(
    graph: &mut DiGraph<&'a Book, u32>,
    books: &'a [Book],
    lookup: &StringHashMap<usize>,
    keyed: &Vec<bool>,
) -> (done: bool)
    requires
        books@.len() <= u32::MAX,
        graph_nodes(*old(graph)) == books@,
        graph_edges(*old(graph)) == Seq::<Edge>::empty(),
        agrees(lookup@, books@),
        keyed@.len() == books@.len(),
        forall|j: int| 0 <= j < books@.len() ==> keyed@[j] == is_keyed(books@, j),
    ensures
        done <==> similarity_edges(books@).len() <= u32::MAX,
        done ==> graph_nodes(*final(graph)) == books@,
        done ==> graph_edges(*final(graph)) == similarity_edges(books@),
{
    let n = books.len();
    let mut i: usize = 0;
    while i < n
        invariant
            n == books@.len(),
            i <= n <= u32::MAX,
            agrees(lookup@, books@),
            keyed@.len() == n,
            forall|j: int| 0 <= j < n ==> keyed@[j] == is_keyed(books@, j),
            graph_nodes(*graph) == books@,
            graph_edges(*graph) == edges_of_first(books@, i as int),
            graph_edges(*graph).len() <= u32::MAX,
        decreases n - i,
    {
        proof {
            lemma_source_node(books@, i as int);
        }
        match lookup.get(books[i].title.as_str()) {
            Some(node) => {
                let source: usize = *node;
                let mut j: usize = 0;
                while j < n
                    invariant
                        n == books@.len(),
                        i < n <= u32::MAX,
                        j <= n,
                        keyed@.len() == n,
                        forall|k: int| 0 <= k < n ==> keyed@[k] == is_keyed(books@, k),
                        source == source_node(books@, i as int),
                        source < n,
                        graph_nodes(*graph) == books@,
                        graph_edges(*graph) == edges_of_first(books@, i as int) + record_edges(
                            books@,
                            i as int,
                            j as int,
                        ),
                        graph_edges(*graph).len() <= u32::MAX,
                    decreases n - j,
                {
                    if keyed[j] && books[i].title != books[j].title {
                        let weight = similarity(&books[i], &books[j]);
                        if weight > 0 {
                            proof {
                                assert(linked(books@, i as int, j as int));
                                lemma_edges_so_far(books@, i as int, j + 1);
                                assert(link(books@, i as int, j as int) == (Edge {
                                    source,
                                    target: j,
                                    weight,
                                }));
                            }
                            if edge_count(graph) >= u32::MAX as usize {
                                return false;
                            }
                            add_edge(graph, source, j, weight);
                        }
                    }
                    j = j + 1;
                }
            },
            None => {},
        }
        i = i + 1;
    }
    true
}

/// Builds the similarity graph of `books`, where the graph can hold it.
///
/// Every book becomes a node, in the order of the slice, and is entered
/// under its title into a lookup; of several books with one title the last
/// one keeps the entry. Then every book is compared with every node that
/// the lookup leads to and whose title differs from its own. Where the
/// similarity is positive, an edge with that weight goes from the node of
/// the book's title to that node. The edges come book after book, and for
/// each book by rising target.
///
/// The result is `None` exactly where the books or the edges would be more
/// than the graph can hold.
pub fn try_build_graph<'a>(books: &'a [Book]) -> (built: Option<DiGraph<&'a Book, u32>>)
    ensures
        built is Some <==> fits(books@),
        match built {
            Some(graph) => {
                &&& graph_nodes(graph) == books@
                &&& graph_edges(graph) == similarity_edges(books@)
                &&& graph_edges(graph).len() <= books@.len() * (books@.len() - 1)
            },
            None => true,
        },
{
    if books.len() > u32::MAX as usize {
        return None;
    }
    let (mut graph, lookup) = add_books(books);
    let keyed = keyed_nodes(books, &lookup);
    let done = add_links(&mut graph, books, &lookup, &keyed);
    proof {
        lemma_edge_count(books@);
    }
    if done {
        Some(graph)
    } else {
        None
    }
}

/// Builds the similarity graph of `books`: one node for every book, in the
/// order of the slice, and the edges that [`similarity_edges`] lists, in
/// that order. See [`try_build_graph`] for how they come about.
///
/// The books must be such that the graph can hold them and their edges;
/// [`try_build_graph`] asks for nothing and tells.
pub fn build_graph<'a>(books: &'a [Book]) -> (graph: DiGraph<&'a Book, u32>)
    requires
        fits(books@),
    ensures
        graph_nodes(graph) == books@,
        graph_edges(graph) == similarity_edges(books@),
        graph_edges(graph).len() <= books@.len() * (books@.len() - 1),
{
    let (mut graph, lookup) = add_books(books);
    let keyed = keyed_nodes(books, &lookup);
    add_links(&mut graph, books, &lookup, &keyed);
    proof {
        lemma_edge_count(books@);
    }
    graph
}

/// The out-degree of every node, by node index.
pub fn node_degrees(graph: &DiGraph<&Book, u32>) -> (list: Vec<usize>)
    ensures
        list@ == degrees(*graph),
        forall|a: int|
            0 <= a < list@.len() ==> #[trigger] list@[a] == out_degree(graph_edges(*graph), a),
{
    let n = node_count(graph);
    let mut list: Vec<usize> = Vec::new();
    let mut a: usize = 0;
    while a < n
        invariant
            n == graph_nodes(*graph).len(),
            a <= n,
            list@.len() == a,
            forall|b: int|
                0 <= b < a ==> #[trigger] list@[b] == out_degree(graph_edges(*graph), b),
        decreases n - a,
    {
        list.push(degree(graph, a));
        a = a + 1;
    }
    proof {
        assert(list@ =~= degrees(*graph));
    }
    list
}

/// Reports the best-connected nodes: the [`TOP_NODES`] nodes of the highest
/// out-degree, each with the title of its book and its out-degree, the
/// highest first. Among nodes of one degree the one that was added first
/// comes first. A graph with fewer nodes has all of them reported.
pub fn find_highly_connected_nodes<'a>(graph: &'a DiGraph<&'a Book, u32>) -> (top: Vec<
    (&'a String, usize),
>)
    ensures
        top@.len() == if graph_nodes(*graph).len() < TOP_NODES {
            graph_nodes(*graph).len()
        } else {
            TOP_NODES as nat
        },
        is_top(degrees(*graph), top_nodes(degrees(*graph), TOP_NODES as nat), TOP_NODES as nat),
        forall|p: int|
            0 <= p < top@.len() ==> {
                let node = top_nodes(degrees(*graph), TOP_NODES as nat)[p] as int;
                &&& (#[trigger] top@[p]).0@ == graph_nodes(*graph)[node].title@
                &&& top@[p].1 == out_degree(graph_edges(*graph), node)
            },
        forall|p: int, q: int| 0 <= p <= q < top@.len() ==> top@[p].1 >= top@[q].1,
{
    let list = node_degrees(graph);
    let best = top_ranked(list.as_slice(), TOP_NODES);
    let mut top: Vec<(&'a String, usize)> = Vec::new();
    let mut p: usize = 0;
    while p < best.len()
        invariant
            list@ == degrees(*graph),
            list@.len() == graph_nodes(*graph).len(),
            forall|a: int|
                0 <= a < list@.len() ==> #[trigger] list@[a] == out_degree(graph_edges(*graph), a),
            is_top(list@, best@, TOP_NODES as nat),
            p <= best@.len(),
            top@.len() == p,
            forall|q: int|
                0 <= q < p ==> {
                    &&& (#[trigger] top@[q]).0@ == graph_nodes(*graph)[best@[q] as int].title@
                    &&& top@[q].1 == list@[best@[q] as int]
                },
        decreases best@.len() - p,
    {
        let node = best[p];
        let book = node_book(graph, node);
        top.push((&book.title, list[node]));
        p = p + 1;
    }
    proof {
        assert forall|p: int, q: int| 0 <= p <= q < top@.len() implies top@[p].1 >= top@[q].1 by {
            lemma_top_degrees_fall(list@, best@, TOP_NODES as nat, p, q);
        }
    }
    top
}

/// Reports the degree distribution: every out-degree that some node has is
/// mapped to the number of nodes of that degree and the number of all
/// nodes, whose quotient is the share of that degree. Of more than
/// [`TOP_DEGREES`] degrees only the highest are kept.
pub fn analyze_degree_distribution(graph: &DiGraph<&Book, u32>) -> (table: HashMap<
    usize,
    (usize, usize),
>)
    ensures
        table@ == distribution(degrees(*graph), TOP_DEGREES as nat),
{
    let list = node_degrees(graph);
    degree_distribution(list.as_slice(), TOP_DEGREES)
}

/// Edge `at` has a positive weight that no edge exceeds and no earlier edge
/// equals: it is the first of the heaviest edges.
pub open spec fn is_heaviest(edges: Seq<Edge>, at: int) -> bool {
    &&& 0 <= at < edges.len()
    &&& edges[at].weight > 0
    &&& forall|k: int| 0 <= k < edges.len() ==> (#[trigger] edges[k]).weight <= edges[at].weight
    &&& forall|k: int| 0 <= k < at ==> (#[trigger] edges[k]).weight < edges[at].weight
}

/// The index of the first of the heaviest edges.
pub open spec fn first_heaviest(edges: Seq<Edge>) -> int {
    choose|at: int| is_heaviest(edges, at)
}

/// Only one edge is the first of the heaviest.
pub proof fn lemma_heaviest_unique(edges: Seq<Edge>, a: int, b: int)
    requires
        is_heaviest(edges, a),
        is_heaviest(edges, b),
    ensures
        a == b,
{
    if a < b {
        assert(edges[a].weight < edges[b].weight);
    } else if b < a {
        assert(edges[b].weight < edges[a].weight);
    }
}

/// Finds the most similar pair of books: the two ends of the heaviest edge,
/// by their titles, and its weight. Of several heaviest edges the first one
/// is reported. There is no such pair where no edge has a positive weight,
/// so in a graph whose weights are all positive exactly where there is no
/// edge.
pub fn find_most_similar_neighbors<'a>(graph: &'a DiGraph<&'a Book, u32>) -> (found: Option<
    (&'a String, &'a String, u32),
>)
    ensures
        match found {
            Some((source, target, weight)) => {
                let at = first_heaviest(graph_edges(*graph));
                &&& is_heaviest(graph_edges(*graph), at)
                &&& source@ == graph_nodes(*graph)[graph_edges(*graph)[at].source as int].title@
                &&& target@ == graph_nodes(*graph)[graph_edges(*graph)[at].target as int].title@
                &&& weight == graph_edges(*graph)[at].weight
                &&& forall|k: int|
                    0 <= k < graph_edges(*graph).len() ==> (#[trigger] graph_edges(
                        *graph,
                    )[k]).weight <= weight
            },
            None => forall|k: int|
                0 <= k < graph_edges(*graph).len() ==> (#[trigger] graph_edges(*graph)[k]).weight == 0,
        },
        (forall|k: int|
            0 <= k < graph_edges(*graph).len() ==> (#[trigger] graph_edges(*graph)[k]).weight > 0)
            ==> (found is None <==> graph_edges(*graph).len() == 0),
{
    let edges = all_edges(graph);
    let mut best: Option<usize> = None;
    let mut max_weight: u32 = 0;
    let mut k: usize = 0;
    while k < edges.len()
        invariant
            edges@ == graph_edges(*graph),
            k <= edges@.len(),
            match best {
                Some(at) => {
                    &&& at < k
                    &&& edges@[at as int].weight == max_weight
                    &&& max_weight > 0
                    &&& forall|j: int| 0 <= j < at ==> (#[trigger] edges@[j]).weight < max_weight
                },
                None => max_weight == 0,
            },
            forall|j: int| 0 <= j < k ==> (#[trigger] edges@[j]).weight <= max_weight,
        decreases edges@.len() - k,
    {
        if edges[k].weight > max_weight {
            max_weight = edges[k].weight;
            best = Some(k);
        }
        k = k + 1;
    }
    match best {
        Some(at) => {
            proof {
                assert(is_heaviest(edges@, at as int));
                lemma_heaviest_unique(edges@, at as int, first_heaviest(edges@));
                assert(edges_within(edges@, graph_nodes(*graph).len()));
            }
            let edge = edges[at];
            let source = node_book(graph, edge.source);
            let target = node_book(graph, edge.target);
            Some((&source.title, &target.title, edge.weight))
        },
        None => {
            proof {
                if edges@.len() > 0 {
                    assert(edges@[0].weight == 0);
                }
            }
            None
        },
    }
}

} // verus!
