use crate::dataprep::Book;
use crate::digraph::Edge;
use crate::similarity::lemma_pair_weight_symmetric;
use crate::similarity::lemma_pair_weight_values;
use crate::similarity::pair_weight;
use crate::similarity::MAX_WEIGHT;
use vstd::prelude::*;

verus! {

/// The lookup from a title to the node that stands for it.
///
/// Books are entered one after the other, each under its title and with its
/// own position as the node. A book whose title was entered before takes the
/// entry over: a title leads to the last book that bears it.
pub open spec fn node_map(books: Seq<Book>) -> Map<Seq<char>, int>
    decreases books.len(),
{
    if books.len() == 0 {
        Map::empty()
    } else {
        node_map(books.drop_last()).insert(books.last().title@, books.len() - 1)
    }
}

/// The node that the title of book `i` leads to: the node that the edges of
/// book `i` leave from.
pub open spec fn source_node(books: Seq<Book>, i: int) -> int {
    node_map(books)[books[i].title@]
}

/// Node `j` is the one that its own title leads to. Only such nodes are
/// reached by edges.
pub open spec fn is_keyed(books: Seq<Book>, j: int) -> bool {
    source_node(books, j) == j
}

/// Book `i` gives an edge to node `j`: the node is reachable through its
/// title, the two titles differ, and the similarity of the two books is
/// positive.
pub open spec fn linked(books: Seq<Book>, i: int, j: int) -> bool {
    &&& 0 <= i < books.len()
    &&& 0 <= j < books.len()
    &&& is_keyed(books, j)
    &&& books[j].title@ != books[i].title@
    &&& pair_weight(books[i], books[j]) > 0
}

/// The edge that book `i` gives to node `j`.
pub open spec fn link(books: Seq<Book>, i: int, j: int) -> Edge {
    Edge {
        source: source_node(books, i) as usize,
        target: j as usize,
        weight: pair_weight(books[i], books[j]) as u32,
    }
}

/// The edges that book `i` gives to the first `m` nodes, by rising target.
pub open spec fn record_edges(books: Seq<Book>, i: int, m: int) -> Seq<Edge>
    decreases m,
{
    if m <= 0 {
        Seq::empty()
    } else if linked(books, i, m - 1) {
        record_edges(books, i, m - 1).push(link(books, i, m - 1))
    } else {
        record_edges(books, i, m - 1)
    }
}

/// The edges that the first `k` books give, book after book.
pub open spec fn edges_of_first(books: Seq<Book>, k: int) -> Seq<Edge>
    decreases k,
{
    if k <= 0 {
        Seq::empty()
    } else {
        edges_of_first(books, k - 1) + record_edges(books, k - 1, books.len() as int)
    }
}

/// The edges of the similarity graph of `books`, in the order in which they
/// are added: book after book, and for each book by rising target.
pub open spec fn similarity_edges(books: Seq<Book>) -> Seq<Edge> {
    edges_of_first(books, books.len() as int)
}

/// The graph of `books` can be held: the graph indexes its nodes and its
/// edges by `u32`, so neither may be more than `u32::MAX`.
pub open spec fn fits(books: Seq<Book>) -> bool {
    books.len() <= u32::MAX && similarity_edges(books).len() <= u32::MAX
}

/// No two books bear the same title.
pub open spec fn distinct_titles(books: Seq<Book>) -> bool {
    forall|i: int, j: int|
        0 <= i < books.len() && 0 <= j < books.len() && i != j ==> books[i].title@ != books[j].title@
}

/// The title of every book is in the lookup, and leads to the last book that
/// bears it.
pub proof fn lemma_source_node(books: Seq<Book>, i: int)
    requires
        0 <= i < books.len(),
    ensures
        node_map(books).contains_key(books[i].title@),
        i <= source_node(books, i) < books.len(),
        books[source_node(books, i)].title@ == books[i].title@,
        forall|k: int| source_node(books, i) < k < books.len() ==> books[k].title@ != books[i].title@,
    decreases books.len(),
{
    if books.last().title@ != books[i].title@ {
        let earlier = books.drop_last();
        lemma_source_node(earlier, i);
        assert forall|k: int| source_node(books, i) < k < books.len() implies books[k].title@
            != books[i].title@ by {
            if k < earlier.len() {
                assert(earlier[k].title@ != earlier[i].title@);
            }
        }
    }
}

/// A book gives no edge to a node of its own title, so among the first `m`
/// nodes at most those other than itself.
pub proof fn lemma_record_edges_len(books: Seq<Book>, i: int, m: int)
    requires
        0 <= i < books.len(),
        0 <= m <= books.len(),
    ensures
        record_edges(books, i, m).len() <= if i < m {
            m - 1
        } else {
            m
        },
    decreases m,
{
    if m > 0 {
        lemma_record_edges_len(books, i, m - 1);
    }
}

/// The first `k` books give at most `k * (n - 1)` edges, where `n` is the
/// number of books.
pub proof fn lemma_edges_of_first_len(books: Seq<Book>, k: int)
    requires
        0 <= k <= books.len(),
    ensures
        edges_of_first(books, k).len() <= k * (books.len() - 1),
    decreases k,
{
    if k > 0 {
        lemma_edges_of_first_len(books, k - 1);
        lemma_record_edges_len(books, k - 1, books.len() as int);
        assert(k * (books.len() - 1) == (k - 1) * (books.len() - 1) + (books.len() - 1))
            by (nonlinear_arith);
    }
}

/// The similarity graph of `n` books has at most `n * (n - 1)` edges.
pub proof fn lemma_edge_count(books: Seq<Book>)
    ensures
        similarity_edges(books).len() <= books.len() * (books.len() - 1),
{
    lemma_edges_of_first_len(books, books.len() as int);
}

/// A catalogue of at most 65 536 books gives a graph that `u32` indices can
/// hold.
pub proof fn lemma_small_catalogue_fits(books: Seq<Book>)
    requires
        books.len() <= 65_536,
    ensures
        fits(books),
{
    lemma_edge_count(books);
    assert(books.len() * (books.len() - 1) <= 65_536 * 65_535) by (nonlinear_arith)
        requires
            0 <= books.len() <= 65_536,
    ;
}

/// The edges of a book against more nodes are no fewer.
pub proof fn lemma_record_edges_grow(books: Seq<Book>, i: int, m: int, upto: int)
    requires
        m <= upto,
    ensures
        record_edges(books, i, m).len() <= record_edges(books, i, upto).len(),
    decreases upto - m,
{
    if m < upto {
        lemma_record_edges_grow(books, i, m, upto - 1);
    }
}

/// The edges of more books are no fewer.
pub proof fn lemma_edges_of_first_grow(books: Seq<Book>, k: int, upto: int)
    requires
        k <= upto,
    ensures
        edges_of_first(books, k).len() <= edges_of_first(books, upto).len(),
    decreases upto - k,
{
    if k < upto {
        lemma_edges_of_first_grow(books, k, upto - 1);
    }
}

/// While the graph is built, the edges added so far are no more than the
/// edges of the whole graph.
pub proof fn lemma_edges_so_far(books: Seq<Book>, i: int, m: int)
    requires
        0 <= i < books.len(),
        0 <= m <= books.len(),
    ensures
        edges_of_first(books, i).len() + record_edges(books, i, m).len() <= similarity_edges(
            books,
        ).len(),
{
    lemma_record_edges_grow(books, i, m, books.len() as int);
    lemma_edges_of_first_grow(books, i + 1, books.len() as int);
}

/// Where book `i` gives an edge to node `j`, that edge is among the edges
/// of the book.
pub proof fn lemma_record_edges_hold(books: Seq<Book>, i: int, j: int, m: int)
    requires
        linked(books, i, j),
        j < m,
    ensures
        record_edges(books, i, m).contains(link(books, i, j)),
    decreases m,
{
    let earlier = record_edges(books, i, m - 1);
    if j == m - 1 {
        assert(earlier.push(link(books, i, j)).last() == link(books, i, j));
    } else {
        lemma_record_edges_hold(books, i, j, m - 1);
        let at = choose|at: int| 0 <= at < earlier.len() && earlier[at] == link(books, i, j);
        if linked(books, i, m - 1) {
            assert(earlier.push(link(books, i, m - 1))[at] == link(books, i, j));
        }
    }
}

/// Where book `i` gives an edge to node `j`, that edge is among the edges
/// of the first `k` books, for every `k` beyond `i`.
pub proof fn lemma_edges_of_first_hold(books: Seq<Book>, i: int, j: int, k: int)
    requires
        linked(books, i, j),
        i < k,
    ensures
        edges_of_first(books, k).contains(link(books, i, j)),
    decreases k,
{
    let earlier = edges_of_first(books, k - 1);
    let added = record_edges(books, k - 1, books.len() as int);
    if i == k - 1 {
        lemma_record_edges_hold(books, i, j, books.len() as int);
        let at = choose|at: int| 0 <= at < added.len() && added[at] == link(books, i, j);
        assert((earlier + added)[earlier.len() + at] == link(books, i, j));
    } else {
        lemma_edges_of_first_hold(books, i, j, k - 1);
        let at = choose|at: int| 0 <= at < earlier.len() && earlier[at] == link(books, i, j);
        assert((earlier + added)[at] == link(books, i, j));
    }
}

/// Every pair that is linked has its edge in the graph.
pub proof fn lemma_link_is_edge(books: Seq<Book>, i: int, j: int)
    requires
        linked(books, i, j),
    ensures
        similarity_edges(books).contains(link(books, i, j)),
{
    lemma_edges_of_first_hold(books, i, j, books.len() as int);
}

/// Every edge of a book is the edge of a linked pair.
pub proof fn lemma_record_edges_origin(books: Seq<Book>, i: int, m: int, at: int) -> (j: int)
    requires
        0 <= at < record_edges(books, i, m).len(),
    ensures
        0 <= j < m,
        linked(books, i, j),
        record_edges(books, i, m)[at] == link(books, i, j),
    decreases m,
{
    let earlier = record_edges(books, i, m - 1);
    if linked(books, i, m - 1) && at == earlier.len() {
        m - 1
    } else {
        lemma_record_edges_origin(books, i, m - 1, at)
    }
}

/// Every edge of the first `k` books is the edge of a linked pair.
pub proof fn lemma_edges_of_first_origin(books: Seq<Book>, k: int, at: int) -> (pair: (int, int))
    requires
        0 <= at < edges_of_first(books, k).len(),
    ensures
        0 <= pair.0 < k,
        linked(books, pair.0, pair.1),
        edges_of_first(books, k)[at] == link(books, pair.0, pair.1),
    decreases k,
{
    let earlier = edges_of_first(books, k - 1);
    if at < earlier.len() {
        lemma_edges_of_first_origin(books, k - 1, at)
    } else {
        let j = lemma_record_edges_origin(books, k - 1, books.len() as int, at - earlier.len());
        (k - 1, j)
    }
}

/// Every edge of the graph is the edge of a linked pair: of a book and a
/// node of another title that the book is similar to.
pub proof fn lemma_edge_origin(books: Seq<Book>, at: int) -> (pair: (int, int))
    requires
        0 <= at < similarity_edges(books).len(),
    ensures
        linked(books, pair.0, pair.1),
        similarity_edges(books)[at] == link(books, pair.0, pair.1),
{
    lemma_edges_of_first_origin(books, books.len() as int, at)
}

/// No edge is a self-loop, both ends of every edge are nodes, and every
/// weight is positive, at most [`MAX_WEIGHT`] and the similarity of the book
/// that gave the edge with the book on the node that it reaches.
pub proof fn lemma_edge_shape(books: Seq<Book>, at: int) -> (i: int)
    requires
        books.len() <= usize::MAX,
        0 <= at < similarity_edges(books).len(),
    ensures
        0 <= i < books.len(),
        similarity_edges(books)[at].source == source_node(books, i),
        similarity_edges(books)[at].source < books.len(),
        similarity_edges(books)[at].target < books.len(),
        similarity_edges(books)[at].source != similarity_edges(books)[at].target,
        similarity_edges(books)[at].weight == pair_weight(
            books[i],
            books[similarity_edges(books)[at].target as int],
        ),
        0 < similarity_edges(books)[at].weight <= MAX_WEIGHT,
{
    let (i, j) = lemma_edge_origin(books, at);
    lemma_source_node(books, i);
    lemma_pair_weight_values(books[i], books[j]);
    i
}

/// An edge whose weight is the similarity of the books on its two ends has
/// its mirror: an edge the other way round, of the same weight.
///
/// Every edge that a book gives from its own node is such an edge. The
/// others are edges of a book whose title a later book bears too: they
/// leave from the node of that later book.
pub proof fn lemma_edge_mirror(books: Seq<Book>, at: int) -> (mirror: int)
    requires
        books.len() <= usize::MAX,
        0 <= at < similarity_edges(books).len(),
        similarity_edges(books)[at].weight == pair_weight(
            books[similarity_edges(books)[at].source as int],
            books[similarity_edges(books)[at].target as int],
        ),
    ensures
        0 <= mirror < similarity_edges(books).len(),
        similarity_edges(books)[mirror].source == similarity_edges(books)[at].target,
        similarity_edges(books)[mirror].target == similarity_edges(books)[at].source,
        similarity_edges(books)[mirror].weight == similarity_edges(books)[at].weight,
{
    let (i, j) = lemma_edge_origin(books, at);
    let s = source_node(books, i);
    lemma_source_node(books, i);
    lemma_source_node(books, s);
    lemma_source_node(books, j);
    lemma_pair_weight_symmetric(books[s], books[j]);
    lemma_pair_weight_values(books[i], books[j]);
    lemma_pair_weight_values(books[j], books[s]);
    assert(linked(books, j, s));
    lemma_link_is_edge(books, j, s);
    let edges = similarity_edges(books);
    choose|mirror: int| 0 <= mirror < edges.len() && edges[mirror] == link(books, j, s)
}

/// Where no two books share a title, every edge has its mirror: an edge
/// from `a` to `b` comes with an edge from `b` to `a` of the same weight.
pub proof fn lemma_edges_symmetric(books: Seq<Book>, at: int) -> (mirror: int)
    requires
        books.len() <= usize::MAX,
        distinct_titles(books),
        0 <= at < similarity_edges(books).len(),
    ensures
        0 <= mirror < similarity_edges(books).len(),
        similarity_edges(books)[mirror].source == similarity_edges(books)[at].target,
        similarity_edges(books)[mirror].target == similarity_edges(books)[at].source,
        similarity_edges(books)[mirror].weight == similarity_edges(books)[at].weight,
{
    let (i, j) = lemma_edge_origin(books, at);
    lemma_source_node(books, i);
    lemma_pair_weight_values(books[i], books[j]);
    assert(source_node(books, i) == i);
    lemma_edge_mirror(books, at)
}

} // verus!
