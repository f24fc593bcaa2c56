use book_graph::dataprep::Book;
use book_graph::digraph::degree;
use book_graph::graph::analyze_degree_distribution;
use book_graph::graph::build_graph;
use book_graph::graph::find_highly_connected_nodes;
use book_graph::graph::find_most_similar_neighbors;
use book_graph::graph::node_degrees;
use book_graph::graph::try_build_graph;
use petgraph::graph::DiGraph;
use petgraph::visit::EdgeRef;

fn book(title: &str, authors: &str, rating: u32, pages: Option<u32>, publisher: &str) -> Book {
    Book {
        title: title.to_string(),
        authors: authors.to_string(),
        average_rating: rating,
        num_pages: pages,
        publisher: publisher.to_string(),
        ..Default::default()
    }
}

fn four_books() -> Vec<Book> {
    vec![
        book("A", "X", 450, Some(300), "P1"),
        book("B", "X", 400, Some(320), "P1"),
        book("C", "Y", 380, Some(150), "P2"),
        book("D", "Y", 390, Some(145), "P2"),
    ]
}

fn two_islands() -> Vec<Book> {
    vec![
        book("A", "X", 450, Some(300), "P1"),
        book("B", "X", 400, Some(320), "P1"),
        book("C", "Y", 280, Some(150), "P2"),
        book("D", "Y", 290, Some(145), "P2"),
    ]
}

fn edge_list(graph: &DiGraph<&Book, u32>) -> Vec<(usize, usize, u32)> {
    graph.edge_references().map(|e| (e.source().index(), e.target().index(), *e.weight())).collect()
}

#[test]
fn four_books_edges_in_order() {
    let books = four_books();
    let graph = build_graph(&books);
    assert_eq!(graph.node_count(), 4);
    assert_eq!(
        edge_list(&graph),
        vec![
            (0, 1, 18),
            (1, 0, 18),
            (1, 2, 10),
            (1, 3, 10),
            (2, 1, 10),
            (2, 3, 18),
            (3, 1, 10),
            (3, 2, 18),
        ]
    );
}

#[test]
fn four_books_most_similar_pair() {
    let books = four_books();
    let graph = build_graph(&books);
    let found = find_most_similar_neighbors(&graph);
    let (source, target, weight) = found.unwrap();
    assert_eq!(source, "A");
    assert_eq!(target, "B");
    assert_eq!(weight, 18);
}

#[test]
fn four_books_degrees() {
    let books = four_books();
    let graph = build_graph(&books);
    assert_eq!(node_degrees(&graph), vec![1, 3, 2, 2]);
    assert_eq!(degree(&graph, 1), 3);
    let top = find_highly_connected_nodes(&graph);
    let listed: Vec<(String, usize)> = top.iter().map(|(t, d)| ((*t).clone(), *d)).collect();
    assert_eq!(
        listed,
        vec![
            ("B".to_string(), 3),
            ("C".to_string(), 2),
            ("D".to_string(), 2),
            ("A".to_string(), 1),
        ]
    );
    let table = analyze_degree_distribution(&graph);
    assert_eq!(table.len(), 3);
    assert_eq!(table.get(&3), Some(&(1, 4)));
    assert_eq!(table.get(&2), Some(&(2, 4)));
    assert_eq!(table.get(&1), Some(&(1, 4)));
}

#[test]
fn two_islands_pair_up() {
    let books = two_islands();
    let graph = build_graph(&books);
    assert_eq!(edge_list(&graph), vec![(0, 1, 18), (1, 0, 18), (2, 3, 18), (3, 2, 18)]);
    let (source, target, weight) = find_most_similar_neighbors(&graph).unwrap();
    assert_eq!((source.as_str(), target.as_str(), weight), ("A", "B", 18));
    let table = analyze_degree_distribution(&graph);
    assert_eq!(table.len(), 1);
    assert_eq!(table.get(&1), Some(&(4, 4)));
    let (count, total) = table[&1];
    assert_eq!(count as f64 / total as f64 * 100.0, 100.0);
    let top = find_highly_connected_nodes(&graph);
    let listed: Vec<(&str, usize)> = top.iter().map(|(t, d)| (t.as_str(), *d)).collect();
    assert_eq!(listed, vec![("A", 1), ("B", 1), ("C", 1), ("D", 1)]);
}

#[test]
fn every_edge_has_its_mirror() {
    let books = four_books();
    let graph = build_graph(&books);
    let edges = edge_list(&graph);
    for (s, t, w) in &edges {
        assert!(edges.contains(&(*t, *s, *w)));
    }
}

#[test]
fn edges_are_few_positive_and_never_loops() {
    let books = four_books();
    let graph = build_graph(&books);
    let n = graph.node_count();
    assert!(graph.edge_count() <= n * (n - 1));
    let allowed: [u32; 15] = [1, 2, 3, 5, 6, 7, 8, 10, 11, 12, 13, 15, 16, 17, 18];
    for (s, t, w) in edge_list(&graph) {
        assert_ne!(s, t);
        assert!(s < n && t < n);
        assert!(allowed.contains(&w));
    }
}

#[test]
fn complete_graph_has_all_ordered_pairs() {
    let books = vec![
        book("A", "X", 100, None, "P"),
        book("B", "X", 100, None, "P"),
        book("C", "X", 100, None, "P"),
    ];
    let graph = build_graph(&books);
    assert_eq!(graph.edge_count(), 6);
    assert_eq!(node_degrees(&graph), vec![2, 2, 2]);
    for (_, _, w) in edge_list(&graph) {
        assert_eq!(w, 13);
    }
}

#[test]
fn most_similar_pair_is_the_first_heaviest() {
    let books = vec![
        book("A", "X", 100, None, "P"),
        book("B", "Y", 120, None, "Q"),
        book("C", "Z", 110, Some(10), "R"),
        book("D", "W", 110, Some(20), "S"),
        book("E", "V", 110, Some(30), "T"),
    ];
    let graph = build_graph(&books);
    let (source, target, weight) = find_most_similar_neighbors(&graph).unwrap();
    assert_eq!((source.as_str(), target.as_str(), weight), ("C", "D", 15));
    let heaviest = edge_list(&graph).iter().map(|e| e.2).max().unwrap();
    assert_eq!(weight, heaviest);
}

#[test]
fn no_edges_no_pair() {
    let books = vec![book("A", "X", 100, None, "P"), book("B", "Y", 300, None, "Q")];
    let graph = build_graph(&books);
    assert_eq!(graph.node_count(), 2);
    assert_eq!(graph.edge_count(), 0);
    assert!(find_most_similar_neighbors(&graph).is_none());
    let table = analyze_degree_distribution(&graph);
    assert_eq!(table.len(), 1);
    assert_eq!(table.get(&0), Some(&(2, 2)));
    let top = find_highly_connected_nodes(&graph);
    let listed: Vec<(&str, usize)> = top.iter().map(|(t, d)| (t.as_str(), *d)).collect();
    assert_eq!(listed, vec![("A", 0), ("B", 0)]);
}

#[test]
fn one_book_is_a_lone_node() {
    let books = vec![book("A", "X", 100, Some(1), "P")];
    let graph = build_graph(&books);
    assert_eq!(graph.node_count(), 1);
    assert_eq!(graph.edge_count(), 0);
    assert!(find_most_similar_neighbors(&graph).is_none());
    assert_eq!(find_highly_connected_nodes(&graph).len(), 1);
}

#[test]
fn no_books_give_an_empty_graph() {
    let books: Vec<Book> = vec![];
    let graph = build_graph(&books);
    assert_eq!(graph.node_count(), 0);
    assert_eq!(graph.edge_count(), 0);
    assert!(find_most_similar_neighbors(&graph).is_none());
    assert!(find_highly_connected_nodes(&graph).is_empty());
    assert!(analyze_degree_distribution(&graph).is_empty());
    assert!(node_degrees(&graph).is_empty());
}

#[test]
fn a_repeated_title_leads_to_its_last_book() {
    let books = vec![
        book("T", "X", 100, None, "P"),
        book("U", "X", 300, None, "Q"),
        book("T", "Y", 300, None, "Q"),
    ];
    let graph = build_graph(&books);
    assert_eq!(graph.node_count(), 3);
    assert_eq!(edge_list(&graph), vec![(2, 1, 1), (1, 2, 12), (2, 1, 12)]);
    assert_eq!(node_degrees(&graph), vec![0, 1, 2]);
    let (source, target, weight) = find_most_similar_neighbors(&graph).unwrap();
    assert_eq!((source.as_str(), target.as_str(), weight), ("U", "T", 12));
}

#[test]
fn top_nodes_are_at_most_five_and_sorted() {
    let mut books: Vec<Book> = Vec::new();
    for i in 0..8u32 {
        books.push(book(&format!("B{}", i), "X", i * 30, None, &format!("P{}", i)));
    }
    let graph = build_graph(&books);
    assert_eq!(graph.node_count(), 8);
    let top = find_highly_connected_nodes(&graph);
    assert_eq!(top.len(), 5);
    for pair in top.windows(2) {
        assert!(pair[0].1 >= pair[1].1);
    }
    let degrees = node_degrees(&graph);
    assert_eq!(degrees, vec![7; 8]);
    let listed: Vec<&str> = top.iter().map(|(t, _)| t.as_str()).collect();
    assert_eq!(listed, vec!["B0", "B1", "B2", "B3", "B4"]);
}

#[test]
fn analysis_reads_any_graph() {
    let books = four_books();
    let mut graph: DiGraph<&Book, u32> = DiGraph::new();
    let a = graph.add_node(&books[0]);
    let b = graph.add_node(&books[1]);
    let c = graph.add_node(&books[2]);
    graph.add_edge(c, a, 0);
    graph.add_edge(c, b, 7);
    graph.add_edge(a, b, 7);
    graph.add_edge(c, c, 3);
    assert_eq!(node_degrees(&graph), vec![1, 0, 3]);
    let (source, target, weight) = find_most_similar_neighbors(&graph).unwrap();
    assert_eq!((source.as_str(), target.as_str(), weight), ("C", "B", 7));
    let top = find_highly_connected_nodes(&graph);
    let listed: Vec<(&str, usize)> = top.iter().map(|(t, d)| (t.as_str(), *d)).collect();
    assert_eq!(listed, vec![("C", 3), ("A", 1), ("B", 0)]);
}

#[test]
fn zero_weights_make_no_pair() {
    let books = four_books();
    let mut graph: DiGraph<&Book, u32> = DiGraph::new();
    let a = graph.add_node(&books[0]);
    let b = graph.add_node(&books[1]);
    graph.add_edge(a, b, 0);
    assert!(find_most_similar_neighbors(&graph).is_none());
}

#[test]
fn try_build_graph_builds_what_fits() {
    let books = four_books();
    let built = try_build_graph(&books);
    assert!(built.is_some());
    let graph = built.unwrap();
    assert_eq!(graph.node_count(), 4);
    assert_eq!(edge_list(&graph), edge_list(&build_graph(&books)));
    let none: Vec<Book> = vec![];
    let empty = try_build_graph(&none).unwrap();
    assert_eq!(empty.node_count(), 0);
    assert_eq!(empty.edge_count(), 0);
}
