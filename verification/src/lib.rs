//! A similarity graph of books, and what can be read off it.
//!
//! [`graph::build_graph`] turns a catalogue of [`dataprep::Book`]s into a
//! directed `petgraph` graph: a node for every book, and between two books
//! of different titles an edge each way whose weight says how much they have
//! in common ([`similarity`]). The analysis functions of [`graph`] report the
//! best-connected books, the distribution of out-degrees and the most
//! similar pair.
//!
//! Numbers that are fractions elsewhere are whole numbers here: ratings are
//! counted in hundredths of a star, weights in tenths of a point, and the
//! share of a degree is given as a count and a total.

pub mod dataprep;
pub mod digraph;
pub mod distribution;
pub mod edges;
pub mod graph;
pub mod ranking;
pub mod similarity;
