use crate::dataprep::Book;
use vstd::prelude::*;

verus! {

/// Weights are counted in tenths of a point, so that 18 stands for 1.8.
///
/// What two books with the same authors add to their weight.
pub const AUTHORS_WEIGHT: u32 = 1;

/// What two books with close ratings add to their weight.
pub const RATING_WEIGHT: u32 = 10;

/// What two books with close page counts add to their weight.
pub const PAGES_WEIGHT: u32 = 5;

/// What two books of the same publisher add to their weight.
pub const PUBLISHER_WEIGHT: u32 = 2;

/// The largest weight: all four criteria met.
pub const MAX_WEIGHT: u32 = 18;

/// Two ratings are close when they differ by at most this many hundredths
/// of a star.
pub const RATING_TOLERANCE: u32 = 50;

/// Two page counts are close when they differ by at most this many pages.
pub const PAGES_TOLERANCE: u32 = 50;

/// The distance between two numbers.
pub open spec fn distance(x: int, y: int) -> int {
    if x >= y {
        x - y
    } else {
        y - x
    }
}

/// The two books name the same authors, letter for letter.
pub open spec fn same_authors(a: Book, b: Book) -> bool {
    a.authors@ == b.authors@
}

/// The two ratings differ by no more than the tolerance.
pub open spec fn close_rating(a: Book, b: Book) -> bool {
    distance(a.average_rating as int, b.average_rating as int) <= RATING_TOLERANCE
}

/// Both page counts are known and differ by no more than the tolerance.
pub open spec fn close_pages(a: Book, b: Book) -> bool {
    match (a.num_pages, b.num_pages) {
        (Some(p), Some(q)) => distance(p as int, q as int) <= PAGES_TOLERANCE,
        _ => false,
    }
}

/// The two books name the same publisher, letter for letter.
pub open spec fn same_publisher(a: Book, b: Book) -> bool {
    a.publisher@ == b.publisher@
}

/// What a criterion adds to a weight: its constant when it is met, nothing
/// otherwise.
pub open spec fn share(met: bool, weight: u32) -> nat {
    if met {
        weight as nat
    } else {
        0
    }
}

/// The similarity of two books: the sum of what the four criteria add.
pub open spec fn pair_weight(a: Book, b: Book) -> nat {
    share(same_authors(a, b), AUTHORS_WEIGHT) + share(close_rating(a, b), RATING_WEIGHT) + share(
        close_pages(a, b),
        PAGES_WEIGHT,
    ) + share(same_publisher(a, b), PUBLISHER_WEIGHT)
}

/// Whether `x` and `y` lie within `tolerance` of each other.
pub fn within(x: u32, y: u32, tolerance: u32) -> (close: bool)
    ensures
        close == (distance(x as int, y as int) <= tolerance),
{
    if x >= y {
        x - y <= tolerance
    } else {
        y - x <= tolerance
    }
}

/// Computes the similarity of two books.
pub fn similarity(a: &Book, b: &Book) -> (weight: u32)
    ensures
        weight == pair_weight(*a, *b),
        weight <= MAX_WEIGHT,
{
    let mut weight: u32 = 0;
    if a.authors == b.authors {
        weight = weight + AUTHORS_WEIGHT;
    }
    if within(a.average_rating, b.average_rating, RATING_TOLERANCE) {
        weight = weight + RATING_WEIGHT;
    }
    match (a.num_pages, b.num_pages) {
        (Some(p), Some(q)) => {
            if within(p, q, PAGES_TOLERANCE) {
                weight = weight + PAGES_WEIGHT;
            }
        },
        _ => {},
    }
    if a.publisher == b.publisher {
        weight = weight + PUBLISHER_WEIGHT;
    }
    weight
}

/// Similarity does not depend on the order of the two books.
pub proof fn lemma_pair_weight_symmetric(a: Book, b: Book)
    ensures
        pair_weight(a, b) == pair_weight(b, a),
{
}

/// The sixteen sums that can be made of the four constants, each taken at
/// most once.
pub open spec fn weight_values() -> Set<nat> {
    set![0nat, 1, 2, 3, 5, 6, 7, 8, 10, 11, 12, 13, 15, 16, 17, 18]
}

/// A weight is never negative, never above [`MAX_WEIGHT`], and always one of
/// the sixteen [`weight_values`].
pub proof fn lemma_pair_weight_values(a: Book, b: Book)
    ensures
        0 <= pair_weight(a, b) <= MAX_WEIGHT,
        weight_values().contains(pair_weight(a, b)),
{
}

} // verus!
