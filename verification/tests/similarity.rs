use book_graph::dataprep::Book;
use book_graph::similarity::similarity;
use book_graph::similarity::within;
use book_graph::similarity::AUTHORS_WEIGHT;
use book_graph::similarity::MAX_WEIGHT;
use book_graph::similarity::PAGES_TOLERANCE;
use book_graph::similarity::PAGES_WEIGHT;
use book_graph::similarity::PUBLISHER_WEIGHT;
use book_graph::similarity::RATING_TOLERANCE;
use book_graph::similarity::RATING_WEIGHT;

fn book(authors: &str, rating: u32, pages: Option<u32>, publisher: &str) -> Book {
    Book {
        title: "T".to_string(),
        authors: authors.to_string(),
        average_rating: rating,
        num_pages: pages,
        publisher: publisher.to_string(),
        ..Default::default()
    }
}

#[test]
fn default_book_is_empty() {
    let b = Book::default();
    assert_eq!(b.book_id, None);
    assert_eq!(b.title, "");
    assert_eq!(b.authors, "");
    assert_eq!(b.average_rating, 0);
    assert_eq!(b.isbn, "");
    assert_eq!(b.isbn13, "");
    assert_eq!(b.language_code, None);
    assert_eq!(b.num_pages, None);
    assert_eq!(b.ratings_count, 0);
    assert_eq!(b.text_reviews_count, 0);
    assert_eq!(b.publication_date, None);
    assert_eq!(b.publisher, "");
}

#[test]
fn constants_are_tenths_and_hundredths() {
    assert_eq!(AUTHORS_WEIGHT, 1);
    assert_eq!(RATING_WEIGHT, 10);
    assert_eq!(PAGES_WEIGHT, 5);
    assert_eq!(PUBLISHER_WEIGHT, 2);
    assert_eq!(MAX_WEIGHT, 18);
    assert_eq!(RATING_TOLERANCE, 50);
    assert_eq!(PAGES_TOLERANCE, 50);
}

#[test]
fn within_is_distance_against_tolerance() {
    assert!(within(450, 400, 50));
    assert!(within(400, 450, 50));
    assert!(!within(451, 400, 50));
    assert!(!within(400, 451, 50));
    assert!(within(7, 7, 0));
    assert!(!within(0, u32::MAX, 50));
    assert!(within(0, u32::MAX, u32::MAX));
}

#[test]
fn nothing_shared_weighs_nothing() {
    let a = book("X", 100, Some(100), "P");
    let b = book("Y", 300, Some(400), "Q");
    assert_eq!(similarity(&a, &b), 0);
}

#[test]
fn each_criterion_adds_its_constant() {
    let base = book("X", 100, Some(100), "P");
    assert_eq!(similarity(&base, &book("X", 300, Some(400), "Q")), 1);
    assert_eq!(similarity(&base, &book("Y", 120, Some(400), "Q")), 10);
    assert_eq!(similarity(&base, &book("Y", 300, Some(130), "Q")), 5);
    assert_eq!(similarity(&base, &book("Y", 300, Some(400), "P")), 2);
}

#[test]
fn criteria_add_up() {
    let base = book("X", 100, Some(100), "P");
    assert_eq!(similarity(&base, &book("X", 100, Some(100), "P")), 18);
    assert_eq!(similarity(&base, &book("X", 120, Some(400), "Q")), 11);
    assert_eq!(similarity(&base, &book("Y", 120, Some(130), "Q")), 15);
    assert_eq!(similarity(&base, &book("X", 300, Some(400), "P")), 3);
    assert_eq!(similarity(&base, &book("Y", 300, Some(130), "P")), 7);
    assert_eq!(similarity(&base, &book("Y", 120, Some(130), "P")), 17);
}

#[test]
fn rating_tolerance_is_inclusive() {
    let a = book("X", 450, None, "P");
    assert_eq!(similarity(&a, &book("Y", 400, None, "Q")), 10);
    assert_eq!(similarity(&a, &book("Y", 500, None, "Q")), 10);
    assert_eq!(similarity(&a, &book("Y", 399, None, "Q")), 0);
    assert_eq!(similarity(&a, &book("Y", 501, None, "Q")), 0);
}

#[test]
fn pages_tolerance_is_inclusive() {
    let a = book("X", 0, Some(300), "P");
    assert_eq!(similarity(&a, &book("Y", 100, Some(350), "Q")), 5);
    assert_eq!(similarity(&a, &book("Y", 100, Some(250), "Q")), 5);
    assert_eq!(similarity(&a, &book("Y", 100, Some(351), "Q")), 0);
    assert_eq!(similarity(&a, &book("Y", 100, Some(249), "Q")), 0);
}

#[test]
fn missing_pages_skip_the_pages_criterion() {
    let known = book("X", 0, Some(300), "P");
    let unknown = book("Y", 100, None, "Q");
    assert_eq!(similarity(&known, &unknown), 0);
    assert_eq!(similarity(&unknown, &known), 0);
    assert_eq!(similarity(&unknown, &book("Z", 200, None, "R")), 0);
    let zero = book("Y", 100, Some(0), "Q");
    assert_eq!(similarity(&zero, &book("Z", 200, Some(0), "R")), 5);
}

#[test]
fn huge_page_counts_are_far_apart() {
    let a = book("X", 0, Some(u32::MAX), "P");
    let b = book("Y", 100, Some(0), "Q");
    assert_eq!(similarity(&a, &b), 0);
    let c = book("Y", 100, Some(u32::MAX - 50), "Q");
    assert_eq!(similarity(&a, &c), 5);
}

#[test]
fn similarity_is_symmetric_and_bounded() {
    let books = vec![
        book("X", 450, Some(300), "P"),
        book("X", 400, Some(320), "P"),
        book("Y", 380, None, "Q"),
        book("Y", 390, Some(145), "P"),
        book("Z", 10, Some(5000), "R"),
    ];
    let allowed: [u32; 16] = [0, 1, 2, 3, 5, 6, 7, 8, 10, 11, 12, 13, 15, 16, 17, 18];
    for a in &books {
        for b in &books {
            let w = similarity(a, b);
            assert_eq!(w, similarity(b, a));
            assert!(w <= MAX_WEIGHT);
            assert!(allowed.contains(&w));
        }
    }
}
