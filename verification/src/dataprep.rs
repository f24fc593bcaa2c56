use vstd::prelude::*;

verus! {

/// One book of the catalogue.
///
/// `title` identifies the book. The fields that later stages compare are
/// `authors`, `average_rating`, `num_pages` and `publisher`; the others are
/// carried along untouched. A value that the catalogue leaves out is `None`,
/// never a number or an empty string standing in for it.
#[derive(Debug)]
pub struct Book {
    pub book_id: Option<u32>,
    pub title: String,
    pub authors: String,
    /// Average rating in hundredths of a star: 4.57 stars is 457.
    pub average_rating: u32,
    pub isbn: String,
    pub isbn13: String,
    pub language_code: Option<String>,
    pub num_pages: Option<u32>,
    pub ratings_count: u32,
    pub text_reviews_count: u32,
    /// Day of publication, written MM/DD/YYYY.
    pub publication_date: Option<String>,
    pub publisher: String,
}

impl Default for Book {
    /// The book with every text empty, every count zero and every optional
    /// field absent.
    fn default() -> (book: Self)
        ensures
            book.book_id is None,
            book.title@ == Seq::<char>::empty(),
            book.authors@ == Seq::<char>::empty(),
            book.average_rating == 0,
            book.isbn@ == Seq::<char>::empty(),
            book.isbn13@ == Seq::<char>::empty(),
            book.language_code is None,
            book.num_pages is None,
            book.ratings_count == 0,
            book.text_reviews_count == 0,
            book.publication_date is None,
            book.publisher@ == Seq::<char>::empty(),
    {
        Book {
            book_id: None,
            title: String::new(),
            authors: String::new(),
            average_rating: 0,
            isbn: String::new(),
            isbn13: String::new(),
            language_code: None,
            num_pages: None,
            ratings_count: 0,
            text_reviews_count: 0,
            publication_date: None,
            publisher: String::new(),
        }
    }
}

} // verus!
