use vstd::prelude::*;

verus! {

/// How a book is delivered.
pub enum BookType {
    /// A paper book.
    Paper,
    /// A PDF file.
    Pdf,
    /// A plain-text file.
    Txt,
}

impl BookType {
    /// The stored tag of each delivery kind: paper 1, PDF 2, text 3.
    pub fn code(&self) -> (r: u8)
        ensures
            r == match self {
                BookType::Paper => 1u8,
                BookType::Pdf => 2u8,
                BookType::Txt => 3u8,
            },
    {
        match self {
            BookType::Paper => 1,
            BookType::Pdf => 2,
            BookType::Txt => 3,
        }
    }
}

/// A book joined with its owner, for replies that carry both.
pub struct BookWithUser<A, B> {
    pub book: A,
    pub user: B,
}

/// A plain paged-listing request; pages start at 1.
pub struct ListRequest {
    /// Page, starting at 1.
    pub page: Option<i64>,
    /// How many rows are wanted.
    pub limit: Option<i64>,
}

} // verus!
