use vstd::prelude::*;

verus! {

/// One highlight as a source hands it over, before any grouping.
///
/// A record is produced per source row and never changed afterwards. Metadata
/// recovered by the source's joins (`isbn`, `author`, `book_title`) may be
/// absent; absence is kept explicit here and replaced by a placeholder only at
/// the grouping boundary.
pub struct HighlightEntry {
    pub isbn: Option<String>,
    pub author: Option<String>,
    pub book_title: Option<String>,
    pub title: String,
    pub highlight: String,
    pub annotation: Option<String>,
    pub start_offset: i32,
    pub end_offset: i32,
    pub start_container_path: String,
    pub end_container_path: String,
}

/// The mathematical value of a [`HighlightEntry`]: every field as a sequence
/// of characters or an unbounded integer.
#[verifier::ext_equal]
pub ghost struct EntryModel {
    pub isbn: Option<Seq<char>>,
    pub author: Option<Seq<char>>,
    pub book_title: Option<Seq<char>>,
    pub title: Seq<char>,
    pub highlight: Seq<char>,
    pub annotation: Option<Seq<char>>,
    pub start_offset: int,
    pub end_offset: int,
    pub start_container_path: Seq<char>,
    pub end_container_path: Seq<char>,
}

impl View for HighlightEntry {
    type V = EntryModel;

    open spec fn view(&self) -> EntryModel {
        EntryModel {
            isbn: self.isbn.deep_view(),
            author: self.author.deep_view(),
            book_title: self.book_title.deep_view(),
            title: self.title@,
            highlight: self.highlight@,
            annotation: self.annotation.deep_view(),
            start_offset: self.start_offset as int,
            end_offset: self.end_offset as int,
            start_container_path: self.start_container_path@,
            end_container_path: self.end_container_path@,
        }
    }
}

/// One book after grouping: a resolved (never absent) title and author, and
/// the highlight bodies in reading order.
pub struct Book {
    pub title: String,
    pub author: String,
    pub highlights: Vec<String>,
}

/// The mathematical value of a [`Book`].
#[verifier::ext_equal]
pub ghost struct BookModel {
    pub title: Seq<char>,
    pub author: Seq<char>,
    pub highlights: Seq<Seq<char>>,
}

impl View for Book {
    type V = BookModel;

    open spec fn view(&self) -> BookModel {
        BookModel {
            title: self.title@,
            author: self.author@,
            highlights: self.highlights.deep_view(),
        }
    }
}

/// Why a whole source read failed. Any of these aborts the run; only
/// [`RowDecodeError`] is recoverable, and it never reaches the caller as a
/// run failure.
pub enum SourceError {
    /// The file is missing, unreadable, or not a valid container for the
    /// expected format. The payload identifies the failing file.
    SourceUnavailable(String),
    /// The container opened but the expected structure or query failed. The
    /// payload identifies the failing operation.
    QueryError(String),
    /// The container is structurally valid but its content does not match the
    /// expected schema. The payload identifies what did not match.
    MalformedInput(String),
}

/// One row that could not be decoded. Such rows are skipped with a warning;
/// the read as a whole goes on.
pub struct RowDecodeError {
    pub message: String,
}

} // verus!
