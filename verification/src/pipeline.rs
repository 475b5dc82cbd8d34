//! The pipeline driver: entries in, Markdown documents out.
//!
//! A source reader (the caller's side) produces one flat sequence of entries;
//! here they are sorted into reading order, grouped into books, and each book
//! is rendered. Any source-level failure aborts a run before it reaches this
//! point; the pipeline itself cannot fail.

use vstd::prelude::*;

use crate::entry::{Book, BookModel, EntryModel, HighlightEntry, SourceError};
use crate::group::{books_of, group_books, strs};
use crate::render::{markdown_of, text_to_markdown};
use crate::sorting::{models, sort_entries, sort_spec};

verus! {

/// The Markdown documents of one run, given its entries: sorted, grouped,
/// rendered, one document per book.
pub open spec fn rendered_of(s: Seq<EntryModel>) -> Seq<Seq<char>> {
    books_of(sort_spec(s)).map_values(|b: BookModel| markdown_of(b))
}

/// Groups one run's entries into books in reading order.
///
/// This is the whole computation between a source and the renderer: the
/// entries are sorted by `(book_title, start_container_path, start_offset)`,
/// then grouped by resolved title.
pub fn books_from_entries(entries: Vec<HighlightEntry>) -> (books: Vec<Book>)
    ensures
        books@.map_values(|b: Book| b@) == books_of(sort_spec(models(entries@))),
{
    let sorted_entries = sort_entries(entries);
    group_books(&sorted_entries)
}

/// Runs the whole pipeline on one run's entries: sorts, groups, and renders
/// every book, returning the Markdown documents in the books' order.
#[verifier::loop_isolation(false)]
pub fn render_books(entries: Vec<HighlightEntry>) -> (texts: Vec<String>)
    ensures
        strs(texts@) == rendered_of(models(entries@)),
{
    let books = books_from_entries(entries);
    let ghost bs = books@.map_values(|b: Book| b@);
    let mut texts: Vec<String> = Vec::new();
    let mut i: usize = 0;
    while i < books.len()
        invariant
            i <= bs.len(),
            strs(texts@) =~= bs.map_values(|b: BookModel| markdown_of(b)).take(i as int),
        decreases bs.len() - i,
    {
        assert(books@[i as int]@ == bs[i as int]);
        let md = text_to_markdown(&books[i]);
        texts.push(md);
        assert(strs(texts@) =~= bs.map_values(|b: BookModel| markdown_of(b)).take(i + 1));
        i = i + 1;
    }
    proof {
        let rendered = bs.map_values(|b: BookModel| markdown_of(b));
        assert(rendered.take(rendered.len() as int) =~= rendered);
        assert(strs(texts@) =~= rendered_of(models(entries@)));
    }
    texts
}

/// Reads the highlight entries of an export document from the second source
/// kind and turns them into books.
///
/// The export schema of that source is not fixed; until it is, every document
/// yields a run with no books, and no document is rejected. A caller that
/// cannot read its file at all reports `SourceError::SourceUnavailable`
/// itself, before anything reaches this function.
pub fn parse_oreilly(_document: &str) -> (r: Result<Vec<Book>, SourceError>)
    ensures
        r matches Result::Ok(books) && books@.len() == 0,
{
    Result::Ok(Vec::new())
}

} // verus!
