use highlights::entry::{HighlightEntry, RowDecodeError};
use highlights::pipeline::{books_from_entries, parse_oreilly, render_books};
use highlights::rows::collect_rows;
use highlights::sorting::sort_entries;

fn entry(book_title: Option<&str>, path: &str, offset: i32, text: &str) -> HighlightEntry {
    HighlightEntry {
        isbn: None,
        author: None,
        book_title: book_title.map(|t| t.to_string()),
        title: String::new(),
        highlight: text.to_string(),
        annotation: None,
        start_offset: offset,
        end_offset: offset,
        start_container_path: path.to_string(),
        end_container_path: path.to_string(),
    }
}

fn entry_by(
    book_title: Option<&str>,
    author: Option<&str>,
    path: &str,
    offset: i32,
    text: &str,
) -> HighlightEntry {
    HighlightEntry {
        author: author.map(|a| a.to_string()),
        ..entry(book_title, path, offset, text)
    }
}

#[test]
fn empty_source_yields_no_books_and_no_failure() {
    let texts = render_books(Vec::new());
    assert_eq!(texts.len(), 0);
}

#[test]
fn container_paths_fix_highlight_order() {
    let entries = vec![
        entry(Some("Foo"), "/b", 7, "from b"),
        entry(Some("Foo"), "/a", 7, "from a"),
    ];
    let texts = render_books(entries);
    assert_eq!(texts.len(), 1);
    assert_eq!(
        texts[0],
        "# Foo\n\nAuthor: (Author unknown)\n\n> from a\n\n> from b\n\n"
    );
}

#[test]
fn offsets_order_within_one_container() {
    let entries = vec![
        entry(Some("Foo"), "/a", 9, "later"),
        entry(Some("Foo"), "/a", 2, "earlier"),
    ];
    let sorted = sort_entries(entries);
    assert_eq!(sorted[0].highlight, "earlier");
    assert_eq!(sorted[1].highlight, "later");
}

#[test]
fn untitled_entries_share_one_placeholder_book() {
    let entries = vec![
        entry_by(None, Some("Somebody"), "/x", 1, "first"),
        entry(Some("Real"), "/y", 1, "titled"),
        entry(None, "/z", 2, "second"),
    ];
    let books = books_from_entries(entries);
    let placeholders: Vec<_> = books.iter().filter(|b| b.title == "(No title)").collect();
    assert_eq!(placeholders.len(), 1);
    assert_eq!(placeholders[0].highlights.len(), 2);
    assert_eq!(placeholders[0].author, "Somebody");
}

#[test]
fn untitled_entries_sort_before_titled_ones() {
    let entries = vec![
        entry(Some("Abc"), "/a", 1, "titled"),
        entry(None, "/z", 9, "untitled"),
    ];
    let sorted = sort_entries(entries);
    assert_eq!(sorted[0].highlight, "untitled");
    assert_eq!(sorted[1].highlight, "titled");
}

#[test]
fn author_resolution_is_first_wins() {
    let entries = vec![
        entry_by(Some("Foo"), None, "/a", 1, "no author here"),
        entry_by(Some("Foo"), Some("First"), "/b", 1, "names one"),
        entry_by(Some("Foo"), Some("Second"), "/c", 1, "names another"),
    ];
    let books = books_from_entries(entries);
    assert_eq!(books.len(), 1);
    assert_eq!(books[0].author, "First");
}

#[test]
fn author_placeholder_when_no_entry_names_one() {
    let entries = vec![entry(Some("Foo"), "/a", 1, "text")];
    let books = books_from_entries(entries);
    assert_eq!(books.len(), 1);
    assert_eq!(books[0].author, "(Author unknown)");
}

#[test]
fn books_keep_first_appearance_order_of_sorted_titles() {
    let entries = vec![
        entry(Some("Beta"), "/a", 1, "b"),
        entry(Some("Alpha"), "/a", 1, "a"),
    ];
    let books = books_from_entries(entries);
    let titles: Vec<_> = books.iter().map(|b| b.title.as_str()).collect();
    assert_eq!(titles, vec!["Alpha", "Beta"]);
}

#[test]
fn equal_sort_keys_keep_input_order() {
    let entries = vec![
        entry(Some("Foo"), "/a", 1, "first in"),
        entry(Some("Foo"), "/a", 1, "second in"),
    ];
    let texts = render_books(entries);
    assert_eq!(
        texts[0],
        "# Foo\n\nAuthor: (Author unknown)\n\n> first in\n\n> second in\n\n"
    );
}

#[test]
fn collect_rows_partitions_in_order() {
    let rows = vec![
        Ok(entry(Some("Foo"), "/a", 1, "kept")),
        Err(RowDecodeError {
            message: "bad column".to_string(),
        }),
        Ok(entry(Some("Foo"), "/a", 2, "also kept")),
    ];
    let (entries, warnings) = collect_rows(rows);
    assert_eq!(entries.len(), 2);
    assert_eq!(entries[0].highlight, "kept");
    assert_eq!(entries[1].highlight, "also kept");
    assert_eq!(warnings.len(), 1);
    assert_eq!(warnings[0].message, "bad column");
}

#[test]
fn oreilly_source_yields_no_books_yet() {
    let parsed = parse_oreilly("{}");
    match parsed {
        Ok(books) => assert_eq!(books.len(), 0),
        Err(_) => panic!("the stub source must not fail"),
    }
}
