use highlights::entry::Book;
use highlights::render::text_to_markdown;

fn book(title: &str, author: &str, highlights: &[&str]) -> Book {
    Book {
        title: title.to_string(),
        author: author.to_string(),
        highlights: highlights.iter().map(|h| h.to_string()).collect(),
    }
}

#[test]
fn header_layout_is_exact() {
    let b = book("A Title", "An Author", &[]);
    assert_eq!(text_to_markdown(&b), "# A Title\n\nAuthor: An Author\n\n");
}

#[test]
fn single_highlight_is_quoted() {
    let b = book("T", "A", &["a passage"]);
    assert_eq!(text_to_markdown(&b), "# T\n\nAuthor: A\n\n> a passage\n\n");
}

#[test]
fn multiline_highlight_trims_each_line() {
    let b = book("T", "A", &["Line one.\n  Line two.  "]);
    assert_eq!(
        text_to_markdown(&b),
        "# T\n\nAuthor: A\n\n> Line one.\n> Line two.\n\n"
    );
}

#[test]
fn blocks_are_separated_by_blank_lines() {
    let b = book("T", "A", &["first", "second"]);
    assert_eq!(
        text_to_markdown(&b),
        "# T\n\nAuthor: A\n\n> first\n\n> second\n\n"
    );
}

#[test]
fn empty_highlight_renders_as_bare_separator() {
    let b = book("T", "A", &[""]);
    assert_eq!(text_to_markdown(&b), "# T\n\nAuthor: A\n\n\n");
}

#[test]
fn unicode_whitespace_is_trimmed() {
    let b = book("T", "A", &["\u{00A0}x\u{3000}"]);
    assert_eq!(text_to_markdown(&b), "# T\n\nAuthor: A\n\n> x\n\n");
}

#[test]
fn trailing_newline_adds_no_extra_line() {
    let b = book("T", "A", &["one\ntwo\n"]);
    assert_eq!(text_to_markdown(&b), "# T\n\nAuthor: A\n\n> one\n> two\n\n");
}

#[test]
fn markdown_characters_pass_through_unescaped() {
    let b = book("*T*", "_A_", &["# not a heading"]);
    assert_eq!(
        text_to_markdown(&b),
        "# *T*\n\nAuthor: _A_\n\n> # not a heading\n\n"
    );
}

#[test]
fn rendering_twice_is_byte_identical() {
    let b = book("T", "A", &["Line one.\n  Line two.  ", "more"]);
    assert_eq!(text_to_markdown(&b), text_to_markdown(&b));
}
