//! Markdown rendering of one book.
//!
//! The layout is fixed: a heading with the title, an author line, then one
//! blockquote block per highlight in order, blocks separated by a blank line.
//! A highlight may span several lines; each line is trimmed of surrounding
//! whitespace on its own and quoted on its own, which keeps paragraph breaks
//! inside a highlight visible in the blockquote. Nothing is escaped: title,
//! author and highlight text pass through as they are.

use vstd::prelude::*;

use crate::entry::{Book, BookModel};

verus! {

/// Whether `c` is whitespace: the characters with the Unicode `White_Space`
/// property, the set `str::trim` removes.
pub open spec fn is_ws(c: char) -> bool {
    let u = c as u32;
    u == 0x9 || u == 0xA || u == 0xB || u == 0xC || u == 0xD || u == 0x20 || u == 0x85 || u == 0xA0
        || u == 0x1680 || (0x2000 <= u && u <= 0x200A) || u == 0x2028 || u == 0x2029 || u == 0x202F
        || u == 0x205F || u == 0x3000
}

/// `s` without leading whitespace.
pub open spec fn trim_start_of(s: Seq<char>) -> Seq<char>
    decreases s.len(),
{
    if s.len() > 0 && is_ws(s[0]) {
        trim_start_of(s.drop_first())
    } else {
        s
    }
}

/// `s` without trailing whitespace.
pub open spec fn trim_end_of(s: Seq<char>) -> Seq<char>
    decreases s.len(),
{
    if s.len() > 0 && is_ws(s.last()) {
        trim_end_of(s.drop_last())
    } else {
        s
    }
}

/// `s` without surrounding whitespace.
pub open spec fn trim_of(s: Seq<char>) -> Seq<char> {
    trim_end_of(trim_start_of(s))
}

/// The position of the first line feed in `s`, or `s.len()` when there is
/// none.
pub open spec fn first_nl(s: Seq<char>) -> nat
    decreases s.len(),
{
    if s.len() == 0 {
        0
    } else if s[0] == '\n' {
        0
    } else {
        1 + first_nl(s.drop_first())
    }
}

/// One line of a highlight as rendered: quote marker, the line trimmed, line
/// feed.
pub open spec fn quote_line_of(l: Seq<char>) -> Seq<char> {
    "> "@ + trim_of(l) + "\n"@
}

/// A highlight's lines, split at line feeds, each rendered with
/// `quote_line_of`. An empty highlight has no lines and renders as nothing.
pub open spec fn quoted_of(s: Seq<char>) -> Seq<char>
    decreases s.len(),
{
    if s.len() == 0 {
        Seq::empty()
    } else {
        let i = first_nl(s);
        if i >= s.len() {
            quote_line_of(s)
        } else {
            quote_line_of(s.take(i as int)) + quoted_of(s.skip(i as int + 1))
        }
    }
}

/// One highlight's block: its quoted lines and the blank line that closes the
/// block.
pub open spec fn block_of(h: Seq<char>) -> Seq<char> {
    quoted_of(h) + "\n"@
}

/// All highlight blocks of a book, in order.
pub open spec fn blocks_of(hs: Seq<Seq<char>>) -> Seq<char>
    decreases hs.len(),
{
    if hs.len() == 0 {
        Seq::empty()
    } else {
        blocks_of(hs.drop_last()) + block_of(hs.last())
    }
}

/// The whole Markdown document of one book.
pub open spec fn markdown_of(b: BookModel) -> Seq<char> {
    "# "@ + b.title + "\n\nAuthor: "@ + b.author + "\n\n"@ + blocks_of(b.highlights)
}

/// Rendering is a function of the book's value alone: the same book always
/// yields the same Markdown, byte for byte.
pub proof fn lemma_render_deterministic(b: BookModel, r1: Seq<char>, r2: Seq<char>)
    requires
        r1 == markdown_of(b),
        r2 == markdown_of(b),
    ensures
        r1 == r2,
{
}

/// `trim_start_of` cuts exactly at the first non-whitespace position.
proof fn lemma_trim_start_at(s: Seq<char>, a: int)
    requires
        0 <= a <= s.len(),
        forall|k: int| 0 <= k < a ==> is_ws(s[k]),
        a < s.len() ==> !is_ws(s[a]),
    ensures
        trim_start_of(s) == s.skip(a),
    decreases s.len(),
{
    if s.len() > 0 && is_ws(s[0]) {
        assert(a > 0);
        assert forall|k: int| 0 <= k < a - 1 implies is_ws(#[trigger] s.drop_first()[k]) by {
            assert(s.drop_first()[k] == s[k + 1]);
        }
        lemma_trim_start_at(s.drop_first(), a - 1);
        assert(s.drop_first().skip(a - 1) =~= s.skip(a));
    } else {
        assert(a == 0);
        assert(s.skip(0) =~= s);
    }
}

/// `trim_end_of` cuts exactly at the last non-whitespace position.
proof fn lemma_trim_end_at(s: Seq<char>, b: int)
    requires
        0 <= b <= s.len(),
        forall|k: int| b <= k < s.len() ==> is_ws(s[k]),
        b > 0 ==> !is_ws(s[b - 1]),
    ensures
        trim_end_of(s) == s.take(b),
    decreases s.len(),
{
    if s.len() > 0 && is_ws(s.last()) {
        assert(b < s.len());
        assert forall|k: int| b <= k < s.drop_last().len() implies is_ws(
            #[trigger] s.drop_last()[k],
        ) by {
            assert(s.drop_last()[k] == s[k]);
        }
        lemma_trim_end_at(s.drop_last(), b);
        assert(s.drop_last().take(b) =~= s.take(b));
    } else {
        assert(b == s.len());
        assert(s.take(b) =~= s);
    }
}

/// `first_nl` is the position of the first line feed.
proof fn lemma_first_nl_at(s: Seq<char>, i: int)
    requires
        0 <= i <= s.len(),
        forall|k: int| 0 <= k < i ==> s[k] != '\n',
        i < s.len() ==> s[i] == '\n',
    ensures
        first_nl(s) == i,
    decreases s.len(),
{
    if s.len() == 0 {
    } else if s[0] == '\n' {
        assert(i == 0);
    } else {
        assert(i > 0);
        assert forall|k: int| 0 <= k < i - 1 implies #[trigger] s.drop_first()[k] != '\n' by {
            assert(s.drop_first()[k] == s[k + 1]);
        }
        lemma_first_nl_at(s.drop_first(), i - 1);
    }
}

/// Decides whether `c` is whitespace, as `is_ws` does.
fn is_ws_char(c: char) -> (r: bool)
    ensures
        r == is_ws(c),
{
    let u = c as u32;
    u == 0x9 || u == 0xA || u == 0xB || u == 0xC || u == 0xD || u == 0x20 || u == 0x85 || u == 0xA0
        || u == 0x1680 || (0x2000 <= u && u <= 0x200A) || u == 0x2028 || u == 0x2029 || u == 0x202F
        || u == 0x205F || u == 0x3000
}

/// `line` without surrounding whitespace.
#[verifier::loop_isolation(false)]
fn trimmed<'a>(line: &'a str) -> (r: &'a str)
    ensures
        r@ == trim_of(line@),
{
    let len = line.unicode_len();
    let mut a: usize = 0;
    while a < len && is_ws_char(line.get_char(a))
        invariant
            a <= len,
            forall|k: int| 0 <= k < a ==> is_ws(line@[k]),
        decreases len - a,
    {
        a = a + 1;
    }
    let mut b: usize = len;
    while b > a && is_ws_char(line.get_char(b - 1))
        invariant
            a <= b <= len,
            forall|k: int| b <= k < len ==> is_ws(line@[k]),
        decreases b,
    {
        b = b - 1;
    }
    proof {
        lemma_trim_start_at(line@, a as int);
        let rest = line@.skip(a as int);
        assert forall|k: int| b - a <= k < rest.len() implies is_ws(#[trigger] rest[k]) by {
            assert(rest[k] == line@[k + a]);
        }
        if b > a {
            assert(rest[b - a - 1] == line@[b - 1]);
        }
        lemma_trim_end_at(rest, b - a);
        assert(rest.take(b - a) =~= line@.subrange(a as int, b as int));
    }
    line.substring_char(a, b)
}

/// One rendered line: quote marker, the line trimmed, line feed.
fn quote_line(l: &str) -> (r: String)
    ensures
        r@ == quote_line_of(l@),
{
    let mut r = String::from_str("> ");
    r.append(trimmed(l));
    r.append("\n");
    r
}

/// The position of the first line feed in `h`, or its length when there is
/// none.
#[verifier::loop_isolation(false)]
fn first_nl_pos(h: &str) -> (i: usize)
    ensures
        i == first_nl(h@),
        i <= h@.len(),
{
    let len = h.unicode_len();
    let mut i: usize = 0;
    while i < len && h.get_char(i) != '\n'
        invariant
            i <= len,
            forall|k: int| 0 <= k < i ==> h@[k] != '\n',
        decreases len - i,
    {
        i = i + 1;
    }
    proof {
        lemma_first_nl_at(h@, i as int);
    }
    i
}

/// One highlight rendered as quoted lines, without the closing blank line.
fn quote_lines(h: &str) -> (r: String)
    ensures
        r@ == quoted_of(h@),
    decreases h@.len(),
{
    let len = h.unicode_len();
    if len == 0 {
        return String::new();
    }
    let i = first_nl_pos(h);
    if i == len {
        quote_line(h)
    } else {
        let head = h.substring_char(0, i);
        let tail = h.substring_char(i + 1, len);
        assert(head@ =~= h@.take(i as int));
        assert(tail@ =~= h@.skip(i as int + 1));
        let mut r = quote_line(head);
        let rest = quote_lines(tail);
        r.append(rest.as_str());
        assert(r@ =~= quoted_of(h@));
        r
    }
}

/// Renders one book as Markdown: heading, author line, then each highlight as
/// an individually trimmed, quoted block, blocks separated by blank lines.
#[verifier::loop_isolation(false)]
pub fn text_to_markdown(text: &Book) -> (md: String)
    ensures
        md@ == markdown_of(text@),
{
    let mut md = String::from_str("# ");
    md.append(text.title.as_str());
    md.append("\n\nAuthor: ");
    md.append(text.author.as_str());
    md.append("\n\n");
    let ghost header = md@;
    let ghost hs = text@.highlights;
    let mut i: usize = 0;
    while i < text.highlights.len()
        invariant
            i <= hs.len(),
            md@ == header + blocks_of(hs.take(i as int)),
        decreases hs.len() - i,
    {
        assert(text.highlights[i as int]@ == hs[i as int]);
        let block = quote_lines(text.highlights[i].as_str());
        md.append(block.as_str());
        md.append("\n");
        proof {
            assert(hs.take(i + 1).drop_last() =~= hs.take(i as int));
            assert(hs.take(i + 1).last() == hs[i as int]);
            assert(md@ =~= header + blocks_of(hs.take(i + 1)));
        }
        i = i + 1;
    }
    proof {
        assert(hs.take(hs.len() as int) =~= hs);
        assert(md@ =~= markdown_of(text@));
    }
    md
}

} // verus!
