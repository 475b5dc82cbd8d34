//! Grouping of sorted entries into books.
//!
//! The grouping key is the resolved title: the entry's book title, or the
//! fixed placeholder `"(No title)"` when it has none. All untitled entries
//! therefore land in one placeholder bucket, and two distinct books that share
//! a title collapse into one group — a deliberate simplification of the
//! format, not an accident of this implementation. A book's author is taken
//! from the first of its entries, in the given order, that names one
//! (first-wins, no conflict check), or `"(Author unknown)"` when none does.

use vstd::prelude::*;

use crate::entry::{Book, BookModel, EntryModel, HighlightEntry};
use crate::sorting::models;

verus! {

/// The placeholder title for entries whose source row named no book.
pub open spec fn no_title() -> Seq<char> {
    "(No title)"@
}

/// The placeholder author for books none of whose entries names one.
pub open spec fn author_unknown() -> Seq<char> {
    "(Author unknown)"@
}

/// The title an entry is grouped under.
pub open spec fn resolved_title(e: EntryModel) -> Seq<char> {
    match e.book_title {
        Option::Some(t) => t,
        Option::None => no_title(),
    }
}

/// The views of a sequence of strings.
pub open spec fn strs(v: Seq<String>) -> Seq<Seq<char>> {
    v.map_values(|x: String| x@)
}

/// The distinct resolved titles of `s`, in order of first appearance.
pub open spec fn titles_of(s: Seq<EntryModel>) -> Seq<Seq<char>>
    decreases s.len(),
{
    if s.len() == 0 {
        Seq::empty()
    } else {
        let ts = titles_of(s.drop_last());
        if ts.contains(resolved_title(s.last())) {
            ts
        } else {
            ts.push(resolved_title(s.last()))
        }
    }
}

/// The highlight bodies of the entries of `s` grouped under `t`, in order.
pub open spec fn highlights_for(s: Seq<EntryModel>, t: Seq<char>) -> Seq<Seq<char>>
    decreases s.len(),
{
    if s.len() == 0 {
        Seq::empty()
    } else {
        let hs = highlights_for(s.drop_last(), t);
        if resolved_title(s.last()) == t {
            hs.push(s.last().highlight)
        } else {
            hs
        }
    }
}

/// Whether some entry of `s` grouped under `t` names an author.
pub open spec fn has_author(s: Seq<EntryModel>, t: Seq<char>) -> bool {
    exists|j: int| 0 <= j < s.len() && resolved_title(s[j]) == t && s[j].author is Some
}

/// The author of the first entry of `s` grouped under `t` that names one, or
/// the placeholder when none does.
pub open spec fn author_for(s: Seq<EntryModel>, t: Seq<char>) -> Seq<char>
    decreases s.len(),
{
    if s.len() == 0 {
        author_unknown()
    } else {
        match s.first().author {
            Option::Some(a) => {
                if resolved_title(s.first()) == t {
                    a
                } else {
                    author_for(s.drop_first(), t)
                }
            },
            Option::None => author_for(s.drop_first(), t),
        }
    }
}

/// The book grouped under `t`, given the full entry sequence `s`.
pub open spec fn book_for(s: Seq<EntryModel>, t: Seq<char>) -> BookModel {
    BookModel { title: t, author: author_for(s, t), highlights: highlights_for(s, t) }
}

/// All books of the run: one per distinct resolved title of `s`, in order of
/// first appearance.
pub open spec fn books_of(s: Seq<EntryModel>) -> Seq<BookModel> {
    titles_of(s).map_values(|t: Seq<char>| book_for(s, t))
}

/// When no entry of `s` under `t` names an author, the resolution is the
/// placeholder.
pub proof fn lemma_author_for_absent(s: Seq<EntryModel>, t: Seq<char>)
    requires
        !has_author(s, t),
    ensures
        author_for(s, t) == author_unknown(),
    decreases s.len(),
{
    if s.len() > 0 {
        assert forall|j: int|
            0 <= j < s.drop_first().len() implies !(resolved_title(#[trigger] s.drop_first()[j])
            == t && s.drop_first()[j].author is Some) by {
            assert(s.drop_first()[j] == s[j + 1]);
        }
        lemma_author_for_absent(s.drop_first(), t);
    }
}

/// How author resolution grows when one entry is appended: an author already
/// found wins; otherwise the new entry decides, if it belongs to `t` and
/// names one.
pub proof fn lemma_author_for_push(s: Seq<EntryModel>, e: EntryModel, t: Seq<char>)
    ensures
        has_author(s, t) ==> author_for(s.push(e), t) == author_for(s, t),
        !has_author(s, t) && resolved_title(e) == t && e.author is Some ==> author_for(
            s.push(e),
            t,
        ) == e.author->0,
        !has_author(s, t) && !(resolved_title(e) == t && e.author is Some) ==> author_for(
            s.push(e),
            t,
        ) == author_unknown(),
    decreases s.len(),
{
    if s.len() == 0 {
        assert(s.push(e).first() == e);
        if !(resolved_title(e) == t && e.author is Some) {
            assert(s.push(e).drop_first() =~= Seq::empty());
            assert(author_for(s.push(e).drop_first(), t) == author_unknown());
        }
    } else {
        assert(s.push(e).first() == s.first());
        assert(s.push(e).drop_first() =~= s.drop_first().push(e));
        lemma_author_for_push(s.drop_first(), e, t);
        if has_author(s, t) {
            let j = choose|j: int|
                0 <= j < s.len() && resolved_title(s[j]) == t && s[j].author is Some;
            if !(resolved_title(s.first()) == t && s.first().author is Some) {
                assert(s.drop_first()[j - 1] == s[j]);
                assert(has_author(s.drop_first(), t));
            }
        } else {
            assert(!(resolved_title(s.first()) == t && s.first().author is Some));
            assert forall|j: int|
                0 <= j < s.drop_first().len() implies !(resolved_title(
                #[trigger] s.drop_first()[j],
            ) == t && s.drop_first()[j].author is Some) by {
                assert(s.drop_first()[j] == s[j + 1]);
            }
            assert(!has_author(s.drop_first(), t));
        }
    }
}

/// The resolved title of an entry, as an owned string.
fn resolve_title(e: &HighlightEntry) -> (t: String)
    ensures
        t@ == resolved_title(e@),
{
    match &e.book_title {
        Option::Some(x) => x.clone(),
        Option::None => String::from_str("(No title)"),
    }
}

/// Whether `titles` already holds `t`.
#[verifier::loop_isolation(false)]
fn contains_title(titles: &Vec<String>, t: &String) -> (r: bool)
    ensures
        r == strs(titles@).contains(t@),
{
    let mut i: usize = 0;
    while i < titles.len()
        invariant
            i <= titles@.len(),
            forall|j: int| 0 <= j < i ==> strs(titles@)[j] != t@,
        decreases titles@.len() - i,
    {
        if titles[i] == *t {
            assert(strs(titles@)[i as int] == t@);
            return true;
        }
        i = i + 1;
    }
    false
}

/// Groups one run's entries into books, in order of first appearance of each
/// resolved title.
///
/// The entries are taken in the order given; sort them first to get reading
/// order within each book. The result is exactly `books_of` of the input:
/// one book per distinct resolved title, its highlights the bodies of the
/// entries grouped under that title in input order, its author resolved
/// first-wins with the placeholder as fallback.
#[verifier::loop_isolation(false)]
pub fn group_books(entries: &Vec<HighlightEntry>) -> (books: Vec<Book>)
    ensures
        books@.map_values(|b: Book| b@) == books_of(models(entries@)),
{
    let ghost s = models(entries@);
    let ghost n: int = s.len() as int;

    // First pass: the distinct resolved titles, in order of first appearance.
    let mut titles: Vec<String> = Vec::new();
    let mut k: usize = 0;
    while k < entries.len()
        invariant
            k <= n,
            strs(titles@) =~= titles_of(s.take(k as int)),
        decreases n - k,
    {
        let t = resolve_title(&entries[k]);
        proof {
            assert(s.take(k + 1).drop_last() =~= s.take(k as int));
            assert(s.take(k + 1).last() == s[k as int]);
        }
        if !contains_title(&titles, &t) {
            titles.push(t);
            assert(strs(titles@) =~= titles_of(s.take(k as int)).push(resolved_title(s[k as int])));
        }
        k = k + 1;
    }
    proof {
        assert(s.take(n) =~= s);
    }

    // Second pass: one book per title.
    let mut books: Vec<Book> = Vec::new();
    let mut b: usize = 0;
    while b < titles.len()
        invariant
            b <= titles@.len(),
            books@.len() == b,
            forall|i: int| 0 <= i < b ==> (#[trigger] books@[i])@ == book_for(s, strs(titles@)[i]),
        decreases titles@.len() - b,
    {
        let title = titles[b].clone();
        let mut hl: Vec<String> = Vec::new();
        let mut author: Option<String> = Option::None;
        let mut j: usize = 0;
        while j < entries.len()
            invariant
                j <= n,
                strs(hl@) =~= highlights_for(s.take(j as int), title@),
                match author {
                    Option::Some(a) => has_author(s.take(j as int), title@) && a@ == author_for(
                        s.take(j as int),
                        title@,
                    ),
                    Option::None => !has_author(s.take(j as int), title@),
                },
            decreases n - j,
        {
            let e = &entries[j];
            let t = resolve_title(e);
            proof {
                assert(s.take(j + 1).drop_last() =~= s.take(j as int));
                assert(s.take(j + 1).last() == s[j as int]);
                assert(s.take(j + 1) =~= s.take(j as int).push(s[j as int]));
                lemma_author_for_push(s.take(j as int), s[j as int], title@);
            }
            if t == title {
                hl.push(e.highlight.clone());
                assert(strs(hl@) =~= highlights_for(s.take(j as int), title@).push(
                    s[j as int].highlight,
                ));
                if author.is_none() {
                    match &e.author {
                        Option::Some(a) => {
                            author = Option::Some(a.clone());
                            assert(has_author(s.take(j + 1), title@)) by {
                                assert(resolved_title(s.take(j + 1)[j as int]) == title@
                                    && s.take(j + 1)[j as int].author is Some);
                            }
                        },
                        Option::None => {
                            assert(!has_author(s.take(j + 1), title@)) by {
                                assert forall|q: int| 0 <= q < j + 1 implies !(resolved_title(
                                    #[trigger] s.take(j + 1)[q],
                                ) == title@ && s.take(j + 1)[q].author is Some) by {
                                    if q < j {
                                        assert(s.take(j + 1)[q] == s.take(j as int)[q]);
                                        assert(!has_author(s.take(j as int), title@));
                                    }
                                }
                            }
                        },
                    }
                }
            } else {
                assert(strs(hl@) =~= highlights_for(s.take(j + 1), title@));
                assert(!has_author(s.take(j as int), title@) ==> !has_author(
                    s.take(j + 1),
                    title@,
                )) by {
                    if !has_author(s.take(j as int), title@) {
                        assert forall|q: int| 0 <= q < j + 1 implies !(resolved_title(
                            #[trigger] s.take(j + 1)[q],
                        ) == title@ && s.take(j + 1)[q].author is Some) by {
                            if q < j {
                                assert(s.take(j + 1)[q] == s.take(j as int)[q]);
                            }
                        }
                    }
                }
            }
            j = j + 1;
        }
        proof {
            assert(s.take(n) =~= s);
        }
        let resolved_author = match author {
            Option::Some(a) => a,
            Option::None => {
                proof {
                    lemma_author_for_absent(s, title@);
                }
                String::from_str("(Author unknown)")
            },
        };
        let book = Book { title, author: resolved_author, highlights: hl };
        assert(book@.highlights =~= book_for(s, strs(titles@)[b as int]).highlights);
        assert(book@ =~= book_for(s, strs(titles@)[b as int]));
        books.push(book);
        b = b + 1;
    }
    assert(books@.map_values(|bk: Book| bk@) =~= books_of(s));
    books
}

} // verus!
