//! Laws of the pipeline, stated and proved once over the spec functions that
//! the executable functions' contracts use.

use vstd::prelude::*;

use crate::entry::EntryModel;
use crate::group::{author_for, books_of, highlights_for, no_title, resolved_title, titles_of};
use crate::order::{cmp_seq, key_le, lemma_cmp_seq_refl};
use crate::sorting::sorted;

verus! {

/// Every book title of a run appears once: no two books share a title.
pub proof fn lemma_titles_distinct(s: Seq<EntryModel>)
    ensures
        forall|i1: int, i2: int|
            0 <= i1 < i2 < titles_of(s).len() ==> titles_of(s)[i1] != titles_of(s)[i2],
    decreases s.len(),
{
    if s.len() > 0 {
        lemma_titles_distinct(s.drop_last());
        let ts = titles_of(s.drop_last());
        let t = resolved_title(s.last());
        if !ts.contains(t) {
            assert forall|i1: int, i2: int|
                0 <= i1 < i2 < ts.push(t).len() implies ts.push(t)[i1] != ts.push(t)[i2] by {
                if i2 < ts.len() {
                    assert(ts.push(t)[i1] == ts[i1] && ts.push(t)[i2] == ts[i2]);
                } else {
                    assert(ts.push(t)[i2] == t);
                    assert(ts.push(t)[i1] == ts[i1]);
                    assert(!ts.contains(t));
                }
            }
        }
    }
}

/// Every entry's resolved title is among the run's book titles.
pub proof fn lemma_titles_complete(s: Seq<EntryModel>)
    ensures
        forall|j: int|
            0 <= j < s.len() ==> titles_of(s).contains(resolved_title(#[trigger] s[j])),
    decreases s.len(),
{
    if s.len() > 0 {
        lemma_titles_complete(s.drop_last());
        let ts = titles_of(s.drop_last());
        let t = resolved_title(s.last());
        assert forall|j: int|
            0 <= j < s.len() implies titles_of(s).contains(resolved_title(#[trigger] s[j])) by {
            if j < s.len() - 1 {
                assert(s[j] == s.drop_last()[j]);
                assert(ts.contains(resolved_title(s[j])));
                let i = choose|i: int| 0 <= i < ts.len() && ts[i] == resolved_title(s[j]);
                if !ts.contains(t) {
                    assert(ts.push(t)[i] == ts[i]);
                }
            } else {
                if ts.contains(t) {
                } else {
                    assert(ts.push(t)[ts.len() as int] == t);
                }
            }
        }
    }
}

/// Every entry belongs to exactly one book: some book carries the entry's
/// resolved title and holds its highlight, and no two books share a title.
pub proof fn lemma_entry_in_one_book(s: Seq<EntryModel>, j: int)
    requires
        0 <= j < s.len(),
    ensures
        exists|i: int|
            0 <= i < books_of(s).len() && (#[trigger] books_of(s)[i]).title == resolved_title(
                s[j],
            ),
        forall|i1: int, i2: int|
            0 <= i1 < i2 < books_of(s).len() ==> (#[trigger] books_of(s)[i1]).title != (
            #[trigger] books_of(s)[i2]).title,
        forall|i: int|
            0 <= i < books_of(s).len() && (#[trigger] books_of(s)[i]).title == resolved_title(s[j])
                ==> books_of(s)[i].highlights.contains(s[j].highlight),
{
    lemma_titles_distinct(s);
    lemma_titles_complete(s);
    let t = resolved_title(s[j]);
    let i = choose|i: int| 0 <= i < titles_of(s).len() && titles_of(s)[i] == t;
    assert(books_of(s)[i].title == t);
    lemma_highlights_for_member(s, t, j);
}

/// The highlight of every entry grouped under `t` stands among the collected
/// highlight bodies for `t`.
proof fn lemma_highlights_for_member(s: Seq<EntryModel>, t: Seq<char>, j: int)
    requires
        0 <= j < s.len(),
        resolved_title(s[j]) == t,
    ensures
        highlights_for(s, t).contains(s[j].highlight),
    decreases s.len(),
{
    if j == s.len() - 1 {
        assert(s.last() == s[j]);
        let hs = highlights_for(s.drop_last(), t);
        assert(highlights_for(s, t)[hs.len() as int] == s[j].highlight);
    } else {
        assert(s.drop_last()[j] == s[j]);
        lemma_highlights_for_member(s.drop_last(), t, j);
        let hs = highlights_for(s.drop_last(), t);
        let k = choose|k: int| 0 <= k < hs.len() && hs[k] == s[j].highlight;
        if resolved_title(s.last()) == t {
            assert(highlights_for(s, t)[k] == s[j].highlight);
        }
    }
}

/// All entries without a book title land under exactly one book, whatever
/// their other fields hold: some book carries the placeholder title, no other
/// book does, and that book's highlights are exactly those of the entries
/// resolved to the placeholder — the untitled ones, together with any entry
/// whose actual title equals the placeholder (the known collision of grouping
/// by title string).
pub proof fn lemma_untitled_in_one_book(s: Seq<EntryModel>)
    requires
        exists|j: int| 0 <= j < s.len() && (#[trigger] s[j]).book_title is None,
    ensures
        exists|i: int| 0 <= i < books_of(s).len() && (#[trigger] books_of(s)[i]).title == no_title(),
        forall|i1: int, i2: int|
            0 <= i1 < i2 < books_of(s).len() ==> (#[trigger] books_of(s)[i1]).title != (
            #[trigger] books_of(s)[i2]).title,
        forall|i: int|
            0 <= i < books_of(s).len() && (#[trigger] books_of(s)[i]).title == no_title()
                ==> books_of(s)[i].highlights == highlights_for(s, no_title()),
{
    lemma_titles_distinct(s);
    lemma_titles_complete(s);
    let j = choose|j: int| 0 <= j < s.len() && (#[trigger] s[j]).book_title is None;
    assert(resolved_title(s[j]) == no_title());
    assert(titles_of(s).contains(no_title()));
    let i = choose|i: int| 0 <= i < titles_of(s).len() && titles_of(s)[i] == no_title();
    assert(books_of(s)[i].title == no_title());
}

/// Author resolution is deterministic first-wins: where entry `j` is the
/// earliest entry grouped under `t` that names an author, the resolved author
/// of the book titled `t` is the one entry `j` names. (Where no entry under
/// `t` names one, `lemma_author_for_absent` gives the placeholder.)
pub proof fn lemma_author_first_wins(s: Seq<EntryModel>, t: Seq<char>, j: int)
    requires
        0 <= j < s.len(),
        resolved_title(s[j]) == t,
        s[j].author is Some,
        forall|k: int|
            0 <= k < j ==> !(resolved_title(#[trigger] s[k]) == t && s[k].author is Some),
    ensures
        author_for(s, t) == s[j].author->0,
    decreases s.len(),
{
    if j == 0 {
    } else {
        assert(!(resolved_title(s[0]) == t && s[0].author is Some));
        assert forall|k: int|
            0 <= k < j - 1 implies !(resolved_title(#[trigger] s.drop_first()[k]) == t
            && s.drop_first()[k].author is Some) by {
            assert(s.drop_first()[k] == s[k + 1]);
        }
        assert(s.drop_first()[j - 1] == s[j]);
        lemma_author_first_wins(s.drop_first(), t, j - 1);
    }
}

/// Within one resolved book, sorted entries stand in non-decreasing
/// `(start_container_path, start_offset)` order.
///
/// The one pair left out: an untitled entry against an entry actually titled
/// `"(No title)"`. The two share a resolved book while sorting apart from
/// each other, and across that seam the paths may go backwards.
pub proof fn lemma_book_reading_order(s: Seq<EntryModel>, i: int, j: int)
    requires
        sorted(s),
        0 <= i < j < s.len(),
        resolved_title(s[i]) == resolved_title(s[j]),
        !(s[i].book_title is None && s[j].book_title == Option::Some(no_title())),
    ensures
        cmp_seq(s[i].start_container_path, s[j].start_container_path) < 0 || (cmp_seq(
            s[i].start_container_path,
            s[j].start_container_path,
        ) == 0 && s[i].start_offset <= s[j].start_offset),
{
    assert(key_le(s[i], s[j]));
    match (s[i].book_title, s[j].book_title) {
        (Option::Some(x), Option::Some(y)) => {
            assert(x == y);
            lemma_cmp_seq_refl(x);
        },
        (Option::None, Option::None) => (),
        (Option::Some(_), Option::None) => {
            // An absent title sorts before any present one, so this pair
            // cannot be sorted.
            assert(false);
        },
        (Option::None, Option::Some(y)) => {
            assert(y == no_title());
        },
    }
}

} // verus!
