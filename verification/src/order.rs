//! Reading order on highlight entries.
//!
//! Entries are ordered by book title first (an absent title sorts before any
//! present one, present titles lexically by character value), then by the
//! highlight's starting container path (lexically), then by its starting
//! offset (numerically). Within one book this is reading order: the container
//! path groups contiguous document sections and the offset orders highlights
//! inside a section.

use vstd::prelude::*;

use crate::entry::{EntryModel, HighlightEntry};

verus! {

/// Three-way lexicographic comparison of two character sequences by scalar
/// value: negative when `a` comes first, zero when they compare equal
/// character by character, positive when `b` comes first.
pub open spec fn cmp_seq(a: Seq<char>, b: Seq<char>) -> int
    decreases a.len(),
{
    if a.len() == 0 && b.len() == 0 {
        0
    } else if a.len() == 0 {
        -1
    } else if b.len() == 0 {
        1
    } else if (a[0] as u32) < (b[0] as u32) {
        -1
    } else if (a[0] as u32) > (b[0] as u32) {
        1
    } else {
        cmp_seq(a.drop_first(), b.drop_first())
    }
}

/// Three-way comparison of optional character sequences: an absent value
/// comes before any present one.
pub open spec fn cmp_opt_seq(a: Option<Seq<char>>, b: Option<Seq<char>>) -> int {
    match (a, b) {
        (Option::None, Option::None) => 0,
        (Option::None, Option::Some(_)) => -1,
        (Option::Some(_), Option::None) => 1,
        (Option::Some(x), Option::Some(y)) => cmp_seq(x, y),
    }
}

/// Three-way comparison of two entries by the sort key
/// `(book_title, start_container_path, start_offset)`.
pub open spec fn cmp_entry(a: EntryModel, b: EntryModel) -> int {
    let c1 = cmp_opt_seq(a.book_title, b.book_title);
    if c1 != 0 {
        c1
    } else {
        let c2 = cmp_seq(a.start_container_path, b.start_container_path);
        if c2 != 0 {
            c2
        } else if a.start_offset < b.start_offset {
            -1
        } else if a.start_offset > b.start_offset {
            1
        } else {
            0
        }
    }
}

/// `a` may stand at or before `b` in sorted order.
pub open spec fn key_le(a: EntryModel, b: EntryModel) -> bool {
    cmp_entry(a, b) <= 0
}

/// A sequence comparing equal to itself character by character.
pub proof fn lemma_cmp_seq_refl(a: Seq<char>)
    ensures
        cmp_seq(a, a) == 0,
    decreases a.len(),
{
    if a.len() > 0 {
        lemma_cmp_seq_refl(a.drop_first());
    }
}

/// Swapping the arguments flips the sign of the comparison.
pub proof fn lemma_cmp_seq_flip(a: Seq<char>, b: Seq<char>)
    ensures
        cmp_seq(a, b) == -cmp_seq(b, a),
    decreases a.len(),
{
    if a.len() > 0 && b.len() > 0 && a[0] as u32 == b[0] as u32 {
        lemma_cmp_seq_flip(a.drop_first(), b.drop_first());
    }
}

/// The comparison is transitive, and only two equal comparisons compose to an
/// equal one.
pub proof fn lemma_cmp_seq_trans(a: Seq<char>, b: Seq<char>, c: Seq<char>)
    requires
        cmp_seq(a, b) <= 0,
        cmp_seq(b, c) <= 0,
    ensures
        cmp_seq(a, c) <= 0,
        cmp_seq(a, c) == 0 ==> cmp_seq(a, b) == 0 && cmp_seq(b, c) == 0,
    decreases a.len(),
{
    if a.len() == 0 {
    } else {
        // a is non-empty, so b and c are non-empty as well.
        if a[0] as u32 == b[0] as u32 && b[0] as u32 == c[0] as u32 {
            lemma_cmp_seq_trans(a.drop_first(), b.drop_first(), c.drop_first());
        }
    }
}

/// Entry order is total: of any two entries, one may stand before the other.
pub proof fn lemma_key_total(a: EntryModel, b: EntryModel)
    ensures
        key_le(a, b) || key_le(b, a),
{
    match (a.book_title, b.book_title) {
        (Option::Some(x), Option::Some(y)) => lemma_cmp_seq_flip(x, y),
        _ => (),
    }
    lemma_cmp_seq_flip(a.start_container_path, b.start_container_path);
}

/// Entry order is transitive.
pub proof fn lemma_key_trans(a: EntryModel, b: EntryModel, c: EntryModel)
    requires
        key_le(a, b),
        key_le(b, c),
    ensures
        key_le(a, c),
{
    match (a.book_title, b.book_title, c.book_title) {
        (Option::Some(x), Option::Some(y), Option::Some(z)) => {
            lemma_cmp_seq_trans(x, y, z);
            if cmp_seq(x, z) == 0 {
                lemma_cmp_seq_trans(
                    a.start_container_path,
                    b.start_container_path,
                    c.start_container_path,
                );
            }
        },
        (Option::None, Option::None, Option::None) => {
            lemma_cmp_seq_trans(
                a.start_container_path,
                b.start_container_path,
                c.start_container_path,
            );
        },
        _ => (),
    }
}

/// Compares two strings character by character, as `cmp_seq` does.
fn cmp_str(a: &str, b: &str) -> (r: i8)
    ensures
        r as int == cmp_seq(a@, b@),
    decreases a@.len(),
{
    let a_len = a.unicode_len();
    let b_len = b.unicode_len();
    if a_len == 0 && b_len == 0 {
        0
    } else if a_len == 0 {
        -1
    } else if b_len == 0 {
        1
    } else {
        let ca = a.get_char(0) as u32;
        let cb = b.get_char(0) as u32;
        if ca < cb {
            -1
        } else if ca > cb {
            1
        } else {
            let ta = a.substring_char(1, a_len);
            let tb = b.substring_char(1, b_len);
            assert(ta@ =~= a@.drop_first());
            assert(tb@ =~= b@.drop_first());
            cmp_str(ta, tb)
        }
    }
}

/// Compares two entries by the sort key, as `cmp_entry` does.
pub fn cmp_entries(a: &HighlightEntry, b: &HighlightEntry) -> (r: i8)
    ensures
        r as int == cmp_entry(a@, b@),
{
    let c1: i8 = match (&a.book_title, &b.book_title) {
        (Option::None, Option::None) => 0,
        (Option::None, Option::Some(_)) => -1,
        (Option::Some(_), Option::None) => 1,
        (Option::Some(x), Option::Some(y)) => cmp_str(x.as_str(), y.as_str()),
    };
    if c1 != 0 {
        return c1;
    }
    let c2 = cmp_str(a.start_container_path.as_str(), b.start_container_path.as_str());
    if c2 != 0 {
        return c2;
    }
    if a.start_offset < b.start_offset {
        -1
    } else if a.start_offset > b.start_offset {
        1
    } else {
        0
    }
}

/// Decides whether `a` may stand at or before `b` in sorted order.
pub fn entry_le(a: &HighlightEntry, b: &HighlightEntry) -> (r: bool)
    ensures
        r == key_le(a@, b@),
{
    cmp_entries(a, b) <= 0
}

} // verus!
