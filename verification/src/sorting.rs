//! Stable sorting of highlight entries into reading order.
//!
//! `sort_spec` is the mathematical sort: it places each entry, left to right,
//! just after the last already-placed entry that may stand at or before it, so
//! entries with equal keys keep their original relative order.
//! [`sort_entries`] computes exactly that sequence.

use vstd::prelude::*;
use vstd::multiset::Multiset;
use vstd::seq_lib::lemma_multiset_commutative;

use crate::entry::{EntryModel, HighlightEntry};
use crate::order::{entry_le, key_le, lemma_key_total, lemma_key_trans};

verus! {

/// The models of a sequence of entries.
pub open spec fn models(v: Seq<HighlightEntry>) -> Seq<EntryModel> {
    v.map_values(|x: HighlightEntry| x@)
}

/// Every element stands at or before every later one.
pub open spec fn sorted(s: Seq<EntryModel>) -> bool {
    forall|i: int, j: int| 0 <= i < j < s.len() ==> key_le(#[trigger] s[i], #[trigger] s[j])
}

/// `e` placed into `s` just after the last element that may stand at or
/// before it; on equal keys the new element goes after the old ones.
pub open spec fn insert_ord(s: Seq<EntryModel>, e: EntryModel) -> Seq<EntryModel>
    decreases s.len(),
{
    if s.len() == 0 {
        seq![e]
    } else if key_le(s.last(), e) {
        s.push(e)
    } else {
        insert_ord(s.drop_last(), e).push(s.last())
    }
}

/// The position at which `insert_ord` places `e`.
pub open spec fn insert_pos(s: Seq<EntryModel>, e: EntryModel) -> int
    decreases s.len(),
{
    if s.len() == 0 {
        0
    } else if key_le(s.last(), e) {
        s.len() as int
    } else {
        insert_pos(s.drop_last(), e)
    }
}

/// The stable insertion sort of `s`, element by element from the left.
pub open spec fn sort_spec(s: Seq<EntryModel>) -> Seq<EntryModel>
    decreases s.len(),
{
    if s.len() == 0 {
        Seq::empty()
    } else {
        insert_ord(sort_spec(s.drop_last()), s.last())
    }
}

/// `insert_ord` splits `s` at `insert_pos` and puts `e` between the pieces;
/// everything at or past the position refuses to stand before `e`, and the
/// element just before it (if any) accepts to.
pub proof fn lemma_insert_ord_split(s: Seq<EntryModel>, e: EntryModel)
    ensures
        0 <= insert_pos(s, e) <= s.len(),
        insert_ord(s, e) =~= s.take(insert_pos(s, e)) + seq![e] + s.skip(insert_pos(s, e)),
        forall|k: int| insert_pos(s, e) <= k < s.len() ==> !key_le(#[trigger] s[k], e),
        insert_pos(s, e) > 0 ==> key_le(s[insert_pos(s, e) - 1], e),
    decreases s.len(),
{
    if s.len() == 0 {
    } else if key_le(s.last(), e) {
        assert(s.take(s.len() as int) =~= s);
        assert(s.skip(s.len() as int) =~= Seq::empty());
    } else {
        lemma_insert_ord_split(s.drop_last(), e);
        let p = insert_pos(s.drop_last(), e);
        assert(s.take(p) =~= s.drop_last().take(p));
        assert(s.skip(p) =~= s.drop_last().skip(p).push(s.last()));
        assert forall|k: int| p <= k < s.len() implies !key_le(#[trigger] s[k], e) by {
            if k < s.len() - 1 {
                assert(s[k] == s.drop_last()[k]);
            }
        }
        if p > 0 {
            assert(s[p - 1] == s.drop_last()[p - 1]);
        }
    }
}

/// No other position satisfies the boundary conditions of `insert_pos`.
pub proof fn lemma_insert_pos_unique(s: Seq<EntryModel>, e: EntryModel, j: int)
    requires
        0 <= j <= s.len(),
        forall|k: int| j <= k < s.len() ==> !key_le(#[trigger] s[k], e),
        j > 0 ==> key_le(s[j - 1], e),
    ensures
        insert_pos(s, e) == j,
    decreases s.len(),
{
    if s.len() == 0 {
    } else if key_le(s.last(), e) {
        if j < s.len() {
            assert(!key_le(s[s.len() - 1], e));
        }
    } else {
        assert(j < s.len());
        lemma_insert_pos_unique(s.drop_last(), e, j);
    }
}

/// Inserting into a sorted sequence keeps it sorted.
pub proof fn lemma_insert_ord_sorted(s: Seq<EntryModel>, e: EntryModel)
    requires
        sorted(s),
    ensures
        sorted(insert_ord(s, e)),
{
    lemma_insert_ord_split(s, e);
    let p = insert_pos(s, e);
    let t = insert_ord(s, e);
    assert forall|i: int, j: int| 0 <= i < j < t.len() implies key_le(t[i], t[j]) by {
        if i < p && j == p {
            if i < p - 1 {
                lemma_key_trans(s[i], s[p - 1], e);
            }
        } else if i == p && j > p {
            lemma_key_total(e, s[j - 1]);
        }
    }
}

/// `insert_ord` adds exactly `e` to the elements of `s`.
pub proof fn lemma_insert_ord_multiset(s: Seq<EntryModel>, e: EntryModel)
    ensures
        insert_ord(s, e).to_multiset() == s.to_multiset().insert(e),
{
    broadcast use vstd::seq_lib::group_to_multiset_ensures;

    lemma_insert_ord_split(s, e);
    let p = insert_pos(s, e);
    lemma_multiset_commutative(s.take(p) + seq![e], s.skip(p));
    lemma_multiset_commutative(s.take(p), seq![e]);
    lemma_multiset_commutative(s.take(p), s.skip(p));
    assert(s.take(p) + s.skip(p) =~= s);
    assert(seq![e] =~= Seq::empty().push(e));
    assert(seq![e].to_multiset() =~= Multiset::empty().insert(e));
    assert(insert_ord(s, e).to_multiset() =~= s.to_multiset().insert(e));
}

/// Sorting permutes the entries: same elements, same number of times each.
pub proof fn lemma_sort_spec_multiset(s: Seq<EntryModel>)
    ensures
        sort_spec(s).to_multiset() == s.to_multiset(),
    decreases s.len(),
{
    broadcast use vstd::seq_lib::group_to_multiset_ensures;

    if s.len() > 0 {
        lemma_sort_spec_multiset(s.drop_last());
        lemma_insert_ord_multiset(sort_spec(s.drop_last()), s.last());
        assert(s =~= s.drop_last().push(s.last()));
    }
}

/// The sorted sequence is indeed sorted.
pub proof fn lemma_sort_spec_sorted(s: Seq<EntryModel>)
    ensures
        sorted(sort_spec(s)),
    decreases s.len(),
{
    if s.len() > 0 {
        lemma_sort_spec_sorted(s.drop_last());
        lemma_insert_ord_sorted(sort_spec(s.drop_last()), s.last());
    }
}

/// Places `e` in the sorted vector `v` at its insertion position.
fn insert_entry(v: &mut Vec<HighlightEntry>, e: HighlightEntry)
    ensures
        models(final(v)@) == insert_ord(models(old(v)@), e@),
{
    let ghost s = models(old(v)@);
    let mut j: usize = v.len();
    while j > 0 && !entry_le(&v[j - 1], &e)
        invariant
            j <= v.len(),
            v == old(v),
            s == models(v@),
            forall|k: int| j <= k < s.len() ==> !key_le(#[trigger] s[k], e@),
        decreases j,
    {
        j = j - 1;
    }
    proof {
        lemma_insert_pos_unique(s, e@, j as int);
        lemma_insert_ord_split(s, e@);
    }
    v.insert(j, e);
    assert(models(v@) =~= insert_ord(s, e@));
}

/// Sorts the entries of one run into reading order.
///
/// The result is exactly the stable insertion sort of the input: sorted by
/// `(book_title, start_container_path, start_offset)`, a permutation of the
/// input, and entries with equal keys keep their original relative order.
pub fn sort_entries(entries: Vec<HighlightEntry>) -> (sorted_entries: Vec<HighlightEntry>)
    ensures
        models(sorted_entries@) == sort_spec(models(entries@)),
        sorted(models(sorted_entries@)),
        models(sorted_entries@).to_multiset() == models(entries@).to_multiset(),
{
    let ghost s = models(entries@);
    let mut rest = entries;
    let mut out: Vec<HighlightEntry> = Vec::new();
    while rest.len() > 0
        invariant
            rest@.len() <= s.len(),
            models(rest@) =~= s.skip(s.len() - rest@.len()),
            models(out@) =~= sort_spec(s.take(s.len() - rest@.len())),
        decreases rest@.len(),
    {
        let ghost m: int = s.len() - rest@.len();
        let ghost rest_start = rest@;
        let e = rest.remove(0);
        proof {
            assert(models(rest_start)[0] == s.skip(m)[0]);
            assert(e@ == s[m]);
            assert(rest@ =~= rest_start.skip(1));
            assert forall|i: int| 0 <= i < rest@.len() implies models(rest@)[i] == s.skip(m + 1)[i] by {
                assert(models(rest@)[i] == rest@[i]@);
                assert(rest@[i] == rest_start[1 + i]);
                assert(models(rest_start)[1 + i] == rest_start[1 + i]@);
                assert(models(rest_start)[1 + i] == s.skip(m)[1 + i]);
            }
            assert(models(rest@) =~= s.skip(m + 1));
        }
        insert_entry(&mut out, e);
        proof {
            assert(s.take(m + 1).drop_last() =~= s.take(m));
            assert(s.take(m + 1).last() == s[m]);
            assert(models(out@) =~= sort_spec(s.take(m + 1)));
        }
    }
    proof {
        assert(s.take(s.len() as int) =~= s);
        assert(models(out@) == sort_spec(s));
        lemma_sort_spec_sorted(s);
        lemma_sort_spec_multiset(s);
    }
    out
}

} // verus!
