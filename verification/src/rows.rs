//! Collecting per-row decode results.
//!
//! A source decodes rows one by one, and a row that cannot be decoded must
//! not abort the whole read: it is set aside as a warning while every decoded
//! row is kept, in order. This fold partitions the row results into the two
//! sequences.

use vstd::prelude::*;

use crate::entry::{EntryModel, HighlightEntry, RowDecodeError};
use crate::sorting::models;

verus! {

/// The models of the successfully decoded rows, in order.
pub open spec fn oks_of(rows: Seq<Result<HighlightEntry, RowDecodeError>>) -> Seq<EntryModel>
    decreases rows.len(),
{
    if rows.len() == 0 {
        Seq::empty()
    } else {
        let rest = oks_of(rows.drop_last());
        match rows.last() {
            Result::Ok(e) => rest.push(e@),
            Result::Err(_) => rest,
        }
    }
}

/// The messages of the rows that failed to decode, in order.
pub open spec fn errs_of(rows: Seq<Result<HighlightEntry, RowDecodeError>>) -> Seq<Seq<char>>
    decreases rows.len(),
{
    if rows.len() == 0 {
        Seq::empty()
    } else {
        let rest = errs_of(rows.drop_last());
        match rows.last() {
            Result::Ok(_) => rest,
            Result::Err(w) => rest.push(w.message@),
        }
    }
}

/// Partitions one run's row results: the decoded entries in order, and the
/// decode failures in order. No row is dropped and none aborts the read.
#[verifier::loop_isolation(false)]
pub fn collect_rows(rows: Vec<Result<HighlightEntry, RowDecodeError>>) -> (r: (
    Vec<HighlightEntry>,
    Vec<RowDecodeError>,
))
    ensures
        models(r.0@) == oks_of(rows@),
        r.1@.map_values(|w: RowDecodeError| w.message@) == errs_of(rows@),
{
    let ghost all = rows@;
    let mut rest = rows;
    let mut entries: Vec<HighlightEntry> = Vec::new();
    let mut warnings: Vec<RowDecodeError> = Vec::new();
    while rest.len() > 0
        invariant
            rest@.len() <= all.len(),
            rest@ =~= all.skip(all.len() - rest@.len()),
            models(entries@) =~= oks_of(all.take(all.len() - rest@.len())),
            warnings@.map_values(|w: RowDecodeError| w.message@) =~= errs_of(
                all.take(all.len() - rest@.len()),
            ),
        decreases rest@.len(),
    {
        let ghost m: int = all.len() - rest@.len();
        let row = rest.remove(0);
        proof {
            assert(row == all[m]);
            assert(rest@ =~= all.skip(m + 1));
            assert(all.take(m + 1).drop_last() =~= all.take(m));
            assert(all.take(m + 1).last() == all[m]);
        }
        match row {
            Result::Ok(e) => {
                entries.push(e);
                assert(models(entries@) =~= oks_of(all.take(m + 1)));
                assert(warnings@.map_values(|w: RowDecodeError| w.message@) =~= errs_of(
                    all.take(m + 1),
                ));
            },
            Result::Err(w) => {
                warnings.push(w);
                assert(models(entries@) =~= oks_of(all.take(m + 1)));
                assert(warnings@.map_values(|w2: RowDecodeError| w2.message@) =~= errs_of(
                    all.take(m + 1),
                ));
            },
        }
    }
    proof {
        assert(all.take(all.len() as int) =~= all);
    }
    (entries, warnings)
}

} // verus!
