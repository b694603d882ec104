//! The run as a whole: from an enumeration and the contents of its files to
//! the batch that is written.
//!
//! The stages are separate functions so that the caller can read files and run
//! the workers as it likes. This module says what they amount to together when
//! the outcomes are gathered in the order of the work units, and proves what
//! holds of a run across its stages.

use crate::batch::{indexed, lemma_indexed_len, lemma_indexed_origin, rows_of, RowView};
use crate::content::ContentStrategy;
use crate::record::{ImageRecordView, OutcomeView};
use crate::traversal::{candidates, work_units, EntryView, WorkUnitView};
use crate::worker::{jpeg_dimensions, outcome_of_file, record_of};
use vstd::prelude::*;

verus! {

/// The outcomes of the work units, one each and in their order; `files` holds
/// for each work unit the bytes of its file, or nothing when the file could
/// not be read.
pub open spec fn outcomes_of(
    units: Seq<WorkUnitView>,
    files: Seq<Option<Seq<u8>>>,
    strategy: ContentStrategy,
) -> Seq<OutcomeView> {
    Seq::new(units.len(), |i: int| outcome_of_file(units[i], files[i], strategy))
}

/// The records of a run over the given enumeration.
pub open spec fn records_of_run(
    entries: Seq<EntryView>,
    files: Seq<Option<Seq<u8>>>,
    strategy: ContentStrategy,
) -> Seq<ImageRecordView> {
    indexed(outcomes_of(work_units(entries), files, strategy))
}

/// The batch of a run: the rows of its records.
pub open spec fn batch_of_run(
    entries: Seq<EntryView>,
    files: Seq<Option<Seq<u8>>>,
    strategy: ContentStrategy,
) -> Seq<RowView> {
    rows_of(records_of_run(entries, files, strategy))
}

/// Whether the file of a work unit was read and decodes.
pub open spec fn decodes(file: Option<Seq<u8>>) -> bool {
    file matches Some(bytes) && jpeg_dimensions(bytes) is Some
}

/// The number of records among the first outcomes never shrinks as more
/// outcomes are taken in.
proof fn lemma_indexed_monotone(outcomes: Seq<OutcomeView>, a: int, b: int)
    requires
        0 <= a <= b <= outcomes.len(),
    ensures
        indexed(outcomes.take(a)).len() <= indexed(outcomes.take(b)).len(),
        a < b && outcomes[a] is Indexed ==> indexed(outcomes.take(a)).len() < indexed(
            outcomes.take(b),
        ).len(),
    decreases b - a,
{
    if a < b {
        lemma_indexed_monotone(outcomes, a, b - 1);
        assert(outcomes.take(b).drop_last() =~= outcomes.take(b - 1));
        assert(outcomes.take(b).last() == outcomes[b - 1]);
    }
}

/// Every row of the batch belongs to one work unit whose file decoded: it
/// has that unit's sequence index and path, so its index lies between one and
/// the number of candidates. The indices of the rows rise strictly along the
/// batch, so no index occurs twice.
pub proof fn lemma_rows_carry_unit_index(
    entries: Seq<EntryView>,
    files: Seq<Option<Seq<u8>>>,
    strategy: ContentStrategy,
)
    ensures
        batch_of_run(entries, files, strategy).len() <= candidates(entries).len(),
        forall|j: int|
            0 <= j < batch_of_run(entries, files, strategy).len() ==> {
                let row = #[trigger] batch_of_run(entries, files, strategy)[j];
                &&& 1 <= row.idx <= candidates(entries).len()
                &&& decodes(files[row.idx - 1])
                &&& row.img_path == candidates(entries)[row.idx - 1].path
            },
        forall|j: int, k: int|
            0 <= j < k < batch_of_run(entries, files, strategy).len() ==> (
            #[trigger] batch_of_run(entries, files, strategy)[j]).idx < (#[trigger] batch_of_run(
                entries,
                files,
                strategy,
            )[k]).idx,
{
    let units = work_units(entries);
    let outcomes = outcomes_of(units, files, strategy);
    let records = indexed(outcomes);
    let batch = batch_of_run(entries, files, strategy);
    lemma_indexed_len(outcomes);
    assert forall|j: int| 0 <= j < batch.len() implies {
        let row = #[trigger] batch[j];
        &&& 1 <= row.idx <= candidates(entries).len()
        &&& decodes(files[row.idx - 1])
        &&& row.img_path == candidates(entries)[row.idx - 1].path
    } by {
        let i = lemma_indexed_origin(outcomes, j);
        assert(outcomes[i] == outcome_of_file(units[i], files[i], strategy));
        assert(units[i].sequence_index == i + 1);
    }
    assert forall|j: int, k: int| 0 <= j < k < batch.len() implies (#[trigger] batch[j]).idx < (
    #[trigger] batch[k]).idx by {
        let a = lemma_indexed_origin(outcomes, j);
        let b = lemma_indexed_origin(outcomes, k);
        assert(outcomes[a] == outcome_of_file(units[a], files[a], strategy));
        assert(outcomes[b] == outcome_of_file(units[b], files[b], strategy));
        if a >= b {
            lemma_indexed_monotone(outcomes, b, a);
        }
    }
}

/// A work unit whose file was read and decodes has exactly one row in the
/// batch, and a work unit whose file was not read or does not decode has
/// none: no unit is dropped and none is written twice.
pub proof fn lemma_each_decoded_unit_has_its_row(
    entries: Seq<EntryView>,
    files: Seq<Option<Seq<u8>>>,
    strategy: ContentStrategy,
    i: int,
)
    requires
        0 <= i < candidates(entries).len(),
    ensures
        decodes(files[i]) <==> exists|j: int|
            0 <= j < batch_of_run(entries, files, strategy).len() && (#[trigger] batch_of_run(
                entries,
                files,
                strategy,
            )[j]).idx == i + 1,
{
    let units = work_units(entries);
    let outcomes = outcomes_of(units, files, strategy);
    let batch = batch_of_run(entries, files, strategy);
    assert(outcomes[i] == outcome_of_file(units[i], files[i], strategy));
    if decodes(files[i]) {
        let j = crate::batch::lemma_indexed_complete(outcomes, i);
        assert(batch[j].idx == i + 1);
    } else {
        lemma_rows_carry_unit_index(entries, files, strategy);
        if exists|j: int| 0 <= j < batch.len() && (#[trigger] batch[j]).idx == i + 1 {
            let j = choose|j: int| 0 <= j < batch.len() && (#[trigger] batch[j]).idx == i + 1;
            assert(decodes(files[batch[j].idx - 1]));
        }
    }
}

/// A run is a function of the enumeration and the files: the same entries in
/// the same order with the same contents give the same batch, row for row.
pub proof fn lemma_run_deterministic(
    entries: Seq<EntryView>,
    files: Seq<Option<Seq<u8>>>,
    again: Seq<EntryView>,
    files_again: Seq<Option<Seq<u8>>>,
    strategy: ContentStrategy,
)
    requires
        entries =~= again,
        files =~= files_again,
    ensures
        batch_of_run(entries, files, strategy) == batch_of_run(again, files_again, strategy),
{
}

} // verus!
