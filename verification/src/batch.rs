//! Aggregation: from the outcomes of all workers to the rows of one batch.
//!
//! Aggregation starts when every worker has finished. It keeps the records,
//! drops the quarantine notices, and turns each record into the row that is
//! written for it. Order and sequence indices are carried over untouched.

use crate::record::{
    outcome_views, record_views, ImageRecord, ImageRecordView, Outcome, OutcomeView,
};
use vstd::prelude::*;

verus! {

/// The values bound to one insert: one per column of the table, but for the
/// key that the store assigns itself.
#[derive(Debug, PartialEq, Eq)]
pub struct Row {
    pub idx: u64,
    pub img_path: String,
    pub size: u64,
    pub orientation: String,
    pub content: String,
}

/// What a [`Row`] stands for.
pub struct RowView {
    pub idx: nat,
    pub img_path: Seq<char>,
    pub size: nat,
    pub orientation: Seq<char>,
    pub content: Seq<char>,
}

impl View for Row {
    type V = RowView;

    open spec fn view(&self) -> RowView {
        RowView {
            idx: self.idx as nat,
            img_path: self.img_path@,
            size: self.size as nat,
            orientation: self.orientation@,
            content: self.content@,
        }
    }
}

impl Clone for Row {
    fn clone(&self) -> (copy: Self)
        ensures
            copy@ == self@,
    {
        Row {
            idx: self.idx,
            img_path: self.img_path.clone(),
            size: self.size,
            orientation: self.orientation.clone(),
            content: self.content.clone(),
        }
    }
}

/// The views of a sequence of rows.
pub open spec fn row_views(rows: Seq<Row>) -> Seq<RowView> {
    rows.map_values(|r: Row| r@)
}

/// The records among the outcomes, in the order of the outcomes.
pub open spec fn indexed(outcomes: Seq<OutcomeView>) -> Seq<ImageRecordView>
    decreases outcomes.len(),
{
    if outcomes.len() == 0 {
        Seq::empty()
    } else {
        let front = indexed(outcomes.drop_last());
        match outcomes.last() {
            OutcomeView::Indexed(record) => front.push(record),
            OutcomeView::Quarantined(_) => front,
        }
    }
}

/// The row written for a record: index, path and size as they are, the
/// orientation by its name, the content as it is.
pub open spec fn row_of(record: ImageRecordView) -> RowView {
    RowView {
        idx: record.sequence_index,
        img_path: record.source_path,
        size: record.byte_size,
        orientation: record.orientation.label(),
        content: record.content,
    }
}

/// The rows written for a sequence of records, one each, in order.
pub open spec fn rows_of(records: Seq<ImageRecordView>) -> Seq<RowView> {
    records.map_values(|r: ImageRecordView| row_of(r))
}

/// Keeps the records among the outcomes, in the order of the outcomes.
pub fn collect_records(outcomes: Vec<Outcome>) -> (records: Vec<ImageRecord>)
    ensures
        record_views(records@) == indexed(outcome_views(outcomes@)),
        records.len() <= outcomes.len(),
{
    let ghost all = outcome_views(outcomes@);
    let mut records: Vec<ImageRecord> = Vec::new();
    for outcome in it: outcomes.into_iter()
        invariant
            it.seq() == outcomes@,
            all == outcome_views(outcomes@),
            record_views(records@) =~= indexed(all.take(it.index() as int)),
    {
        proof {
            let n = it.index() as int;
            assert(all.take(n + 1).drop_last() =~= all.take(n));
            assert(all.take(n + 1).last() == outcome@);
        }
        match outcome {
            Outcome::Indexed(record) => {
                records.push(record);
            },
            Outcome::Quarantined(_) => {},
        }
    }
    proof {
        assert(all.take(all.len() as int) =~= all);
        lemma_indexed_len(all);
    }
    records
}

/// The row written for a record.
pub fn to_row(record: ImageRecord) -> (row: Row)
    ensures
        row@ == row_of(record@),
{
    Row {
        idx: record.sequence_index,
        img_path: record.source_path,
        size: record.byte_size,
        orientation: record.orientation.name().to_owned(),
        content: record.content,
    }
}

/// The rows written for the records, one each, in order.
pub fn to_rows(records: Vec<ImageRecord>) -> (rows: Vec<Row>)
    ensures
        row_views(rows@) == rows_of(record_views(records@)),
        rows.len() == records.len(),
{
    let mut rows: Vec<Row> = Vec::new();
    for record in it: records.into_iter()
        invariant
            it.seq() == records@,
            rows.len() == it.index(),
            forall|k: int| 0 <= k < it.index() ==> (#[trigger] rows[k])@ == row_of(records[k]@),
    {
        let row = to_row(record);
        rows.push(row);
    }
    proof {
        assert(row_views(rows@) =~= rows_of(record_views(records@)));
    }
    rows
}

/// There are no more records than outcomes.
pub proof fn lemma_indexed_len(outcomes: Seq<OutcomeView>)
    ensures
        indexed(outcomes).len() <= outcomes.len(),
    decreases outcomes.len(),
{
    if outcomes.len() > 0 {
        lemma_indexed_len(outcomes.drop_last());
    }
}

/// Every record that is kept is the record of one of the outcomes, and
/// records are kept in the order of their outcomes: nothing is made up and
/// nothing changes place.
pub proof fn lemma_indexed_origin(outcomes: Seq<OutcomeView>, j: int) -> (i: int)
    requires
        0 <= j < indexed(outcomes).len(),
    ensures
        j <= i < outcomes.len(),
        outcomes[i] == OutcomeView::Indexed(indexed(outcomes)[j]),
        indexed(outcomes.take(i)).len() == j,
    decreases outcomes.len(),
{
    let front = outcomes.drop_last();
    let last_index = outcomes.len() - 1;
    lemma_indexed_len(front);
    if j < indexed(front).len() {
        let i = lemma_indexed_origin(front, j);
        assert(front.take(i) =~= outcomes.take(i));
        i
    } else {
        assert(front =~= outcomes.take(last_index));
        last_index
    }
}

/// Every outcome that holds a record contributes it: no record is dropped.
pub proof fn lemma_indexed_complete(outcomes: Seq<OutcomeView>, i: int) -> (j: int)
    requires
        0 <= i < outcomes.len(),
        outcomes[i] is Indexed,
    ensures
        0 <= j < indexed(outcomes).len(),
        outcomes[i] == OutcomeView::Indexed(indexed(outcomes)[j]),
        j == indexed(outcomes.take(i)).len(),
    decreases outcomes.len(),
{
    let front = outcomes.drop_last();
    let last_index = outcomes.len() - 1;
    if i < last_index {
        let j = lemma_indexed_complete(front, i);
        assert(front.take(i) =~= outcomes.take(i));
        j
    } else {
        assert(front =~= outcomes.take(last_index));
        indexed(front).len() as int
    }
}

/// A row carries the sequence index, the path, the size and the content of
/// its record unchanged, and the name of its orientation.
pub proof fn lemma_rows_keep_index(records: Seq<ImageRecordView>)
    ensures
        rows_of(records).len() == records.len(),
        forall|k: int|
            0 <= k < records.len() ==> {
                let row = #[trigger] rows_of(records)[k];
                &&& row.idx == records[k].sequence_index
                &&& row.img_path == records[k].source_path
                &&& row.size == records[k].byte_size
                &&& row.orientation == records[k].orientation.label()
                &&& row.content == records[k].content
            },
{
}

} // verus!
