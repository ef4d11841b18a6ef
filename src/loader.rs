//! Drives the row parser over a whole table.
use vstd::prelude::*;
use crate::record::{parse_row, record_of_row, row_status, ProjectRecord, RowError, RowOutcome, RowStatus};

verus! {

/// The positions of the kept rows, in order.
pub open spec fn kept_indices(rows: Seq<Vec<String>>) -> Seq<int>
    decreases rows.len(),
{
    if rows.len() == 0 {
        Seq::empty()
    } else {
        let prev = kept_indices(rows.drop_last());
        if row_status(rows.last()@) == RowStatus::Kept {
            prev.push(rows.len() - 1)
        } else {
            prev
        }
    }
}

/// How many rows the filters skip.
pub open spec fn filtered_count(rows: Seq<Vec<String>>) -> nat
    decreases rows.len(),
{
    if rows.len() == 0 {
        0
    } else {
        filtered_count(rows.drop_last()) + if row_status(rows.last()@) == RowStatus::Filtered {
            1nat
        } else {
            0nat
        }
    }
}

/// The position and error of each row that could not be read, in order.
pub open spec fn problems_of(rows: Seq<Vec<String>>) -> Seq<(int, RowError)>
    decreases rows.len(),
{
    if rows.len() == 0 {
        Seq::empty()
    } else {
        let prev = problems_of(rows.drop_last());
        match row_status(rows.last()@) {
            RowStatus::Invalid(e) => prev.push((rows.len() - 1, e)),
            _ => prev,
        }
    }
}

/// The result of a load: how many rows were seen, how many the filters
/// skipped, which could not be read (by 0-based data row), and the kept
/// records in arrival order.
pub struct Dataset {
    pub total_rows: usize,
    pub filtered_rows: usize,
    pub problems: Vec<(usize, RowError)>,
    pub records: Vec<ProjectRecord>,
}

impl Dataset {
    /// Rows skipped for any reason.
    pub fn skipped_rows(&self) -> (r: usize)
        requires
            self.filtered_rows + self.problems@.len() <= usize::MAX,
        ensures
            r == self.filtered_rows + self.problems@.len(),
    {
        self.filtered_rows + self.problems.len()
    }
}

/// Parses every row; never stops on a bad one. Each row is kept, skipped by
/// a filter, or counted as a problem, and exactly one of the three.
pub fn load_rows(rows: &Vec<Vec<String>>) -> (d: Dataset)
    ensures
        d.total_rows == rows@.len(),
        d.records@.len() + d.filtered_rows + d.problems@.len() == d.total_rows,
        d.filtered_rows == filtered_count(rows@),
        d.problems@.len() == problems_of(rows@).len(),
        forall|j: int|
            0 <= j < d.problems@.len() ==> (#[trigger] d.problems@[j]).0 as int == problems_of(
                rows@,
            )[j].0 && d.problems@[j].1 == problems_of(rows@)[j].1,
        d.records@.len() == kept_indices(rows@).len(),
        forall|j: int|
            0 <= j < d.records@.len() ==> record_of_row(
                #[trigger] d.records@[j],
                rows@[kept_indices(rows@)[j]]@,
            ) && d.records@[j].wf(),
{
    let mut records: Vec<ProjectRecord> = Vec::new();
    let mut problems: Vec<(usize, RowError)> = Vec::new();
    let mut filtered_rows: usize = 0;
    let mut i: usize = 0;
    while i < rows.len()
        invariant
            i <= rows@.len(),
            records@.len() + filtered_rows + problems@.len() == i,
            filtered_rows == filtered_count(rows@.take(i as int)),
            problems@.len() == problems_of(rows@.take(i as int)).len(),
            forall|j: int|
                0 <= j < problems@.len() ==> (#[trigger] problems@[j]).0 as int == problems_of(
                    rows@.take(i as int),
                )[j].0 && problems@[j].1 == problems_of(rows@.take(i as int))[j].1,
            records@.len() == kept_indices(rows@.take(i as int)).len(),
            forall|j: int|
                0 <= j < records@.len() ==> record_of_row(
                    #[trigger] records@[j],
                    rows@[kept_indices(rows@.take(i as int))[j]]@,
                ) && records@[j].wf(),
        decreases rows@.len() - i,
    {
        let ghost prefix = rows@.take(i as int);
        let ghost next = rows@.take(i + 1);
        assert(next.drop_last() =~= prefix);
        assert(next.last() == rows@[i as int]);
        match parse_row(&rows[i]) {
            RowOutcome::Kept(p) => {
                assert(kept_indices(next) == kept_indices(prefix).push(i as int));
                let ghost before = records@;
                records.push(p);
                assert forall|j: int| 0 <= j < before.len() implies record_of_row(
                    #[trigger] records@[j],
                    rows@[kept_indices(next)[j]]@,
                ) && records@[j].wf() by {
                    assert(records@[j] == before[j]);
                }
            },
            RowOutcome::Filtered => {
                assert(kept_indices(next) == kept_indices(prefix));
                filtered_rows = filtered_rows + 1;
            },
            RowOutcome::Invalid(e) => {
                assert(kept_indices(next) == kept_indices(prefix));
                problems.push((i, e));
            },
        }
        i = i + 1;
    }
    assert(rows@.take(rows@.len() as int) =~= rows@);
    Dataset { total_rows: rows.len(), filtered_rows, problems, records }
}

} // verus!
