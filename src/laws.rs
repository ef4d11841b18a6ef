//! Properties that hold of every input, stated over the specifications of
//! the parser and of the report figures.
use vstd::prelude::*;
use crate::annual::yoy_of;
use crate::contractor::{reliability_of, MAX_RELIABILITY};
use crate::record::{
    field_text, has_blank_field, in_year_window, row_status, RowStatus, COL_FUNDING_YEAR,
    FIRST_YEAR,
};
use crate::regional::{efficiency_of, MAX_SCORE};
use crate::text::int_value;

verus! {

/// A row with a blank field is skipped by the filters, whatever its other
/// fields hold.
pub proof fn lemma_blank_row_skipped(row: Seq<String>)
    requires
        has_blank_field(row),
    ensures
        row_status(row) == RowStatus::Filtered,
{
}

/// A row whose funding year reads as a year outside the window is skipped.
pub proof fn lemma_out_of_window_skipped(row: Seq<String>, year: int)
    requires
        int_value(field_text(row, COL_FUNDING_YEAR as int)) == Some(year),
        !in_year_window(year),
    ensures
        row_status(row) == RowStatus::Filtered,
{
}

/// Only rows whose funding year lies in the window are kept.
pub proof fn lemma_kept_rows_in_window(row: Seq<String>)
    requires
        row_status(row) == RowStatus::Kept,
    ensures
        int_value(field_text(row, COL_FUNDING_YEAR as int)) is Some,
        in_year_window(int_value(field_text(row, COL_FUNDING_YEAR as int))->0),
{
}

/// The efficiency score lies within 0 and 100.00 for every input.
pub proof fn lemma_efficiency_bounded(median2: int, delay_sum: int, delays: int)
    ensures
        0 <= efficiency_of(median2, delay_sum, delays) <= MAX_SCORE,
{
}

/// The reliability index never exceeds 100.00.
pub proof fn lemma_reliability_capped(avg_delay: int, savings: int, cost: int)
    ensures
        reliability_of(avg_delay, savings, cost) <= MAX_RELIABILITY,
{
}

/// The reliability index has no lower bound: below any value there is an
/// index (no delay, a cost of one centavo, a loss).
pub proof fn lemma_reliability_unbounded_below(bound: int)
    ensures
        exists|savings: int| #[trigger] reliability_of(0, savings, 1) < bound,
{
    let s = if bound < 0 {
        bound - 1
    } else {
        -1
    };
    assert(9000 * s * 10 == 9 * (10000 * s));
    assert((9000 * s * 10) / 9 == 10000 * s);
    assert(reliability_of(0, s, 1) < bound);
}

/// The year-over-year change of the first funding year is always 0.
pub proof fn lemma_first_year_no_change(sum: int, n: int, prev_sum: int, prev_n: int)
    ensures
        yoy_of(FIRST_YEAR as int, sum, n, prev_sum, prev_n) == 0,
{
}

} // verus!
