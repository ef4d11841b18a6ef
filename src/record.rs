//! One input row turned into a validated project record, or a skip decision.
use vstd::prelude::*;
use crate::text::{
    amount_cents, int_value, parse_amount, parse_int, trim_text, trimmed, MAX_AMOUNT_CENTS,
};

verus! {

pub const COL_MAIN_ISLAND: usize = 0;
pub const COL_REGION: usize = 1;
pub const COL_TYPE_OF_WORK: usize = 8;
pub const COL_FUNDING_YEAR: usize = 9;
pub const COL_APPROVED_BUDGET: usize = 11;
pub const COL_CONTRACT_COST: usize = 12;
pub const COL_END_DATE: usize = 13;
pub const COL_CONTRACTOR: usize = 14;
pub const COL_START_DATE: usize = 16;

/// The funding years that the analysis keeps, both ends included.
pub const FIRST_YEAR: i32 = 2021;
pub const LAST_YEAR: i32 = 2023;

/// Calendar dates are written as 4-digit year, month and day.
pub const DATE_FORMAT: &'static str = "%Y-%m-%d";

/// The day number (days since the start of the common era) of the calendar
/// date that a text denotes in a strftime-style format, if it denotes one.
pub uninterp spec fn date_day_number(text: Seq<char>, format: Seq<char>) -> Option<int>;

/// Relies on chrono's `NaiveDate::parse_from_str` to read the date, and on
/// `Datelike::num_days_from_ce` to count its days; a text that chrono does not
/// read as a date gives `None`.
#[verifier::external_body]
fn parse_day_number(text: &str, format: &str) -> (r: Option<i32>)
    ensures
        match r {
            Some(d) => date_day_number(text@, format@) == Some(d as int),
            None => date_day_number(text@, format@) is None,
        },
{
    chrono::NaiveDate::parse_from_str(text, format).ok().map(
        |d| chrono::Datelike::num_days_from_ce(&d),
    )
}

/// One validated project. Amounts are in centavos; the delay, when both
/// dates were read, is the end date minus the start date in days.
#[derive(Clone, Debug)]
pub struct ProjectRecord {
    pub region: String,
    pub main_island: String,
    pub contractor: String,
    pub funding_year: i32,
    pub type_of_work: String,
    pub approved_budget: i64,
    pub contract_cost: i64,
    pub cost_savings: i64,
    pub completion_delay_days: Option<i64>,
}

/// The largest magnitude of a delay: the distance between two `i32` day numbers.
pub const MAX_DELAY_DAYS: i64 = 4_294_967_296;

impl ProjectRecord {
    /// A record with its savings derived from the two amounts.
    pub fn new(
        region: String,
        main_island: String,
        contractor: String,
        funding_year: i32,
        type_of_work: String,
        approved_budget: i64,
        contract_cost: i64,
        completion_delay_days: Option<i64>,
    ) -> (r: Self)
        requires
            -MAX_AMOUNT_CENTS <= approved_budget <= MAX_AMOUNT_CENTS,
            -MAX_AMOUNT_CENTS <= contract_cost <= MAX_AMOUNT_CENTS,
        ensures
            r.region == region,
            r.main_island == main_island,
            r.contractor == contractor,
            r.funding_year == funding_year,
            r.type_of_work == type_of_work,
            r.approved_budget == approved_budget,
            r.contract_cost == contract_cost,
            r.cost_savings == approved_budget - contract_cost,
            r.completion_delay_days == completion_delay_days,
    {
        ProjectRecord {
            region,
            main_island,
            contractor,
            funding_year,
            type_of_work,
            approved_budget,
            contract_cost,
            cost_savings: approved_budget - contract_cost,
            completion_delay_days,
        }
    }

    pub fn is_valid(&self) -> (r: bool)
        ensures
            r == self.wf(),
    {
        FIRST_YEAR <= self.funding_year && self.funding_year <= LAST_YEAR && -MAX_AMOUNT_CENTS
            <= self.approved_budget && self.approved_budget <= MAX_AMOUNT_CENTS
            && -MAX_AMOUNT_CENTS <= self.contract_cost && self.contract_cost <= MAX_AMOUNT_CENTS
            && self.cost_savings as i128 == self.approved_budget as i128 - self.contract_cost as i128
            && match self.completion_delay_days {
            Some(d) => -MAX_DELAY_DAYS <= d && d <= MAX_DELAY_DAYS,
            None => true,
        }
    }

    pub open spec fn wf(&self) -> bool {
        &&& FIRST_YEAR <= self.funding_year <= LAST_YEAR
        &&& -MAX_AMOUNT_CENTS <= self.approved_budget <= MAX_AMOUNT_CENTS
        &&& -MAX_AMOUNT_CENTS <= self.contract_cost <= MAX_AMOUNT_CENTS
        &&& self.cost_savings == self.approved_budget - self.contract_cost
        &&& match self.completion_delay_days {
            Some(d) => -MAX_DELAY_DAYS <= d <= MAX_DELAY_DAYS,
            None => true,
        }
    }
}

/// Why a row that passed the filters could not be read.
#[derive(Clone, Copy, Debug, PartialEq, Eq, Structural)]
pub enum RowError {
    /// The funding year is missing or not an integer.
    FundingYear,
    /// The approved budget is missing or not a decimal amount.
    ApprovedBudget,
    /// The contract cost is missing or not a decimal amount.
    ContractCost,
}

/// The three ways a row can end.
#[derive(Clone, Copy, Debug, PartialEq, Eq, Structural)]
pub enum RowStatus {
    Kept,
    Filtered,
    Invalid(RowError),
}

#[derive(Clone, Debug)]
pub enum RowOutcome {
    Kept(ProjectRecord),
    Filtered,
    Invalid(RowError),
}

impl RowOutcome {
    pub open spec fn status(self) -> RowStatus {
        match self {
            RowOutcome::Kept(_) => RowStatus::Kept,
            RowOutcome::Filtered => RowStatus::Filtered,
            RowOutcome::Invalid(e) => RowStatus::Invalid(e),
        }
    }
}

/// The trimmed text of a column, empty where the row is too short.
pub open spec fn field_text(row: Seq<String>, col: int) -> Seq<char> {
    if 0 <= col < row.len() {
        trimmed(row[col]@)
    } else {
        Seq::empty()
    }
}

pub open spec fn has_blank_field(row: Seq<String>) -> bool {
    exists|i: int| 0 <= i < row.len() && (#[trigger] trimmed(row[i]@)).len() == 0
}

pub open spec fn in_year_window(y: int) -> bool {
    FIRST_YEAR <= y <= LAST_YEAR
}

/// The blank-field gate, then the funding year (read, then windowed), then
/// the two amounts.
pub open spec fn row_status(row: Seq<String>) -> RowStatus {
    if has_blank_field(row) {
        RowStatus::Filtered
    } else {
        match int_value(field_text(row, COL_FUNDING_YEAR as int)) {
            None => RowStatus::Invalid(RowError::FundingYear),
            Some(y) => if !in_year_window(y) {
                RowStatus::Filtered
            } else if amount_cents(field_text(row, COL_APPROVED_BUDGET as int)) is None {
                RowStatus::Invalid(RowError::ApprovedBudget)
            } else if amount_cents(field_text(row, COL_CONTRACT_COST as int)) is None {
                RowStatus::Invalid(RowError::ContractCost)
            } else {
                RowStatus::Kept
            },
        }
    }
}

/// The delay of a row: end day minus start day, when both dates are read.
pub open spec fn row_delay(row: Seq<String>) -> Option<int> {
    let start = date_day_number(field_text(row, COL_START_DATE as int), DATE_FORMAT@);
    let end = date_day_number(field_text(row, COL_END_DATE as int), DATE_FORMAT@);
    match (start, end) {
        (Some(s), Some(e)) => Some(e - s),
        _ => None,
    }
}

/// `p` holds what a kept row says.
pub open spec fn record_of_row(p: ProjectRecord, row: Seq<String>) -> bool {
    &&& p.main_island@ == field_text(row, COL_MAIN_ISLAND as int)
    &&& p.region@ == field_text(row, COL_REGION as int)
    &&& p.type_of_work@ == field_text(row, COL_TYPE_OF_WORK as int)
    &&& p.contractor@ == field_text(row, COL_CONTRACTOR as int)
    &&& int_value(field_text(row, COL_FUNDING_YEAR as int)) == Some(p.funding_year as int)
    &&& amount_cents(field_text(row, COL_APPROVED_BUDGET as int)) == Some(p.approved_budget as int)
    &&& amount_cents(field_text(row, COL_CONTRACT_COST as int)) == Some(p.contract_cost as int)
    &&& p.cost_savings == p.approved_budget - p.contract_cost
    &&& match p.completion_delay_days {
        Some(d) => row_delay(row) == Some(d as int),
        None => row_delay(row) is None,
    }
}

/// The trimmed text of a column, empty where the row is too short.
fn column<'a>(row: &'a Vec<String>, col: usize) -> (r: &'a str)
    ensures
        r@ == field_text(row@, col as int),
{
    if col < row.len() {
        trim_text(row[col].as_str())
    } else {
        proof {
            reveal_strlit("");
        }
        ""
    }
}

fn column_string(row: &Vec<String>, col: usize) -> (r: String)
    ensures
        r@ == field_text(row@, col as int),
{
    column(row, col).to_string()
}

fn blank_field_present(row: &Vec<String>) -> (r: bool)
    ensures
        r == has_blank_field(row@),
{
    let mut i: usize = 0;
    while i < row.len()
        invariant
            i <= row.len(),
            forall|j: int| 0 <= j < i ==> (#[trigger] trimmed(row@[j]@)).len() != 0,
        decreases row.len() - i,
    {
        if trim_text(row[i].as_str()).is_empty() {
            return true;
        }
        i = i + 1;
    }
    false
}

fn row_delay_days(row: &Vec<String>) -> (r: Option<i64>)
    ensures
        match r {
            Some(d) => row_delay(row@) == Some(d as int) && -MAX_DELAY_DAYS <= d <= MAX_DELAY_DAYS,
            None => row_delay(row@) is None,
        },
{
    let start = parse_day_number(column(row, COL_START_DATE), DATE_FORMAT);
    let end = parse_day_number(column(row, COL_END_DATE), DATE_FORMAT);
    match (start, end) {
        (Some(s), Some(e)) => Some(e as i64 - s as i64),
        _ => None,
    }
}

/// Classifies one raw row and, when it is kept, builds its record.
pub fn parse_row(row: &Vec<String>) -> (r: RowOutcome)
    ensures
        r.status() == row_status(row@),
        r matches RowOutcome::Kept(p) ==> record_of_row(p, row@) && p.wf(),
{
    if blank_field_present(row) {
        return RowOutcome::Filtered;
    }
    let funding_year = match parse_int(column(row, COL_FUNDING_YEAR)) {
        Some(y) => y,
        None => return RowOutcome::Invalid(RowError::FundingYear),
    };
    if funding_year < FIRST_YEAR || funding_year > LAST_YEAR {
        return RowOutcome::Filtered;
    }
    let approved_budget = match parse_amount(column(row, COL_APPROVED_BUDGET)) {
        Some(v) => v,
        None => return RowOutcome::Invalid(RowError::ApprovedBudget),
    };
    let contract_cost = match parse_amount(column(row, COL_CONTRACT_COST)) {
        Some(v) => v,
        None => return RowOutcome::Invalid(RowError::ContractCost),
    };
    let completion_delay_days = row_delay_days(row);
    RowOutcome::Kept(
        ProjectRecord {
            region: column_string(row, COL_REGION),
            main_island: column_string(row, COL_MAIN_ISLAND),
            contractor: column_string(row, COL_CONTRACTOR),
            funding_year,
            type_of_work: column_string(row, COL_TYPE_OF_WORK),
            approved_budget,
            contract_cost,
            cost_savings: approved_budget - contract_cost,
            completion_delay_days,
        },
    )
}

} // verus!
