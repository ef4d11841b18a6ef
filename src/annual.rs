//! Annual performance: one row per (funding year, type of work).
use vstd::prelude::*;
use crate::grouping::{
    first_index, first_positions, group_of, group_totals, key_of, lemma_select_contains,
    listed_at, GroupBy, GroupKey,
};
use crate::order::{is_permutation, key_ge, lists, sort_order};
use crate::record::{ProjectRecord, FIRST_YEAR};
use crate::stats::{
    all_wf, div_floor, hundredths, hundredths_of, overrun_count, ratio_floor, ratio_floor_exec,
    savings_total,
    select, GroupTotals, MAX_RECORDS, MAX_SAVINGS_CENTS,
};

verus! {

pub struct AnnualMetric {
    pub funding_year: i32,
    pub type_of_work: String,
    pub project_count: u64,
    /// Average cost savings, in centavos, rounded down.
    pub avg_savings: i128,
    /// Share of projects that cost more than their budget, in hundredths
    /// of a percent.
    pub overrun_rate: i128,
    /// Change of the average savings against the same type of work in the
    /// year before, in hundredths of a percent.
    pub yoy_change: i128,
}

impl AnnualMetric {
    pub fn duplicate(&self) -> (r: Self)
        ensures
            r == *self,
    {
        AnnualMetric {
            funding_year: self.funding_year,
            type_of_work: self.type_of_work.clone(),
            project_count: self.project_count,
            avg_savings: self.avg_savings,
            overrun_rate: self.overrun_rate,
            yoy_change: self.yoy_change,
        }
    }
}

pub open spec fn year_work_key(work: Seq<char>, year: int) -> GroupKey {
    (work, Seq::empty(), year)
}

pub open spec fn metric_key(t: AnnualMetric) -> GroupKey {
    year_work_key(t.type_of_work@, t.funding_year as int)
}

/// The year-over-year change in hundredths of a percent, from this group's
/// savings sum and count and the savings sum and count of the same type of
/// work in the year before: 0 for the first year or with no prior group;
/// with a prior average of exactly 0, 100% when this average is positive,
/// else 0; otherwise (this average - prior average) / |prior average| * 100.
pub open spec fn yoy_of(year: int, sum: int, n: int, prev_sum: int, prev_n: int) -> int {
    if year == FIRST_YEAR || prev_n == 0 {
        0
    } else if prev_sum == 0 {
        if sum > 0 {
            10000
        } else {
            0
        }
    } else {
        ratio_floor(
            (sum * prev_n - prev_sum * n) * 10000,
            n * (if prev_sum < 0 {
                -prev_sum
            } else {
                prev_sum
            }),
        )
    }
}

/// `t` holds the figures of its (year, type of work) group among `records`.
pub open spec fn metric_of(t: AnnualMetric, records: Seq<ProjectRecord>) -> bool {
    let g = group_of(records, GroupBy::YearAndWork, metric_key(t));
    let prev = group_of(
        records,
        GroupBy::YearAndWork,
        year_work_key(t.type_of_work@, t.funding_year - 1),
    );
    &&& g.len() > 0
    &&& t.project_count == g.len()
    &&& t.avg_savings == savings_total(g) / (g.len() as int)
    &&& t.overrun_rate == hundredths_of(overrun_count(g) * 100, g.len() as int)
    &&& t.yoy_change == yoy_of(
        t.funding_year as int,
        savings_total(g),
        g.len() as int,
        savings_total(prev),
        prev.len() as int,
    )
}

pub fn yoy_change(year: i32, sum: i128, n: u64, prev_sum: i128, prev_n: u64) -> (r: i128)
    requires
        -2_000_000_000_000_000_000_000 <= sum <= 2_000_000_000_000_000_000_000,
        -2_000_000_000_000_000_000_000 <= prev_sum <= 2_000_000_000_000_000_000_000,
        1 <= n <= MAX_RECORDS,
        prev_n <= MAX_RECORDS,
    ensures
        r == yoy_of(year as int, sum as int, n as int, prev_sum as int, prev_n as int),
{
    if year == FIRST_YEAR || prev_n == 0 {
        return 0;
    }
    if prev_sum == 0 {
        return if sum > 0 {
            10000
        } else {
            0
        };
    }
    let magnitude = if prev_sum < 0 {
        -prev_sum
    } else {
        prev_sum
    };
    proof {
        let s = sum as int;
        let pn = prev_n as int;
        let ps = prev_sum as int;
        let c = n as int;
        let m = magnitude as int;
        assert(-2_000_000_000_000_000_000_000_000_000 <= s * pn <= 2_000_000_000_000_000_000_000_000_000)
            by (nonlinear_arith)
            requires
                -2_000_000_000_000_000_000_000 <= s <= 2_000_000_000_000_000_000_000,
                0 <= pn <= 1_000_000,
        ;
        assert(-2_000_000_000_000_000_000_000_000_000 <= ps * c <= 2_000_000_000_000_000_000_000_000_000)
            by (nonlinear_arith)
            requires
                -2_000_000_000_000_000_000_000 <= ps <= 2_000_000_000_000_000_000_000,
                1 <= c <= 1_000_000,
        ;
        assert(1 <= c * m <= 2_000_000_000_000_000_000_000_000_000) by (nonlinear_arith)
            requires
                1 <= m <= 2_000_000_000_000_000_000_000,
                1 <= c <= 1_000_000,
        ;
    }
    ratio_floor_exec(
        (sum * prev_n as i128 - prev_sum * n as i128) * 10000,
        n as i128 * magnitude,
    )
}

/// Savings sum and count of the records of one type of work in one year.
fn year_work_totals(records: &Vec<ProjectRecord>, work: &String, year: i32) -> (r: GroupTotals)
    requires
        records@.len() <= MAX_RECORDS,
        all_wf(records@),
    ensures
        r.describes(group_of(records@, GroupBy::YearAndWork, year_work_key(work@, year as int))),
        r.bounded(),
{
    let ghost key = year_work_key(work@, year as int);
    let ghost pred = |p: ProjectRecord| key_of(GroupBy::YearAndWork, p) == key;
    let mut totals = GroupTotals::new();
    let mut i: usize = 0;
    while i < records.len()
        invariant
            i <= records@.len(),
            records@.len() <= MAX_RECORDS,
            all_wf(records@),
            key == year_work_key(work@, year as int),
            pred == (|p: ProjectRecord| key_of(GroupBy::YearAndWork, p) == key),
            totals.describes(select(records@.take(i as int), pred)),
            totals.bounded(),
            totals.count <= i,
        decreases records@.len() - i,
    {
        let p = &records[i];
        let ghost g = select(records@.take(i as int), pred);
        assert(records@.take(i + 1).drop_last() =~= records@.take(i as int));
        assert(records@[i as int].wf());
        if p.funding_year == year && p.type_of_work == *work {
            totals.add(p, Ghost(g));
        }
        i = i + 1;
    }
    assert(records@.take(records@.len() as int) =~= records@);
    totals
}

proof fn lemma_totals_range(t: GroupTotals)
    requires
        t.bounded(),
    ensures
        -2_000_000_000_000_000_000_000 <= t.savings <= 2_000_000_000_000_000_000_000,
{
    let c = t.count as int;
    assert(c * MAX_SAVINGS_CENTS <= 1_000_000 * MAX_SAVINGS_CENTS) by (nonlinear_arith)
        requires
            0 <= c <= 1_000_000,
    ;
}

/// The row of the group of record `first`.
fn annual_row(records: &Vec<ProjectRecord>, first: usize) -> (t: AnnualMetric)
    requires
        records@.len() <= MAX_RECORDS,
        all_wf(records@),
        first < records@.len(),
    ensures
        metric_of(t, records@),
        key_of(GroupBy::YearAndWork, records@[first as int]) == metric_key(t),
{
    let (totals, _savings) = group_totals(records, GroupBy::YearAndWork, first);
    let ghost key = key_of(GroupBy::YearAndWork, records@[first as int]);
    let year = records[first].funding_year;
    let work = records[first].type_of_work.clone();
    proof {
        lemma_select_contains(
            records@,
            |p: ProjectRecord| key_of(GroupBy::YearAndWork, p) == key,
            first as int,
        );
        lemma_totals_range(totals);
        assert(records@[first as int].wf());
    }
    let prev = year_work_totals(records, &work, year - 1);
    proof {
        lemma_totals_range(prev);
    }
    let n = totals.count;
    AnnualMetric {
        funding_year: year,
        type_of_work: work,
        project_count: n,
        avg_savings: div_floor(totals.savings, n as i128),
        overrun_rate: hundredths(totals.overrun as i128 * 100, n),
        yoy_change: yoy_change(year, totals.savings, n, prev.savings, prev.count),
    }
}

/// Some row is that of the key `key`.
pub open spec fn has_metric_for(rows: Seq<AnnualMetric>, key: GroupKey) -> bool {
    exists|j: int| 0 <= j < rows.len() && metric_key(rows[j]) == key
}

/// One row per (funding year, type of work) found in the records, ordered
/// by year, earliest first, then by average savings, highest first; rows
/// equal in both keep the order of their first record.
pub fn annual_performance(records: &Vec<ProjectRecord>) -> (r: Vec<AnnualMetric>)
    requires
        records@.len() <= MAX_RECORDS,
        all_wf(records@),
    ensures
        forall|j: int| 0 <= j < r@.len() ==> metric_of(#[trigger] r@[j], records@),
        forall|a: int, b: int|
            0 <= a < r@.len() && 0 <= b < r@.len() && a != b ==> metric_key(r@[a]) != metric_key(
                r@[b],
            ),
        forall|k: int|
            0 <= k < records@.len() ==> #[trigger] has_metric_for(
                r@,
                key_of(GroupBy::YearAndWork, records@[k]),
            ),
        forall|a: int, b: int|
            0 <= a < b < r@.len() ==> r@[a].funding_year < r@[b].funding_year || (
            r@[a].funding_year == r@[b].funding_year && r@[a].avg_savings >= r@[b].avg_savings),
        forall|a: int, b: int|
            0 <= a < b < r@.len() && r@[a].funding_year == r@[b].funding_year && r@[a].avg_savings
                == r@[b].avg_savings ==> first_index(records@, GroupBy::YearAndWork, metric_key(r@[a]))
                < first_index(records@, GroupBy::YearAndWork, metric_key(r@[b])),
{
    let firsts = first_positions(records, GroupBy::YearAndWork);
    let mut rows: Vec<AnnualMetric> = Vec::new();
    let mut keys: Vec<(i128, i128)> = Vec::new();
    let mut i: usize = 0;
    while i < firsts.len()
        invariant
            i <= firsts@.len(),
            records@.len() <= MAX_RECORDS,
            all_wf(records@),
            rows@.len() == i,
            keys@.len() == i,
            forall|j: int| 0 <= j < firsts@.len() ==> (#[trigger] firsts@[j]) < records@.len(),
            forall|j: int|
                0 <= j < i ==> metric_of(#[trigger] rows@[j], records@) && key_of(
                    GroupBy::YearAndWork,
                    records@[firsts@[j] as int],
                ) == metric_key(rows@[j]) && keys@[j].0 == -(rows@[j].funding_year as int)
                    && keys@[j].1 == rows@[j].avg_savings,
        decreases firsts@.len() - i,
    {
        let t = annual_row(records, firsts[i]);
        keys.push((-(t.funding_year as i128), t.avg_savings));
        rows.push(t);
        i = i + 1;
    }
    let order = sort_order(&keys);
    let mut out: Vec<AnnualMetric> = Vec::new();
    let mut j: usize = 0;
    while j < order.len()
        invariant
            j <= order@.len(),
            rows@.len() == keys@.len(),
            is_permutation(order@, keys@.len() as int),
            out@.len() == j,
            forall|t: int| 0 <= t < j ==> #[trigger] out@[t] == rows@[order@[t] as int],
        decreases order@.len() - j,
    {
        out.push(rows[order[j]].duplicate());
        j = j + 1;
    }
    proof {
        assert forall|k: int| 0 <= k < records@.len() implies #[trigger] has_metric_for(
            out@,
            key_of(GroupBy::YearAndWork, records@[k]),
        ) by {
            assert(listed_at(
                records@,
                GroupBy::YearAndWork,
                firsts@,
                key_of(GroupBy::YearAndWork, records@[k]),
            ));
            let m = choose|m: int|
                0 <= m < firsts@.len() && key_of(GroupBy::YearAndWork, records@[firsts@[m] as int])
                    == key_of(GroupBy::YearAndWork, records@[k]);
            assert(lists(order@, m));
            let j = choose|j: int| 0 <= j < order@.len() && order@[j] == m;
            assert(out@[j] == rows@[m]);
            assert(metric_of(rows@[m], records@));
        }
        assert forall|a: int, b: int| 0 <= a < b < out@.len() implies out@[a].funding_year
            < out@[b].funding_year || (out@[a].funding_year == out@[b].funding_year
            && out@[a].avg_savings >= out@[b].avg_savings) by {
            assert(out@[a] == rows@[order@[a] as int]);
            assert(out@[b] == rows@[order@[b] as int]);
            assert(key_ge(keys@[order@[a] as int], keys@[order@[b] as int]));
        }
        assert forall|a: int, b: int|
            0 <= a < b < out@.len() && out@[a].funding_year == out@[b].funding_year
                && out@[a].avg_savings == out@[b].avg_savings implies first_index(
            records@,
            GroupBy::YearAndWork,
            metric_key(out@[a]),
        ) < first_index(records@, GroupBy::YearAndWork, metric_key(out@[b])) by {
            let x = order@[a] as int;
            let y = order@[b] as int;
            assert(out@[a] == rows@[x]);
            assert(out@[b] == rows@[y]);
            assert(metric_of(rows@[x], records@));
            assert(metric_of(rows@[y], records@));
            assert(keys@[x] == keys@[y]);
            assert(x < y);
        }
        assert forall|a: int, b: int|
            0 <= a < out@.len() && 0 <= b < out@.len() && a != b implies metric_key(out@[a])
            != metric_key(out@[b]) by {
            assert(out@[a] == rows@[order@[a] as int]);
            assert(out@[b] == rows@[order@[b] as int]);
        }
    }
    out
}

} // verus!
