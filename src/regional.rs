//! Regional trends: one row per (region, main island).
use vstd::prelude::*;
use vstd::seq_lib::group_to_multiset_ensures;
use crate::grouping::{
    first_index, first_positions, group_of, group_totals, key_of, lemma_select_contains,
    listed_at, savings_seq, GroupBy, GroupKey,
};
use crate::order::{is_permutation, key_ge, lists, sort_order};
use crate::record::ProjectRecord;
use crate::stats::{
    all_wf, budget_total, clamp, delay_count, delay_total, div_floor, high_delay_count,
    hundredths, hundredths_of, median_twice, median_twice_of, ratio_floor, ratio_floor_exec,
    MAX_RECORDS,
    MAX_SAVINGS_CENTS,
};

verus! {

/// The largest efficiency score, in hundredths (100.00).
pub const MAX_SCORE: i128 = 10000;

pub struct RegionalTrend {
    pub region: String,
    pub main_island: String,
    /// Sum of approved budgets, in centavos.
    pub total_budget: i128,
    /// Median cost savings, in centavos, rounded down.
    pub median_savings: i128,
    /// Average known delay, in hundredths of a day, rounded down.
    pub avg_delay: i128,
    /// Share of known delays above 30 days, in hundredths of a percent.
    pub high_delay_pct: i128,
    /// Efficiency score in hundredths, within 0 and `MAX_SCORE`.
    pub efficiency_score: i128,
}

impl RegionalTrend {
    pub fn duplicate(&self) -> (r: Self)
        ensures
            r == *self,
    {
        RegionalTrend {
            region: self.region.clone(),
            main_island: self.main_island.clone(),
            total_budget: self.total_budget,
            median_savings: self.median_savings,
            avg_delay: self.avg_delay,
            high_delay_pct: self.high_delay_pct,
            efficiency_score: self.efficiency_score,
        }
    }
}

/// The efficiency score in hundredths, from twice the median savings (in
/// centavos), the sum and the count of known delays: median savings (in
/// pesos) over average delay, times 100, clamped into 0..=100; 0 when the
/// average delay is within 0.001 days of zero or no delay is known.
pub open spec fn efficiency_of(median2: int, delay_sum: int, delays: int) -> int {
    if delays == 0 || 1000 * (if delay_sum < 0 {
        -delay_sum
    } else {
        delay_sum
    }) <= delays {
        0
    } else {
        clamp(ratio_floor(median2 * delays * 50, delay_sum), 0, MAX_SCORE as int)
    }
}

pub open spec fn area_of(t: RegionalTrend) -> GroupKey {
    (t.region@, t.main_island@, 0)
}

/// `t` is the row of its (region, main island) group among `records`.
pub open spec fn trend_of(t: RegionalTrend, records: Seq<ProjectRecord>) -> bool {
    let g = group_of(records, GroupBy::Area, area_of(t));
    let m2 = median_twice(savings_seq(g).sort());
    &&& g.len() > 0
    &&& t.total_budget == budget_total(g)
    &&& t.median_savings == m2 / 2
    &&& t.avg_delay == hundredths_of(delay_total(g), delay_count(g))
    &&& t.high_delay_pct == hundredths_of(high_delay_count(g) * 100, delay_count(g))
    &&& t.efficiency_score == efficiency_of(m2, delay_total(g), delay_count(g))
}

/// The bound on twice a median follows from the bound on each value.
proof fn lemma_median_bound(xs: Seq<int>, b: int)
    requires
        b >= 0,
        forall|i: int| 0 <= i < xs.len() ==> -b <= #[trigger] xs[i] <= b,
    ensures
        -2 * b <= median_twice(xs.sort()) <= 2 * b,
{
    broadcast use group_to_multiset_ensures;

    xs.lemma_sort_ensures();
    let s = xs.sort();
    assert forall|k: int| 0 <= k < s.len() implies -b <= #[trigger] s[k] <= b by {
        assert(s.to_multiset().contains(s[k]));
        assert(xs.to_multiset().contains(s[k]));
        assert(xs.contains(s[k]));
    }
    if s.len() > 0 {
        if s.len() % 2 == 0 {
            assert(-b <= s[s.len() / 2 - 1] <= b);
            assert(-b <= s[(s.len() / 2) as int] <= b);
        } else {
            assert(-b <= s[(s.len() / 2) as int] <= b);
        }
    }
}

pub fn efficiency_score(median2: i128, delay_sum: i128, delays: u64) -> (r: i128)
    requires
        -2 * MAX_SAVINGS_CENTS <= median2 <= 2 * MAX_SAVINGS_CENTS,
        -0x1_0000_0000_0000_0000_0000 <= delay_sum <= 0x1_0000_0000_0000_0000_0000,
        delays <= MAX_RECORDS,
    ensures
        r == efficiency_of(median2 as int, delay_sum as int, delays as int),
        0 <= r <= MAX_SCORE,
{
    let magnitude = if delay_sum < 0 {
        -delay_sum
    } else {
        delay_sum
    };
    if delays == 0 || 1000 * magnitude <= delays as i128 {
        return 0;
    }
    proof {
        let m = median2 as int;
        let n = delays as int;
        assert(-4_000_000_000_000_000 * 1_000_000 * 50 <= m * n * 50 <= 4_000_000_000_000_000
            * 1_000_000 * 50) by (nonlinear_arith)
            requires
                -4_000_000_000_000_000 <= m <= 4_000_000_000_000_000,
                0 <= n <= 1_000_000,
        ;
    }
    let raw = ratio_floor_exec(median2 * delays as i128 * 50, delay_sum);
    if raw < 0 {
        0
    } else if raw > MAX_SCORE {
        MAX_SCORE
    } else {
        raw
    }
}

/// The row of the group of record `first`.
fn area_trend(records: &Vec<ProjectRecord>, first: usize) -> (t: RegionalTrend)
    requires
        records@.len() <= MAX_RECORDS,
        all_wf(records@),
        first < records@.len(),
    ensures
        trend_of(t, records@),
        key_of(GroupBy::Area, records@[first as int]) == area_of(t),
{
    let (totals, savings) = group_totals(records, GroupBy::Area, first);
    let ghost key = key_of(GroupBy::Area, records@[first as int]);
    let ghost g = group_of(records@, GroupBy::Area, key);
    proof {
        lemma_select_contains(
            records@,
            |p: ProjectRecord| key_of(GroupBy::Area, p) == key,
            first as int,
        );
        lemma_median_bound(savings_seq(g), MAX_SAVINGS_CENTS as int);
        let c = totals.delay_count as int;
        assert(c * 4_294_967_296 <= 1_000_000 * 4_294_967_296) by (nonlinear_arith)
            requires
                0 <= c <= 1_000_000,
        ;
    }
    let median2 = median_twice_of(&savings);
    RegionalTrend {
        region: records[first].region.clone(),
        main_island: records[first].main_island.clone(),
        total_budget: totals.budget,
        median_savings: div_floor(median2, 2),
        avg_delay: hundredths(totals.delay_sum, totals.delay_count),
        high_delay_pct: hundredths(totals.high_delay as i128 * 100, totals.delay_count),
        efficiency_score: efficiency_score(median2, totals.delay_sum, totals.delay_count),
    }
}

/// Some row is that of the pair `key`.
pub open spec fn has_trend_for(rows: Seq<RegionalTrend>, key: GroupKey) -> bool {
    exists|j: int| 0 <= j < rows.len() && area_of(rows[j]) == key
}

/// One row per (region, main island) pair found in the records, ordered by
/// efficiency score, highest first; rows with equal scores keep the order
/// in which their pairs first appear.
pub fn regional_trends(records: &Vec<ProjectRecord>) -> (r: Vec<RegionalTrend>)
    requires
        records@.len() <= MAX_RECORDS,
        all_wf(records@),
    ensures
        forall|j: int| 0 <= j < r@.len() ==> trend_of(#[trigger] r@[j], records@),
        forall|a: int, b: int|
            0 <= a < r@.len() && 0 <= b < r@.len() && a != b ==> (r@[a].region@, r@[a].main_island@)
                != (r@[b].region@, r@[b].main_island@),
        forall|k: int|
            0 <= k < records@.len() ==> #[trigger] has_trend_for(r@, key_of(GroupBy::Area, records@[k])),
        forall|a: int, b: int|
            0 <= a < b < r@.len() ==> r@[a].efficiency_score >= r@[b].efficiency_score,
        forall|j: int| 0 <= j < r@.len() ==> 0 <= #[trigger] r@[j].efficiency_score <= MAX_SCORE,
        forall|a: int, b: int|
            0 <= a < b < r@.len() && r@[a].efficiency_score == r@[b].efficiency_score
                ==> first_index(records@, GroupBy::Area, area_of(r@[a])) < first_index(
                records@,
                GroupBy::Area,
                area_of(r@[b]),
            ),
{
    let firsts = first_positions(records, GroupBy::Area);
    let mut rows: Vec<RegionalTrend> = Vec::new();
    let mut keys: Vec<(i128, i128)> = Vec::new();
    let mut i: usize = 0;
    while i < firsts.len()
        invariant
            i <= firsts@.len(),
            records@.len() <= MAX_RECORDS,
            all_wf(records@),
            rows@.len() == i,
            keys@.len() == i,
            forall|j: int| 0 <= j < firsts@.len() ==> (#[trigger] firsts@[j]) < records@.len(),
            forall|j: int|
                0 <= j < i ==> trend_of(#[trigger] rows@[j], records@) && key_of(
                    GroupBy::Area,
                    records@[firsts@[j] as int],
                ) == area_of(rows@[j]) && keys@[j] == (
                    rows@[j].efficiency_score,
                    0i128,
                ),
        decreases firsts@.len() - i,
    {
        let t = area_trend(records, firsts[i]);
        keys.push((t.efficiency_score, 0));
        rows.push(t);
        i = i + 1;
    }
    let order = sort_order(&keys);
    let mut out: Vec<RegionalTrend> = Vec::new();
    let mut j: usize = 0;
    while j < order.len()
        invariant
            j <= order@.len(),
            rows@.len() == keys@.len(),
            is_permutation(order@, keys@.len() as int),
            out@.len() == j,
            forall|t: int| 0 <= t < j ==> #[trigger] out@[t] == rows@[order@[t] as int],
        decreases order@.len() - j,
    {
        out.push(rows[order[j]].duplicate());
        j = j + 1;
    }
    proof {
        assert forall|k: int| 0 <= k < records@.len() implies #[trigger] has_trend_for(
            out@,
            key_of(GroupBy::Area, records@[k]),
        ) by {
            assert(listed_at(records@, GroupBy::Area, firsts@, key_of(GroupBy::Area, records@[k])));
            let m = choose|m: int|
                0 <= m < firsts@.len() && key_of(GroupBy::Area, records@[firsts@[m] as int])
                    == key_of(GroupBy::Area, records@[k]);
            assert(lists(order@, m));
            let j = choose|j: int| 0 <= j < order@.len() && order@[j] == m;
            assert(out@[j] == rows@[m]);
            assert(trend_of(rows@[m], records@));
        }
        assert forall|a: int, b: int| 0 <= a < b < out@.len() implies out@[a].efficiency_score
            >= out@[b].efficiency_score by {
            assert(out@[a] == rows@[order@[a] as int]);
            assert(out@[b] == rows@[order@[b] as int]);
            assert(key_ge(keys@[order@[a] as int], keys@[order@[b] as int]));
        }
        assert forall|a: int, b: int|
            0 <= a < b < out@.len() && out@[a].efficiency_score == out@[b].efficiency_score
            implies first_index(records@, GroupBy::Area, area_of(out@[a])) < first_index(
            records@,
            GroupBy::Area,
            area_of(out@[b]),
        ) by {
            let x = order@[a] as int;
            let y = order@[b] as int;
            assert(out@[a] == rows@[x]);
            assert(out@[b] == rows@[y]);
            assert(trend_of(rows@[x], records@));
            assert(trend_of(rows@[y], records@));
            assert(keys@[x] == keys@[y]);
            assert(x < y);
        }
        assert forall|a: int, b: int|
            0 <= a < out@.len() && 0 <= b < out@.len() && a != b implies (
            out@[a].region@,
            out@[a].main_island@,
        ) != (out@[b].region@, out@[b].main_island@) by {
            assert(out@[a] == rows@[order@[a] as int]);
            assert(out@[b] == rows@[order@[b] as int]);
        }
    }
    out
}

} // verus!
