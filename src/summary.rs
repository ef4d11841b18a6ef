//! The summary digest and the whole analysis.
use vstd::prelude::*;
use crate::annual::{annual_performance, has_metric_for, metric_key, metric_of, AnnualMetric};
use crate::contractor::{
    contractor_key, contractor_ranking, has_ranking_for, ranking_of, ContractorRanking,
    MIN_PROJECTS,
};
use crate::grouping::{first_index, first_positions, group_of, key_of, listed_at, GroupBy};
use crate::record::ProjectRecord;
use crate::regional::{area_of, has_trend_for, regional_trends, trend_of, RegionalTrend, MAX_SCORE};
use crate::stats::{
    all_wf, budget_total, delay_count, delay_total, hundredths, hundredths_of, GroupTotals,
    MAX_RECORDS,
};

verus! {

pub struct SummaryDigest {
    pub total_projects: usize,
    /// Sum of approved budgets, in centavos.
    pub total_budget: i128,
    /// Average known delay over all records, in hundredths of a day.
    pub global_avg_delay: i128,
    /// Contractors that met the project threshold (all of them, not only
    /// the exported top rows).
    pub total_contractors: usize,
    /// Distinct regions among the records.
    pub total_regions: usize,
}

/// The distinct regions of the records.
pub open spec fn region_set(records: Seq<ProjectRecord>) -> Set<Seq<char>> {
    records.map_values(|p: ProjectRecord| p.region@).to_set()
}

fn overall_totals(records: &Vec<ProjectRecord>) -> (r: GroupTotals)
    requires
        records@.len() <= MAX_RECORDS,
        all_wf(records@),
    ensures
        r.describes(records@),
        r.bounded(),
{
    let mut totals = GroupTotals::new();
    let mut i: usize = 0;
    while i < records.len()
        invariant
            i <= records@.len(),
            records@.len() <= MAX_RECORDS,
            all_wf(records@),
            totals.describes(records@.take(i as int)),
            totals.bounded(),
            totals.count == i,
        decreases records@.len() - i,
    {
        assert(records@.take(i + 1) =~= records@.take(i as int).push(records@[i as int]));
        assert(records@[i as int].wf());
        totals.add(&records[i], Ghost(records@.take(i as int)));
        i = i + 1;
    }
    assert(records@.take(records@.len() as int) =~= records@);
    totals
}

fn region_count(records: &Vec<ProjectRecord>) -> (r: usize)
    ensures
        r == region_set(records@).len(),
{
    broadcast use vstd::seq_lib::group_seq_properties;

    let firsts = first_positions(records, GroupBy::Region);
    proof {
        let ks = Seq::new(firsts@.len(), |j: int| records@[firsts@[j] as int].region@);
        let all = records@.map_values(|p: ProjectRecord| p.region@);
        assert(ks.no_duplicates()) by {
            assert forall|a: int, b: int| 0 <= a < ks.len() && 0 <= b < ks.len() && a != b
                implies ks[a] != ks[b] by {
                assert(key_of(GroupBy::Region, records@[firsts@[a] as int]) != key_of(
                    GroupBy::Region,
                    records@[firsts@[b] as int],
                ));
            }
        }
        ks.unique_seq_to_set();
        assert forall|x: Seq<char>| ks.to_set().contains(x) <==> all.to_set().contains(x) by {
            if ks.contains(x) {
                let j = choose|j: int| 0 <= j < ks.len() && ks[j] == x;
                assert(all[firsts@[j] as int] == x);
            }
            if all.contains(x) {
                let k = choose|k: int| 0 <= k < all.len() && all[k] == x;
                assert(listed_at(records@, GroupBy::Region, firsts@, key_of(GroupBy::Region, records@[k])));
                let m = choose|m: int|
                    0 <= m < firsts@.len() && key_of(GroupBy::Region, records@[firsts@[m] as int])
                        == key_of(GroupBy::Region, records@[k]);
                assert(ks[m] == x);
            }
        }
        assert(ks.to_set() =~= all.to_set());
    }
    firsts.len()
}

/// The digest over all records and the full (untruncated) ranking.
pub fn summarize(records: &Vec<ProjectRecord>, rankings: &Vec<ContractorRanking>) -> (r:
    SummaryDigest)
    requires
        records@.len() <= MAX_RECORDS,
        all_wf(records@),
    ensures
        r.total_projects == records@.len(),
        r.total_budget == budget_total(records@),
        r.global_avg_delay == hundredths_of(delay_total(records@), delay_count(records@)),
        r.total_contractors == rankings@.len(),
        r.total_regions == region_set(records@).len(),
{
    let totals = overall_totals(records);
    proof {
        let dc = totals.delay_count as int;
        assert(dc * 4_294_967_296 <= 1_000_000 * 4_294_967_296) by (nonlinear_arith)
            requires
                0 <= dc <= 1_000_000,
        ;
    }
    SummaryDigest {
        total_projects: records.len(),
        total_budget: totals.budget,
        global_avg_delay: hundredths(totals.delay_sum, totals.delay_count),
        total_contractors: rankings.len(),
        total_regions: region_count(records),
    }
}

/// The three reports and the digest of one dataset.
pub struct Reports {
    pub regional: Vec<RegionalTrend>,
    /// The full ranking; `top_ranked` gives the exported rows.
    pub contractors: Vec<ContractorRanking>,
    pub annual: Vec<AnnualMetric>,
    pub summary: SummaryDigest,
}

/// `r` holds the three reports and the digest of `records`: each row is
/// exact for its group, groups are distinct and all present, rows are in
/// report order with ties kept in the order of each group's first record,
/// and the digest counts the whole dataset.
pub open spec fn reports_of(r: Reports, records: Seq<ProjectRecord>) -> bool {
    &&& forall|j: int|
            0 <= j < r.regional@.len() ==> trend_of(#[trigger] r.regional@[j], records)
    &&& forall|a: int, b: int|
            0 <= a < r.regional@.len() && 0 <= b < r.regional@.len() && a != b ==> area_of(
                r.regional@[a],
            ) != area_of(r.regional@[b])
    &&& forall|k: int|
            0 <= k < records.len() ==> #[trigger] has_trend_for(
                r.regional@,
                key_of(GroupBy::Area, records[k]),
            )
    &&& forall|a: int, b: int|
            0 <= a < b < r.regional@.len() ==> r.regional@[a].efficiency_score
                >= r.regional@[b].efficiency_score
    &&& forall|j: int|
            0 <= j < r.contractors@.len() ==> ranking_of(#[trigger] r.contractors@[j], records)
                && r.contractors@[j].rank == j + 1
    &&& forall|a: int, b: int|
            0 <= a < r.contractors@.len() && 0 <= b < r.contractors@.len() && a != b
                ==> contractor_key(r.contractors@[a]) != contractor_key(r.contractors@[b])
    &&& forall|k: int|
            0 <= k < records.len() && group_of(
                records,
                GroupBy::Contractor,
                key_of(GroupBy::Contractor, records[k]),
            ).len() >= MIN_PROJECTS ==> #[trigger] has_ranking_for(
                r.contractors@,
                key_of(GroupBy::Contractor, records[k]),
            )
    &&& forall|a: int, b: int|
            0 <= a < b < r.contractors@.len() ==> r.contractors@[a].total_cost
                >= r.contractors@[b].total_cost
    &&& forall|j: int| 0 <= j < r.annual@.len() ==> metric_of(#[trigger] r.annual@[j], records)
    &&& forall|a: int, b: int|
            0 <= a < r.annual@.len() && 0 <= b < r.annual@.len() && a != b ==> metric_key(
                r.annual@[a],
            ) != metric_key(r.annual@[b])
    &&& forall|k: int|
            0 <= k < records.len() ==> #[trigger] has_metric_for(
                r.annual@,
                key_of(GroupBy::YearAndWork, records[k]),
            )
    &&& forall|a: int, b: int|
            0 <= a < b < r.annual@.len() ==> r.annual@[a].funding_year < r.annual@[b].funding_year
                || (r.annual@[a].funding_year == r.annual@[b].funding_year
                && r.annual@[a].avg_savings >= r.annual@[b].avg_savings)
    &&& forall|a: int, b: int|
        0 <= a < b < r.regional@.len() && r.regional@[a].efficiency_score
            == r.regional@[b].efficiency_score ==> first_index(
            records,
            GroupBy::Area,
            area_of(r.regional@[a]),
        ) < first_index(records, GroupBy::Area, area_of(r.regional@[b]))
    &&& forall|a: int, b: int|
        0 <= a < b < r.contractors@.len() && r.contractors@[a].total_cost
            == r.contractors@[b].total_cost ==> first_index(
            records,
            GroupBy::Contractor,
            contractor_key(r.contractors@[a]),
        ) < first_index(records, GroupBy::Contractor, contractor_key(r.contractors@[b]))
    &&& forall|a: int, b: int|
        0 <= a < b < r.annual@.len() && r.annual@[a].funding_year == r.annual@[b].funding_year
            && r.annual@[a].avg_savings == r.annual@[b].avg_savings ==> first_index(
            records,
            GroupBy::YearAndWork,
            metric_key(r.annual@[a]),
        ) < first_index(records, GroupBy::YearAndWork, metric_key(r.annual@[b]))
    &&& r.summary.total_projects == records.len()
    &&& r.summary.total_budget == budget_total(records)
    &&& r.summary.global_avg_delay == hundredths_of(delay_total(records), delay_count(records))
    &&& r.summary.total_contractors == r.contractors@.len()
    &&& r.summary.total_regions == region_set(records).len()
}

/// Runs the three analyses and the digest over the kept records.
pub fn generate_reports(records: &Vec<ProjectRecord>) -> (r: Reports)
    requires
        records@.len() <= MAX_RECORDS,
        all_wf(records@),
    ensures
        reports_of(r, records@),
{
    let regional = regional_trends(records);
    let contractors = contractor_ranking(records);
    let annual = annual_performance(records);
    let summary = summarize(records, &contractors);
    Reports { regional, contractors, annual, summary }
}

/// Checks that the records are valid and within the engine's capacity,
/// then runs the analyses; `None` when the check fails.
pub fn analyze(records: &Vec<ProjectRecord>) -> (r: Option<Reports>)
    ensures
        r is Some <==> records@.len() <= MAX_RECORDS && all_wf(records@),
        r matches Some(x) ==> reports_of(x, records@),
{
    if records.len() > MAX_RECORDS {
        return None;
    }
    let mut i: usize = 0;
    while i < records.len()
        invariant
            i <= records@.len(),
            forall|j: int| 0 <= j < i ==> (#[trigger] records@[j]).wf(),
        decreases records@.len() - i,
    {
        if !records[i].is_valid() {
            return None;
        }
        i = i + 1;
    }
    Some(generate_reports(records))
}

} // verus!
