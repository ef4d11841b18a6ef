//! Contractor ranking: one row per contractor with enough projects.
use vstd::prelude::*;
use crate::grouping::{
    first_index, first_positions, group_of, group_totals, key_of, listed_at, GroupBy, GroupKey,
};
use crate::order::{is_permutation, key_ge, lists, sort_order};
use crate::record::{ProjectRecord, MAX_DELAY_DAYS};
use crate::stats::{
    all_wf, cost_total, delay_count, delay_total, hundredths, hundredths_of, lemma_div_bound,
    ratio_floor, ratio_floor_exec, savings_total, MAX_RECORDS, MAX_SAVINGS_CENTS,
};
use crate::text::MAX_AMOUNT_CENTS;

verus! {

/// A contractor needs this many projects to be ranked.
pub const MIN_PROJECTS: u64 = 5;

/// How many ranked rows are exported.
pub const TOP_RANKED: usize = 15;

/// The cap on the reliability index, in hundredths (100.00).
pub const MAX_RELIABILITY: i128 = 10000;

/// A reliability index below this (50.00) marks a contractor high risk.
pub const HIGH_RISK_BELOW: i128 = 5000;

#[derive(Clone, Copy, Debug, PartialEq, Eq, Structural)]
pub enum RiskFlag {
    HighRisk,
    LowRisk,
}

impl RiskFlag {
    pub open spec fn label_spec(&self) -> Seq<char> {
        match self {
            RiskFlag::HighRisk => "High Risk"@,
            RiskFlag::LowRisk => "Low Risk"@,
        }
    }

    pub fn label(&self) -> (r: &'static str)
        ensures
            r@ == self.label_spec(),
    {
        match self {
            RiskFlag::HighRisk => "High Risk",
            RiskFlag::LowRisk => "Low Risk",
        }
    }
}

pub struct ContractorRanking {
    /// 1-based position after sorting.
    pub rank: usize,
    pub contractor: String,
    /// Sum of contract costs, in centavos.
    pub total_cost: i128,
    pub project_count: u64,
    /// Average known delay, in hundredths of a day, rounded down.
    pub avg_delay: i128,
    /// Sum of cost savings, in centavos.
    pub total_savings: i128,
    /// Reliability index in hundredths, at most `MAX_RELIABILITY`.
    pub reliability_index: i128,
    pub risk_flag: RiskFlag,
}

impl ContractorRanking {
    pub fn duplicate(&self) -> (r: Self)
        ensures
            r == *self,
    {
        ContractorRanking {
            rank: self.rank,
            contractor: self.contractor.clone(),
            total_cost: self.total_cost,
            project_count: self.project_count,
            avg_delay: self.avg_delay,
            total_savings: self.total_savings,
            reliability_index: self.reliability_index,
            risk_flag: self.risk_flag,
        }
    }
}

/// The reliability index in hundredths, from the average delay (in
/// hundredths of a day), total savings and total cost (in centavos):
/// (1 - average delay / 90) * (savings / cost) * 100, with a cost of zero
/// taken as one peso, rounded down and capped at 100; it has no floor.
pub open spec fn reliability_of(avg_delay: int, savings: int, cost: int) -> int {
    let c = if cost == 0 {
        100
    } else {
        cost
    };
    let raw = ratio_floor((9000 - avg_delay) * savings * 10, 9 * c);
    if raw > MAX_RELIABILITY {
        MAX_RELIABILITY as int
    } else {
        raw
    }
}

pub open spec fn risk_of(reliability: int) -> RiskFlag {
    if reliability < HIGH_RISK_BELOW {
        RiskFlag::HighRisk
    } else {
        RiskFlag::LowRisk
    }
}

pub open spec fn contractor_key(t: ContractorRanking) -> GroupKey {
    (t.contractor@, Seq::empty(), 0)
}

/// `t` holds the figures of its contractor's group among `records`, which
/// has at least `MIN_PROJECTS` records.
pub open spec fn ranking_of(t: ContractorRanking, records: Seq<ProjectRecord>) -> bool {
    let g = group_of(records, GroupBy::Contractor, contractor_key(t));
    &&& g.len() >= MIN_PROJECTS
    &&& t.project_count == g.len()
    &&& t.total_cost == cost_total(g)
    &&& t.total_savings == savings_total(g)
    &&& t.avg_delay == hundredths_of(delay_total(g), delay_count(g))
    &&& t.reliability_index == reliability_of(t.avg_delay as int, savings_total(g), cost_total(g))
    &&& t.risk_flag == risk_of(t.reliability_index as int)
}

pub fn reliability_index(avg_delay: i128, savings: i128, cost: i128) -> (r: i128)
    requires
        -430_000_000_000 <= avg_delay <= 430_000_000_000,
        -2_000_000_000_000_000_000_000 <= savings <= 2_000_000_000_000_000_000_000,
        -1_000_000_000_000_000_000_000 <= cost <= 1_000_000_000_000_000_000_000,
    ensures
        r == reliability_of(avg_delay as int, savings as int, cost as int),
        r <= MAX_RELIABILITY,
{
    let c = if cost == 0 {
        100
    } else {
        cost
    };
    proof {
        let f = 9000 - avg_delay as int;
        let s = savings as int;
        assert(-431_000_000_000 * 2_000_000_000_000_000_000_000 * 10 <= f * s * 10
            <= 431_000_000_000 * 2_000_000_000_000_000_000_000 * 10) by (nonlinear_arith)
            requires
                -431_000_000_000 <= f <= 431_000_000_000,
                -2_000_000_000_000_000_000_000 <= s <= 2_000_000_000_000_000_000_000,
        ;
    }
    let raw = ratio_floor_exec((9000 - avg_delay) * savings * 10, 9 * c);
    if raw > MAX_RELIABILITY {
        MAX_RELIABILITY
    } else {
        raw
    }
}

/// The row of the group of record `first`, when the group is large enough.
fn contractor_row(records: &Vec<ProjectRecord>, first: usize) -> (r: Option<ContractorRanking>)
    requires
        records@.len() <= MAX_RECORDS,
        all_wf(records@),
        first < records@.len(),
    ensures
        match r {
            Some(t) => ranking_of(t, records@) && contractor_key(t) == key_of(
                GroupBy::Contractor,
                records@[first as int],
            ) && t.rank == 0,
            None => group_of(
                records@,
                GroupBy::Contractor,
                key_of(GroupBy::Contractor, records@[first as int]),
            ).len() < MIN_PROJECTS,
        },
{
    let (totals, _savings) = group_totals(records, GroupBy::Contractor, first);
    if totals.count < MIN_PROJECTS {
        return None;
    }
    proof {
        let c = totals.count as int;
        let dc = totals.delay_count as int;
        assert(c * MAX_AMOUNT_CENTS <= 1_000_000 * MAX_AMOUNT_CENTS) by (nonlinear_arith)
            requires
                0 <= c <= 1_000_000,
        ;
        assert(c * MAX_SAVINGS_CENTS <= 1_000_000 * MAX_SAVINGS_CENTS) by (nonlinear_arith)
            requires
                0 <= c <= 1_000_000,
        ;
        assert(dc * MAX_DELAY_DAYS <= 1_000_000 * MAX_DELAY_DAYS) by (nonlinear_arith)
            requires
                0 <= dc <= 1_000_000,
        ;
        if dc > 0 {
            let x = totals.delay_sum as int * 100;
            assert(-(dc * (MAX_DELAY_DAYS * 100)) <= x <= dc * (MAX_DELAY_DAYS * 100))
                by (nonlinear_arith)
                requires
                    -(dc * MAX_DELAY_DAYS) <= totals.delay_sum <= dc * MAX_DELAY_DAYS,
                    x == totals.delay_sum * 100,
            ;
            lemma_div_bound(x, dc, MAX_DELAY_DAYS * 100);
        }
    }
    let avg_delay = hundredths(totals.delay_sum, totals.delay_count);
    let reliability = reliability_index(avg_delay, totals.savings, totals.cost);
    let risk_flag = if reliability < HIGH_RISK_BELOW {
        RiskFlag::HighRisk
    } else {
        RiskFlag::LowRisk
    };
    Some(
        ContractorRanking {
            rank: 0,
            contractor: records[first].contractor.clone(),
            total_cost: totals.cost,
            project_count: totals.count,
            avg_delay,
            total_savings: totals.savings,
            reliability_index: reliability,
            risk_flag,
        },
    )
}

/// Some row is that of the contractor key `key`.
pub open spec fn has_ranking_for(rows: Seq<ContractorRanking>, key: GroupKey) -> bool {
    exists|j: int| 0 <= j < rows.len() && contractor_key(rows[j]) == key
}

/// One row per contractor with at least `MIN_PROJECTS` records, ordered by
/// total contract cost, highest first, ranked 1, 2, ... in that order;
/// contractors with equal costs keep the order of their first record.
pub fn contractor_ranking(records: &Vec<ProjectRecord>) -> (r: Vec<ContractorRanking>)
    requires
        records@.len() <= MAX_RECORDS,
        all_wf(records@),
    ensures
        forall|j: int|
            0 <= j < r@.len() ==> ranking_of(#[trigger] r@[j], records@) && r@[j].rank == j + 1,
        forall|a: int, b: int|
            0 <= a < r@.len() && 0 <= b < r@.len() && a != b ==> contractor_key(r@[a])
                != contractor_key(r@[b]),
        forall|k: int|
            0 <= k < records@.len() && group_of(
                records@,
                GroupBy::Contractor,
                key_of(GroupBy::Contractor, records@[k]),
            ).len() >= MIN_PROJECTS ==> #[trigger] has_ranking_for(
                r@,
                key_of(GroupBy::Contractor, records@[k]),
            ),
        forall|a: int, b: int| 0 <= a < b < r@.len() ==> r@[a].total_cost >= r@[b].total_cost,
        forall|a: int, b: int|
            0 <= a < b < r@.len() && r@[a].total_cost == r@[b].total_cost ==> first_index(
                records@,
                GroupBy::Contractor,
                contractor_key(r@[a]),
            ) < first_index(records@, GroupBy::Contractor, contractor_key(r@[b])),
{
    let firsts = first_positions(records, GroupBy::Contractor);
    let mut rows: Vec<ContractorRanking> = Vec::new();
    let mut keys: Vec<(i128, i128)> = Vec::new();
    let ghost mut src: Seq<int> = Seq::empty();
    let mut i: usize = 0;
    while i < firsts.len()
        invariant
            i <= firsts@.len(),
            records@.len() <= MAX_RECORDS,
            all_wf(records@),
            rows@.len() == keys@.len(),
            src.len() == rows@.len(),
            forall|j: int| 0 <= j < firsts@.len() ==> (#[trigger] firsts@[j]) < records@.len(),
            forall|a: int, b: int|
                0 <= a < firsts@.len() && 0 <= b < firsts@.len() && a != b ==> key_of(
                    GroupBy::Contractor,
                    records@[firsts@[a] as int],
                ) != key_of(GroupBy::Contractor, records@[firsts@[b] as int]),
            forall|a: int, b: int| 0 <= a < b < src.len() ==> src[a] < src[b],
            forall|j: int|
                0 <= j < rows@.len() ==> 0 <= src[j] < i && src[j] < firsts@.len() && ranking_of(
                    #[trigger] rows@[j],
                    records@,
                )
                    && key_of(GroupBy::Contractor, records@[firsts@[src[j]] as int])
                    == contractor_key(rows@[j]) && keys@[j] == (rows@[j].total_cost, 0i128),
            forall|m: int|
                0 <= m < i && group_of(
                    records@,
                    GroupBy::Contractor,
                    key_of(GroupBy::Contractor, records@[firsts@[m] as int]),
                ).len() >= MIN_PROJECTS ==> #[trigger] has_ranking_for(
                    rows@,
                    key_of(GroupBy::Contractor, records@[firsts@[m] as int]),
                ),
        decreases firsts@.len() - i,
    {
        match contractor_row(records, firsts[i]) {
            Some(t) => {
                let ghost before = rows@;
                keys.push((t.total_cost, 0));
                rows.push(t);
                proof {
                    let ghost old_src = src;
                    src = src.push(i as int);
                    assert forall|a: int, b: int| 0 <= a < b < src.len() implies src[a] < src[b] by {
                        if b == src.len() - 1 {
                            assert(ranking_of(before[a], records@));
                            assert(src[a] == old_src[a]);
                        } else {
                            assert(src[a] == old_src[a]);
                            assert(src[b] == old_src[b]);
                        }
                    }
                    assert forall|m: int|
                        0 <= m < i + 1 && group_of(
                            records@,
                            GroupBy::Contractor,
                            key_of(GroupBy::Contractor, records@[firsts@[m] as int]),
                        ).len() >= MIN_PROJECTS implies #[trigger] has_ranking_for(
                        rows@,
                        key_of(GroupBy::Contractor, records@[firsts@[m] as int]),
                    ) by {
                        if m == i {
                            assert(rows@[before.len() as int] == t);
                        } else {
                            assert(has_ranking_for(
                                before,
                                key_of(GroupBy::Contractor, records@[firsts@[m] as int]),
                            ));
                            let j = choose|j: int|
                                0 <= j < before.len() && contractor_key(before[j]) == key_of(
                                    GroupBy::Contractor,
                                    records@[firsts@[m] as int],
                                );
                            assert(rows@[j] == before[j]);
                        }
                    }
                }
            },
            None => {},
        }
        i = i + 1;
    }
    let order = sort_order(&keys);
    let mut out: Vec<ContractorRanking> = Vec::new();
    let mut j: usize = 0;
    while j < order.len()
        invariant
            j <= order@.len(),
            rows@.len() == keys@.len(),
            is_permutation(order@, keys@.len() as int),
            out@.len() == j,
            forall|t: int|
                0 <= t < j ==> #[trigger] out@[t] == (ContractorRanking {
                    rank: (t + 1) as usize,
                    ..rows@[order@[t] as int]
                }),
        decreases order@.len() - j,
    {
        let mut t = rows[order[j]].duplicate();
        t.rank = j + 1;
        out.push(t);
        j = j + 1;
    }
    proof {
        assert forall|k: int|
            0 <= k < records@.len() && group_of(
                records@,
                GroupBy::Contractor,
                key_of(GroupBy::Contractor, records@[k]),
            ).len() >= MIN_PROJECTS implies #[trigger] has_ranking_for(
            out@,
            key_of(GroupBy::Contractor, records@[k]),
        ) by {
            assert(listed_at(
                records@,
                GroupBy::Contractor,
                firsts@,
                key_of(GroupBy::Contractor, records@[k]),
            ));
            let m = choose|m: int|
                0 <= m < firsts@.len() && key_of(GroupBy::Contractor, records@[firsts@[m] as int])
                    == key_of(GroupBy::Contractor, records@[k]);
            assert(has_ranking_for(
                rows@,
                key_of(GroupBy::Contractor, records@[firsts@[m] as int]),
            ));
            let x = choose|x: int|
                0 <= x < rows@.len() && contractor_key(rows@[x]) == key_of(
                    GroupBy::Contractor,
                    records@[firsts@[m] as int],
                );
            assert(lists(order@, x));
            let j = choose|j: int| 0 <= j < order@.len() && order@[j] == x;
            assert(out@[j].contractor == rows@[x].contractor);
        }
        assert forall|j: int| 0 <= j < out@.len() implies ranking_of(#[trigger] out@[j], records@)
            && out@[j].rank == j + 1 by {
            assert(ranking_of(rows@[order@[j] as int], records@));
        }
        assert forall|a: int, b: int| 0 <= a < b < out@.len() implies out@[a].total_cost
            >= out@[b].total_cost by {
            assert(key_ge(keys@[order@[a] as int], keys@[order@[b] as int]));
            assert(ranking_of(rows@[order@[a] as int], records@));
            assert(ranking_of(rows@[order@[b] as int], records@));
        }
        assert forall|a: int, b: int|
            0 <= a < b < out@.len() && out@[a].total_cost == out@[b].total_cost implies first_index(
            records@,
            GroupBy::Contractor,
            contractor_key(out@[a]),
        ) < first_index(records@, GroupBy::Contractor, contractor_key(out@[b])) by {
            let x = order@[a] as int;
            let y = order@[b] as int;
            assert(ranking_of(rows@[x], records@));
            assert(ranking_of(rows@[y], records@));
            assert(keys@[x] == keys@[y]);
            assert(x < y);
            assert(src[x] < src[y]);
            assert(firsts@[src[x]] < firsts@[src[y]]);
        }
        assert forall|a: int, b: int|
            0 <= a < out@.len() && 0 <= b < out@.len() && a != b implies contractor_key(out@[a])
            != contractor_key(out@[b]) by {
            let x = order@[a] as int;
            let y = order@[b] as int;
            assert(ranking_of(rows@[x], records@));
            assert(ranking_of(rows@[y], records@));
            if src[x] < src[y] || src[y] < src[x] {
            } else {
                if x < y {
                } else if y < x {
                }
            }
        }
    }
    out
}

/// The rows that are exported: the first `TOP_RANKED`.
pub fn top_ranked(rows: &Vec<ContractorRanking>) -> (r: Vec<ContractorRanking>)
    ensures
        r@ == rows@.take(if rows@.len() < TOP_RANKED {
            rows@.len() as int
        } else {
            TOP_RANKED as int
        }),
{
    let n = if rows.len() < TOP_RANKED {
        rows.len()
    } else {
        TOP_RANKED
    };
    let mut out: Vec<ContractorRanking> = Vec::new();
    let mut i: usize = 0;
    while i < n
        invariant
            n <= rows@.len(),
            i <= n,
            out@ == rows@.take(i as int),
        decreases n - i,
    {
        out.push(rows[i].duplicate());
        i = i + 1;
        assert(out@ =~= rows@.take(i as int));
    }
    out
}

} // verus!
