//! Grouping of records by a key, in order of first appearance.
use vstd::prelude::*;
use crate::record::ProjectRecord;
use crate::stats::{all_wf, ints, select, GroupTotals, MAX_RECORDS, MAX_SAVINGS_CENTS};

verus! {

/// The ways records are grouped: one for each report, and regions alone
/// for the digest.
#[derive(Clone, Copy, Debug, PartialEq, Eq, Structural)]
pub enum GroupBy {
    /// By (region, main island).
    Area,
    /// By contractor.
    Contractor,
    /// By (funding year, type of work).
    YearAndWork,
    /// By region alone.
    Region,
}

/// A group key: up to two texts and a number.
pub type GroupKey = (Seq<char>, Seq<char>, int);

pub open spec fn key_of(by: GroupBy, p: ProjectRecord) -> GroupKey {
    match by {
        GroupBy::Area => (p.region@, p.main_island@, 0),
        GroupBy::Contractor => (p.contractor@, Seq::empty(), 0),
        GroupBy::YearAndWork => (p.type_of_work@, Seq::empty(), p.funding_year as int),
        GroupBy::Region => (p.region@, Seq::empty(), 0),
    }
}

/// The records with the key `key`, in order.
pub open spec fn group_of(records: Seq<ProjectRecord>, by: GroupBy, key: GroupKey) -> Seq<
    ProjectRecord,
> {
    select(records, |p: ProjectRecord| key_of(by, p) == key)
}

pub open spec fn savings_seq(g: Seq<ProjectRecord>) -> Seq<int> {
    g.map_values(|p: ProjectRecord| p.cost_savings as int)
}

pub fn same_group(by: GroupBy, p: &ProjectRecord, q: &ProjectRecord) -> (r: bool)
    ensures
        r == (key_of(by, *p) == key_of(by, *q)),
{
    match by {
        GroupBy::Area => p.region == q.region && p.main_island == q.main_island,
        GroupBy::Contractor => p.contractor == q.contractor,
        GroupBy::YearAndWork => p.funding_year == q.funding_year && p.type_of_work
            == q.type_of_work,
        GroupBy::Region => p.region == q.region,
    }
}

/// A record that is in its group makes the group non-empty.
pub proof fn lemma_select_contains(
    records: Seq<ProjectRecord>,
    pred: spec_fn(ProjectRecord) -> bool,
    k: int,
)
    requires
        0 <= k < records.len(),
        pred(records[k]),
    ensures
        select(records, pred).len() > 0,
    decreases records.len(),
{
    if k < records.len() - 1 {
        lemma_select_contains(records.drop_last(), pred, k);
    }
}

/// The position of the first record with the key `key` (the length when
/// there is none).
pub open spec fn first_index(records: Seq<ProjectRecord>, by: GroupBy, key: GroupKey) -> int
    decreases records.len(),
{
    if records.len() == 0 {
        0
    } else {
        let p = first_index(records.drop_last(), by, key);
        if p < records.len() - 1 {
            p
        } else if key_of(by, records.last()) == key {
            records.len() - 1
        } else {
            records.len() as int
        }
    }
}

/// The first record of a group is found where no earlier record has its key.
pub proof fn lemma_first_index(records: Seq<ProjectRecord>, by: GroupBy, i: int)
    requires
        0 <= i < records.len(),
        forall|j: int| 0 <= j < i ==> key_of(by, #[trigger] records[j]) != key_of(by, records[i]),
    ensures
        first_index(records, by, key_of(by, records[i])) == i,
    decreases records.len(),
{
    let key = key_of(by, records[i]);
    lemma_first_index_bound(records.drop_last(), by, key);
    if i < records.len() - 1 {
        assert forall|j: int| 0 <= j < i implies key_of(by, #[trigger] records.drop_last()[j])
            != key_of(by, records.drop_last()[i]) by {
            assert(records.drop_last()[j] == records[j]);
        }
        lemma_first_index(records.drop_last(), by, i);
    } else {
        assert forall|j: int| 0 <= j < records.len() - 1 implies key_of(
            by,
            #[trigger] records.drop_last()[j],
        ) != key by {
            assert(records.drop_last()[j] == records[j]);
        }
        lemma_first_index_absent(records.drop_last(), by, key);
    }
}

proof fn lemma_first_index_bound(records: Seq<ProjectRecord>, by: GroupBy, key: GroupKey)
    ensures
        0 <= first_index(records, by, key) <= records.len(),
    decreases records.len(),
{
    if records.len() > 0 {
        lemma_first_index_bound(records.drop_last(), by, key);
    }
}

proof fn lemma_first_index_absent(records: Seq<ProjectRecord>, by: GroupBy, key: GroupKey)
    requires
        forall|j: int| 0 <= j < records.len() ==> key_of(by, #[trigger] records[j]) != key,
    ensures
        first_index(records, by, key) == records.len(),
    decreases records.len(),
{
    if records.len() > 0 {
        assert forall|j: int| 0 <= j < records.len() - 1 implies key_of(
            by,
            #[trigger] records.drop_last()[j],
        ) != key by {
            assert(records.drop_last()[j] == records[j]);
        }
        lemma_first_index_absent(records.drop_last(), by, key);
    }
}

/// Some listed record has the key `key`.
pub open spec fn listed_at(
    records: Seq<ProjectRecord>,
    by: GroupBy,
    firsts: Seq<usize>,
    key: GroupKey,
) -> bool {
    exists|t: int| 0 <= t < firsts.len() && key_of(by, records[firsts[t] as int]) == key
}

/// Whether the key of record `i` is the key of a listed record.
fn listed(records: &Vec<ProjectRecord>, by: GroupBy, firsts: &Vec<usize>, i: usize) -> (found: bool)
    requires
        i < records@.len(),
        forall|t: int| 0 <= t < firsts@.len() ==> (#[trigger] firsts@[t]) < records@.len(),
    ensures
        found == listed_at(records@, by, firsts@, key_of(by, records@[i as int])),
{
    let p = &records[i];
    let mut j: usize = 0;
    while j < firsts.len()
        invariant
            j <= firsts@.len(),
            i < records@.len(),
            p == records@[i as int],
            forall|t: int| 0 <= t < firsts@.len() ==> (#[trigger] firsts@[t]) < records@.len(),
            forall|t: int|
                0 <= t < j ==> key_of(by, records@[(#[trigger] firsts@[t]) as int]) != key_of(by, 
                    *p,
                ),
        decreases firsts@.len() - j,
    {
        let q = &records[firsts[j]];
        if same_group(by, q, p) {
            assert(key_of(by, records@[firsts@[j as int] as int]) == key_of(by, *p));
            return true;
        }
        j = j + 1;
    }
    false
}

/// The positions of the first record of each group, in order.
pub fn first_positions(records: &Vec<ProjectRecord>, by: GroupBy) -> (firsts: Vec<usize>)
    ensures
        forall|a: int, b: int| 0 <= a < b < firsts@.len() ==> firsts@[a] < firsts@[b],
        forall|j: int|
            0 <= j < firsts@.len() ==> first_index(records@, by, key_of(by, records@[firsts@[j] as int]))
                == firsts@[j],
        forall|j: int| 0 <= j < firsts@.len() ==> (#[trigger] firsts@[j]) < records@.len(),
        forall|a: int, b: int|
            0 <= a < firsts@.len() && 0 <= b < firsts@.len() && a != b ==> key_of(by, 
                records@[firsts@[a] as int],
            ) != key_of(by, records@[firsts@[b] as int]),
        forall|k: int|
            0 <= k < records@.len() ==> #[trigger] listed_at(
                records@,
                by,
                firsts@,
                key_of(by, records@[k]),
            ),
{
    let mut firsts: Vec<usize> = Vec::new();
    let mut i: usize = 0;
    while i < records.len()
        invariant
            i <= records@.len(),
            forall|j: int| 0 <= j < firsts@.len() ==> (#[trigger] firsts@[j]) < i,
            forall|a: int, b: int| 0 <= a < b < firsts@.len() ==> firsts@[a] < firsts@[b],
            forall|j: int|
                0 <= j < firsts@.len() ==> first_index(
                    records@,
                    by,
                    key_of(by, records@[firsts@[j] as int]),
                ) == firsts@[j],
            forall|a: int, b: int|
                0 <= a < firsts@.len() && 0 <= b < firsts@.len() && a != b ==> key_of(by, 
                    records@[firsts@[a] as int],
                ) != key_of(by, records@[firsts@[b] as int]),
            forall|k: int|
                0 <= k < i ==> #[trigger] listed_at(records@, by, firsts@, key_of(by, records@[k])),
        decreases records@.len() - i,
    {
        let found = listed(records, by, &firsts, i);
        let ghost before = firsts@;
        if !found {
            proof {
                assert forall|j: int| 0 <= j < i implies key_of(by, #[trigger] records@[j])
                    != key_of(by, records@[i as int]) by {
                    if key_of(by, records@[j]) == key_of(by, records@[i as int]) {
                        assert(listed_at(records@, by, before, key_of(by, records@[j])));
                    }
                }
                lemma_first_index(records@, by, i as int);
            }
            firsts.push(i);
        }
        proof {
            assert forall|k: int| 0 <= k < i + 1 implies #[trigger] listed_at(
                records@,
                by,
                firsts@,
                key_of(by, records@[k]),
            ) by {
                if k == i && !found {
                    assert(firsts@[before.len() as int] == i);
                } else if k == i {
                } else {
                    assert(listed_at(records@, by, before, key_of(by, records@[k])));
                    let t = choose|t: int|
                        0 <= t < before.len() && key_of(by, records@[before[t] as int]) == key_of(by, 
                            records@[k],
                        );
                    assert(firsts@[t] == before[t]);
                }
            }
        }
        i = i + 1;
    }
    firsts
}

/// Totals and savings of the group of record `first`.
pub fn group_totals(records: &Vec<ProjectRecord>, by: GroupBy, first: usize) -> (r: (
    GroupTotals,
    Vec<i64>,
))
    requires
        records@.len() <= MAX_RECORDS,
        all_wf(records@),
        first < records@.len(),
    ensures
        r.0.describes(group_of(records@, by, key_of(by, records@[first as int]))),
        r.0.bounded(),
        ints(r.1@) == savings_seq(group_of(records@, by, key_of(by, records@[first as int]))),
        forall|i: int|
            0 <= i < r.1@.len() ==> -MAX_SAVINGS_CENTS <= #[trigger] r.1@[i] <= MAX_SAVINGS_CENTS,
{
    let ghost key = key_of(by, records@[first as int]);
    let ghost pred = |p: ProjectRecord| key_of(by, p) == key;
    let r0 = &records[first];
    let mut totals = GroupTotals::new();
    let mut savings: Vec<i64> = Vec::new();
    let mut i: usize = 0;
    while i < records.len()
        invariant
            i <= records@.len(),
            records@.len() <= MAX_RECORDS,
            all_wf(records@),
            first < records@.len(),
            r0 == records@[first as int],
            key == key_of(by, records@[first as int]),
            pred == (|p: ProjectRecord| key_of(by, p) == key),
            totals.describes(select(records@.take(i as int), pred)),
            totals.bounded(),
            totals.count <= i,
            ints(savings@) == savings_seq(select(records@.take(i as int), pred)),
            forall|k: int|
                0 <= k < savings@.len() ==> -MAX_SAVINGS_CENTS <= #[trigger] savings@[k]
                    <= MAX_SAVINGS_CENTS,
        decreases records@.len() - i,
    {
        let p = &records[i];
        let ghost g = select(records@.take(i as int), pred);
        assert(records@.take(i + 1).drop_last() =~= records@.take(i as int));
        assert(records@[i as int].wf());
        if same_group(by, p, r0) {
            let ghost old_savings = savings@;
            totals.add(p, Ghost(g));
            savings.push(p.cost_savings);
            assert(savings_seq(g.push(*p)) =~= savings_seq(g).push(p.cost_savings as int));
            assert(ints(savings@) =~= ints(old_savings).push(p.cost_savings as int));
        }
        i = i + 1;
    }
    assert(records@.take(records@.len() as int) =~= records@);
    (totals, savings)
}

} // verus!
