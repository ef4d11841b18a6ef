//! The sums, counts, ratios and the median that the reports are built from.
use vstd::prelude::*;
use vstd::relations::sorted_by;
use vstd::seq_lib::{lemma_sorted_unique, group_to_multiset_ensures, to_multiset_build, to_multiset_insert};
use vstd::arithmetic::div_mod::lemma_fundamental_div_mod;
use crate::record::{ProjectRecord, MAX_DELAY_DAYS};
use crate::text::MAX_AMOUNT_CENTS;

verus! {

/// The most records one analysis takes; this bounds every sum and product
/// of the engine well inside 128-bit integers.
pub const MAX_RECORDS: usize = 1_000_000;

/// The largest magnitude of one record's savings.
pub const MAX_SAVINGS_CENTS: i64 = 2_000_000_000_000_000;

/// A delay above this many days counts as a high delay.
pub const HIGH_DELAY_DAYS: i64 = 30;

/// The records that satisfy `pred`, in their order.
pub open spec fn select(
    records: Seq<ProjectRecord>,
    pred: spec_fn(ProjectRecord) -> bool,
) -> Seq<ProjectRecord>
    decreases records.len(),
{
    if records.len() == 0 {
        Seq::empty()
    } else {
        let prev = select(records.drop_last(), pred);
        if pred(records.last()) {
            prev.push(records.last())
        } else {
            prev
        }
    }
}

pub open spec fn budget_total(g: Seq<ProjectRecord>) -> int
    decreases g.len(),
{
    if g.len() == 0 {
        0
    } else {
        budget_total(g.drop_last()) + g.last().approved_budget
    }
}

pub open spec fn cost_total(g: Seq<ProjectRecord>) -> int
    decreases g.len(),
{
    if g.len() == 0 {
        0
    } else {
        cost_total(g.drop_last()) + g.last().contract_cost
    }
}

pub open spec fn savings_total(g: Seq<ProjectRecord>) -> int
    decreases g.len(),
{
    if g.len() == 0 {
        0
    } else {
        savings_total(g.drop_last()) + g.last().cost_savings
    }
}

/// The sum of the known delays.
pub open spec fn delay_total(g: Seq<ProjectRecord>) -> int
    decreases g.len(),
{
    if g.len() == 0 {
        0
    } else {
        delay_total(g.drop_last()) + match g.last().completion_delay_days {
            Some(d) => d as int,
            None => 0,
        }
    }
}

/// How many records have a known delay.
pub open spec fn delay_count(g: Seq<ProjectRecord>) -> int
    decreases g.len(),
{
    if g.len() == 0 {
        0
    } else {
        delay_count(g.drop_last()) + if g.last().completion_delay_days is Some {
            1int
        } else {
            0int
        }
    }
}

/// How many records have a known delay above `HIGH_DELAY_DAYS`.
pub open spec fn high_delay_count(g: Seq<ProjectRecord>) -> int
    decreases g.len(),
{
    if g.len() == 0 {
        0
    } else {
        high_delay_count(g.drop_last()) + match g.last().completion_delay_days {
            Some(d) => if d > HIGH_DELAY_DAYS {
                1int
            } else {
                0int
            },
            None => 0int,
        }
    }
}

/// How many records cost more than their approved budget.
pub open spec fn overrun_count(g: Seq<ProjectRecord>) -> int
    decreases g.len(),
{
    if g.len() == 0 {
        0
    } else {
        overrun_count(g.drop_last()) + if g.last().contract_cost > g.last().approved_budget {
            1int
        } else {
            0int
        }
    }
}

pub open spec fn all_wf(g: Seq<ProjectRecord>) -> bool {
    forall|i: int| 0 <= i < g.len() ==> (#[trigger] g[i]).wf()
}

/// Running sums and counts over a group of records.
pub struct GroupTotals {
    pub count: u64,
    pub budget: i128,
    pub cost: i128,
    pub savings: i128,
    pub delay_sum: i128,
    pub delay_count: u64,
    pub high_delay: u64,
    pub overrun: u64,
}

impl GroupTotals {
    pub open spec fn describes(&self, g: Seq<ProjectRecord>) -> bool {
        &&& self.count == g.len()
        &&& self.budget == budget_total(g)
        &&& self.cost == cost_total(g)
        &&& self.savings == savings_total(g)
        &&& self.delay_sum == delay_total(g)
        &&& self.delay_count == delay_count(g)
        &&& self.high_delay == high_delay_count(g)
        &&& self.overrun == overrun_count(g)
    }

    pub open spec fn bounded(&self) -> bool {
        &&& self.count <= MAX_RECORDS
        &&& -self.count * MAX_AMOUNT_CENTS <= self.budget <= self.count * MAX_AMOUNT_CENTS
        &&& -self.count * MAX_AMOUNT_CENTS <= self.cost <= self.count * MAX_AMOUNT_CENTS
        &&& -self.count * MAX_SAVINGS_CENTS <= self.savings <= self.count * MAX_SAVINGS_CENTS
        &&& -self.delay_count * MAX_DELAY_DAYS <= self.delay_sum <= self.delay_count
            * MAX_DELAY_DAYS
        &&& self.delay_count <= self.count
        &&& self.high_delay <= self.delay_count
        &&& self.overrun <= self.count
    }

    pub fn new() -> (r: Self)
        ensures
            r.describes(Seq::empty()),
            r.bounded(),
    {
        GroupTotals {
            count: 0,
            budget: 0,
            cost: 0,
            savings: 0,
            delay_sum: 0,
            delay_count: 0,
            high_delay: 0,
            overrun: 0,
        }
    }

    pub fn add(&mut self, p: &ProjectRecord, Ghost(g): Ghost<Seq<ProjectRecord>>)
        requires
            old(self).describes(g),
            old(self).bounded(),
            old(self).count < MAX_RECORDS,
            p.wf(),
        ensures
            final(self).describes(g.push(*p)),
            final(self).bounded(),
    {
        assert(g.push(*p).drop_last() =~= g);
        proof {
            let c = self.count as int;
            assert((c + 1) * MAX_AMOUNT_CENTS == c * MAX_AMOUNT_CENTS + MAX_AMOUNT_CENTS);
            assert((c + 1) * MAX_SAVINGS_CENTS == c * MAX_SAVINGS_CENTS + MAX_SAVINGS_CENTS);
            let dc = self.delay_count as int;
            assert((dc + 1) * MAX_DELAY_DAYS == dc * MAX_DELAY_DAYS + MAX_DELAY_DAYS);
        }
        self.count = self.count + 1;
        self.budget = self.budget + p.approved_budget as i128;
        self.cost = self.cost + p.contract_cost as i128;
        self.savings = self.savings + p.cost_savings as i128;
        match p.completion_delay_days {
            Some(d) => {
                self.delay_sum = self.delay_sum + d as i128;
                self.delay_count = self.delay_count + 1;
                if d > HIGH_DELAY_DAYS {
                    self.high_delay = self.high_delay + 1;
                }
            },
            None => {},
        }
        if p.contract_cost > p.approved_budget {
            self.overrun = self.overrun + 1;
        }
    }
}

/// `n / d` rounded toward negative infinity, for a positive `d`.
pub fn div_floor(n: i128, d: i128) -> (q: i128)
    requires
        d > 0,
    ensures
        q == n / d,
{
    proof {
        let q = n as int / d as int;
        let r = n as int % d as int;
        lemma_fundamental_div_mod(n as int, d as int);
        assert(n as int == d * q + r);
        assert(0 <= r < d);
        if q > 0 {
            assert(d * q >= q) by (nonlinear_arith)
                requires
                    d >= 1,
                    q > 0,
            ;
        } else if q < 0 {
            assert(d * (q + 1) <= q + 1) by (nonlinear_arith)
                requires
                    d >= 1,
                    q + 1 <= 0,
            ;
            assert(d * (q + 1) == d * q + d) by (nonlinear_arith);
        }
        assert(i128::MIN <= q <= i128::MAX);
    }
    match n.checked_div_euclid(d) {
        Some(q) => q,
        None => 0,
    }
}

/// A quotient is bounded as its dividend is.
pub proof fn lemma_div_bound(x: int, d: int, b: int)
    requires
        d > 0,
        b >= 0,
        -(d * b) <= x <= d * b,
    ensures
        -b <= x / d <= b,
{
    lemma_fundamental_div_mod(x, d);
    let q = x / d;
    let r = x % d;
    assert(0 <= r < d);
    if q > b {
        assert(d * q >= d * (b + 1)) by (nonlinear_arith)
            requires
                d > 0,
                q >= b + 1,
        ;
        assert(d * (b + 1) == d * b + d) by (nonlinear_arith);
    }
    if q < -b {
        assert(d * q <= d * (-b - 1)) by (nonlinear_arith)
            requires
                d > 0,
                q <= -b - 1,
        ;
        assert(d * (-b - 1) == -(d * b) - d) by (nonlinear_arith);
    }
}

/// `n / d` rounded toward negative infinity, for a `d` of either sign.
pub open spec fn ratio_floor(n: int, d: int) -> int {
    if d > 0 {
        n / d
    } else {
        (-n) / (-d)
    }
}

/// `n / d` rounded down, for a nonzero `d` of either sign.
pub fn ratio_floor_exec(n: i128, d: i128) -> (q: i128)
    requires
        d != 0,
        n > i128::MIN,
        d > i128::MIN,
    ensures
        q == ratio_floor(n as int, d as int),
{
    if d > 0 {
        div_floor(n, d)
    } else {
        div_floor(-n, -d)
    }
}

pub open spec fn clamp(x: int, lo: int, hi: int) -> int {
    if x < lo {
        lo
    } else if x > hi {
        hi
    } else {
        x
    }
}

/// `n / d` in hundredths (`n * 100 / d`, rounded down), 0 when `d` is 0.
pub open spec fn hundredths_of(n: int, d: int) -> int {
    if d == 0 {
        0
    } else {
        (n * 100) / d
    }
}

pub fn hundredths(n: i128, d: u64) -> (r: i128)
    requires
        -0x1_0000_0000_0000_0000_0000_0000 <= n <= 0x1_0000_0000_0000_0000_0000_0000,
    ensures
        r == hundredths_of(n as int, d as int),
{
    if d == 0 {
        0
    } else {
        div_floor(n * 100, d as i128)
    }
}

/// The values as integers.
pub open spec fn ints(xs: Seq<i64>) -> Seq<int> {
    xs.map_values(|x: i64| x as int)
}

/// Twice the median of an ascending sequence: the sum of the two middle
/// values for an even count, twice the middle value for an odd count, and
/// 0 for an empty sequence.
pub open spec fn median_twice(s: Seq<int>) -> int {
    if s.len() == 0 {
        0
    } else if s.len() % 2 == 0 {
        s[s.len() / 2 - 1] + s[(s.len() / 2) as int]
    } else {
        2 * s[(s.len() / 2) as int]
    }
}

/// The values in ascending order.
pub fn sorted_values(xs: &Vec<i64>) -> (r: Vec<i64>)
    ensures
        ints(r@) == ints(xs@).sort(),
{
    broadcast use group_to_multiset_ensures;

    let mut out: Vec<i64> = Vec::new();
    let mut i: usize = 0;
    while i < xs.len()
        invariant
            i <= xs@.len(),
            ints(out@).to_multiset() == ints(xs@.take(i as int)).to_multiset(),
            forall|a: int, b: int| 0 <= a < b < out@.len() ==> out@[a] <= out@[b],
        decreases xs@.len() - i,
    {
        let x = xs[i];
        let mut pos: usize = 0;
        while pos < out.len() && out[pos] <= x
            invariant
                pos <= out@.len(),
                forall|a: int| 0 <= a < pos ==> out@[a] <= x,
            decreases out@.len() - pos,
        {
            pos = pos + 1;
        }
        let ghost before = out@;
        out.insert(pos, x);
        proof {
            assert(ints(out@) =~= ints(before).insert(pos as int, x as int));
            to_multiset_insert(ints(before), pos as int, x as int);
            assert(ints(xs@.take(i + 1)) =~= ints(xs@.take(i as int)).push(x as int));
            to_multiset_build(ints(xs@.take(i as int)), x as int);
            assert forall|a: int, b: int| 0 <= a < b < out@.len() implies out@[a] <= out@[b] by {
                if pos < before.len() {
                    assert(before[pos as int] > x);
                }
                if a < pos && b > pos {
                    assert(out@[a] == before[a]);
                    assert(out@[b] == before[b - 1]);
                } else if a > pos {
                    assert(out@[a] == before[a - 1]);
                    assert(out@[b] == before[b - 1]);
                } else if b < pos {
                    assert(out@[a] == before[a]);
                    assert(out@[b] == before[b]);
                } else if a == pos {
                    assert(out@[b] == before[b - 1]);
                } else {
                    assert(out@[a] == before[a]);
                }
            }
        }
        i = i + 1;
    }
    proof {
        assert(xs@.take(xs@.len() as int) =~= xs@);
        let leq = |x: int, y: int| x <= y;
        ints(xs@).lemma_sort_ensures();
        assert(sorted_by(ints(out@), leq));
        lemma_sorted_unique(ints(out@), ints(xs@).sort(), leq);
    }
    out
}

/// Twice the median of the values.
pub fn median_twice_of(xs: &Vec<i64>) -> (r: i128)
    ensures
        r == median_twice(ints(xs@).sort()),
{
    let s = sorted_values(xs);
    let n = s.len();
    proof {
        assert(ints(s@).len() == n);
    }
    if n == 0 {
        0
    } else if n % 2 == 0 {
        assert(ints(s@)[n / 2 - 1] == s@[n / 2 - 1] as int);
        assert(ints(s@)[(n / 2) as int] == s@[(n / 2) as int] as int);
        s[n / 2 - 1] as i128 + s[n / 2] as i128
    } else {
        assert(ints(s@)[(n / 2) as int] == s@[(n / 2) as int] as int);
        2 * (s[n / 2] as i128)
    }
}

/// The median of the values, rounded down to a whole unit; 0 for none.
pub fn median(xs: &Vec<i64>) -> (r: i128)
    ensures
        r == median_twice(ints(xs@).sort()) / 2,
{
    div_floor(median_twice_of(xs), 2)
}

} // verus!
