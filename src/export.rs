//! The text form of the report rows: numbers in hundredths are written as
//! decimals with two fractional digits, and read back exactly.
use vstd::prelude::*;
use crate::annual::AnnualMetric;
use crate::contractor::ContractorRanking;
use crate::regional::RegionalTrend;
use crate::text::{
    decimal_hundredths, digit_value, is_digit, is_negative, scan_decimal, scan_step,
    unsigned_part, without_commas, DecimalScan,
};

verus! {

pub open spec fn digit_char(d: int) -> char {
    if d == 0 {
        '0'
    } else if d == 1 {
        '1'
    } else if d == 2 {
        '2'
    } else if d == 3 {
        '3'
    } else if d == 4 {
        '4'
    } else if d == 5 {
        '5'
    } else if d == 6 {
        '6'
    } else if d == 7 {
        '7'
    } else if d == 8 {
        '8'
    } else {
        '9'
    }
}

/// The decimal digits of `n`, without leading zeros.
pub open spec fn decimal_digits(n: nat) -> Seq<char>
    decreases n,
{
    if n < 10 {
        seq![digit_char(n as int)]
    } else {
        decimal_digits(n / 10).push(digit_char((n % 10) as int))
    }
}

/// The text of a number of hundredths: an optional `-`, the whole part,
/// a point and two digits.
pub open spec fn hundredths_text(v: int) -> Seq<char> {
    let m: nat = (if v < 0 {
        -v
    } else {
        v
    }) as nat;
    let body = decimal_digits(m / 100) + seq![
        '.',
        digit_char(((m % 100) / 10) as int),
        digit_char((m % 10) as int),
    ];
    if v < 0 {
        seq!['-'] + body
    } else {
        body
    }
}

proof fn lemma_digit_char(d: int)
    requires
        0 <= d <= 9,
    ensures
        is_digit(digit_char(d)),
        digit_value(digit_char(d)) == d,
        digit_char(d) != ',',
        digit_char(d) != '.',
        digit_char(d) != '-',
        digit_char(d) != '+',
{
}

proof fn lemma_digits_text(n: nat)
    ensures
        scan_decimal(decimal_digits(n)) == (DecimalScan {
            valid: true,
            seen_point: false,
            whole: n as int,
            cents: 0,
            frac_digits: 0,
            digits: decimal_digits(n).len(),
        }),
        decimal_digits(n).len() > 0,
        forall|i: int|
            0 <= i < decimal_digits(n).len() ==> is_digit(#[trigger] decimal_digits(n)[i])
                && decimal_digits(n)[i] != ',',
    decreases n,
{
    if n < 10 {
        lemma_digit_char(n as int);
        let s = decimal_digits(n);
        assert(s.drop_last() =~= Seq::<char>::empty());
        assert(s.last() == digit_char(n as int));
        assert(scan_decimal(s) == scan_step(scan_decimal(s.drop_last()), s.last()));
    } else {
        lemma_digits_text(n / 10);
        lemma_digit_char((n % 10) as int);
        let s = decimal_digits(n);
        assert(s.drop_last() =~= decimal_digits(n / 10));
        assert(s.last() == digit_char((n % 10) as int));
        assert(scan_decimal(s) == scan_step(scan_decimal(s.drop_last()), s.last()));
        assert(n == (n / 10) * 10 + n % 10);
        assert forall|i: int| 0 <= i < s.len() implies is_digit(#[trigger] s[i]) && s[i] != ',' by {
            if i < s.len() - 1 {
                assert(s[i] == decimal_digits(n / 10)[i]);
            }
        }
    }
}

proof fn lemma_no_commas(s: Seq<char>)
    requires
        forall|i: int| 0 <= i < s.len() ==> #[trigger] s[i] != ',',
    ensures
        without_commas(s) == s,
    decreases s.len(),
{
    if s.len() > 0 {
        lemma_no_commas(s.drop_last());
        assert(s.drop_last().push(s.last()) =~= s);
    }
}

/// Every number written as text reads back as the same number.
pub proof fn lemma_hundredths_round_trip(v: int)
    ensures
        decimal_hundredths(hundredths_text(v)) == Some(v),
{
    let m: nat = (if v < 0 {
        -v
    } else {
        v
    }) as nat;
    let q: nat = m / 100;
    let a = ((m % 100) / 10) as int;
    let b = (m % 10) as int;
    let d = decimal_digits(q);
    let body = d + seq!['.', digit_char(a), digit_char(b)];
    lemma_digits_text(q);
    lemma_digit_char(a);
    lemma_digit_char(b);
    assert(body.drop_last() =~= d + seq!['.', digit_char(a)]);
    assert((d + seq!['.', digit_char(a)]).drop_last() =~= d + seq!['.']);
    assert((d + seq!['.']).drop_last() =~= d);
    let s0 = scan_decimal(d);
    let s1 = scan_step(s0, '.');
    let s2 = scan_step(s1, digit_char(a));
    let s3 = scan_step(s2, digit_char(b));
    assert(scan_decimal(d + seq!['.']) == s1);
    assert(scan_decimal(d + seq!['.', digit_char(a)]) == s2);
    assert(scan_decimal(body) == s3);
    assert(s3.whole * 100 + s3.cents == m);
    let text = hundredths_text(v);
    assert forall|i: int| 0 <= i < body.len() implies #[trigger] body[i] != ',' by {
        if i < d.len() {
            assert(body[i] == d[i]);
        }
    }
    if v < 0 {
        assert(text == seq!['-'] + body);
        assert forall|i: int| 0 <= i < text.len() implies #[trigger] text[i] != ',' by {
            if i > 0 {
                assert(text[i] == body[i - 1]);
            }
        }
        lemma_no_commas(text);
        assert(unsigned_part(text) =~= body);
        assert(is_negative(text));
    } else {
        lemma_no_commas(body);
        assert(body[0] == d[0]);
        assert(unsigned_part(body) == body);
        assert(!is_negative(body));
    }
}

/// Relies on `String::push`: appends one character.
#[verifier::external_body]
fn push_char(s: &mut String, c: char)
    ensures
        final(s)@ == old(s)@.push(c),
{
    s.push(c)
}

fn digit_to_char(d: u128) -> (c: char)
    requires
        d <= 9,
    ensures
        c == digit_char(d as int),
{
    if d == 0 {
        '0'
    } else if d == 1 {
        '1'
    } else if d == 2 {
        '2'
    } else if d == 3 {
        '3'
    } else if d == 4 {
        '4'
    } else if d == 5 {
        '5'
    } else if d == 6 {
        '6'
    } else if d == 7 {
        '7'
    } else if d == 8 {
        '8'
    } else {
        '9'
    }
}

/// Writes a number of hundredths as decimal text.
pub fn format_hundredths(v: i128) -> (r: String)
    requires
        v > i128::MIN,
    ensures
        r@ == hundredths_text(v as int),
{
    let m: u128 = if v < 0 {
        (-v) as u128
    } else {
        v as u128
    };
    let q = m / 100;
    let mut n = q;
    let mut tail: Vec<char> = Vec::new();
    while n >= 10
        invariant
            decimal_digits(q as nat) == decimal_digits(n as nat) + tail@,
        decreases n,
    {
        let ghost before = tail@;
        tail.insert(0, digit_to_char(n % 10));
        assert(decimal_digits(n as nat) == decimal_digits((n / 10) as nat).push(
            digit_char((n % 10) as int),
        ));
        assert(decimal_digits(q as nat) =~= decimal_digits((n / 10) as nat) + tail@);
        n = n / 10;
    }
    tail.insert(0, digit_to_char(n));
    assert(decimal_digits(q as nat) =~= tail@);
    let mut out = String::new();
    if v < 0 {
        push_char(&mut out, '-');
    }
    let ghost start = out@;
    let mut i: usize = 0;
    while i < tail.len()
        invariant
            i <= tail@.len(),
            out@ == start + tail@.take(i as int),
        decreases tail@.len() - i,
    {
        push_char(&mut out, tail[i]);
        i = i + 1;
        assert(out@ =~= start + tail@.take(i as int));
    }
    assert(tail@.take(tail@.len() as int) =~= tail@);
    push_char(&mut out, '.');
    push_char(&mut out, digit_to_char((m % 100) / 10));
    push_char(&mut out, digit_to_char(m % 10));
    proof {
        let body = decimal_digits(q as nat) + seq![
            '.',
            digit_char(((m % 100) / 10) as int),
            digit_char((m % 10) as int),
        ];
        if v < 0 {
            assert(out@ =~= seq!['-'] + body);
        } else {
            assert(out@ =~= body);
        }
    }
    out
}

/// The fields of a regional row, in export order: region, island, total
/// budget, median savings, average delay, high-delay share, efficiency.
pub fn regional_fields(t: &RegionalTrend) -> (r: Vec<String>)
    requires
        t.total_budget > i128::MIN,
        t.median_savings > i128::MIN,
        t.avg_delay > i128::MIN,
        t.high_delay_pct > i128::MIN,
        t.efficiency_score > i128::MIN,
    ensures
        r@.len() == 7,
        r@[0]@ == t.region@,
        r@[1]@ == t.main_island@,
        r@[2]@ == hundredths_text(t.total_budget as int),
        r@[3]@ == hundredths_text(t.median_savings as int),
        r@[4]@ == hundredths_text(t.avg_delay as int),
        r@[5]@ == hundredths_text(t.high_delay_pct as int),
        r@[6]@ == hundredths_text(t.efficiency_score as int),
{
    vec![
        t.region.clone(),
        t.main_island.clone(),
        format_hundredths(t.total_budget),
        format_hundredths(t.median_savings),
        format_hundredths(t.avg_delay),
        format_hundredths(t.high_delay_pct),
        format_hundredths(t.efficiency_score),
    ]
}

/// Writes a count as decimal text.
pub fn format_count(n: u64) -> (r: String)
    ensures
        r@ == decimal_digits(n as nat),
{
    let mut k = n as u128;
    let mut tail: Vec<char> = Vec::new();
    while k >= 10
        invariant
            decimal_digits(n as nat) == decimal_digits(k as nat) + tail@,
        decreases k,
    {
        tail.insert(0, digit_to_char(k % 10));
        assert(decimal_digits(k as nat) == decimal_digits((k / 10) as nat).push(
            digit_char((k % 10) as int),
        ));
        assert(decimal_digits(n as nat) =~= decimal_digits((k / 10) as nat) + tail@);
        k = k / 10;
    }
    tail.insert(0, digit_to_char(k));
    assert(decimal_digits(n as nat) =~= tail@);
    let mut out = String::new();
    let mut i: usize = 0;
    while i < tail.len()
        invariant
            i <= tail@.len(),
            out@ == tail@.take(i as int),
        decreases tail@.len() - i,
    {
        push_char(&mut out, tail[i]);
        i = i + 1;
        assert(out@ =~= tail@.take(i as int));
    }
    assert(tail@.take(tail@.len() as int) =~= tail@);
    out
}

/// The fields of a ranking row, in export order: rank, contractor, total
/// cost, project count, average delay, total savings, reliability, flag.
pub fn contractor_fields(t: &ContractorRanking) -> (r: Vec<String>)
    requires
        t.total_cost > i128::MIN,
        t.avg_delay > i128::MIN,
        t.total_savings > i128::MIN,
        t.reliability_index > i128::MIN,
    ensures
        r@.len() == 8,
        r@[0]@ == decimal_digits(t.rank as nat),
        r@[1]@ == t.contractor@,
        r@[2]@ == hundredths_text(t.total_cost as int),
        r@[3]@ == decimal_digits(t.project_count as nat),
        r@[4]@ == hundredths_text(t.avg_delay as int),
        r@[5]@ == hundredths_text(t.total_savings as int),
        r@[6]@ == hundredths_text(t.reliability_index as int),
        r@[7]@ == t.risk_flag.label_spec(),
{
    vec![
        format_count(t.rank as u64),
        t.contractor.clone(),
        format_hundredths(t.total_cost),
        format_count(t.project_count),
        format_hundredths(t.avg_delay),
        format_hundredths(t.total_savings),
        format_hundredths(t.reliability_index),
        t.risk_flag.label().to_string(),
    ]
}

/// The fields of an annual row, in export order: year, type of work,
/// project count, average savings, overrun rate, year-over-year change.
pub fn annual_fields(t: &AnnualMetric) -> (r: Vec<String>)
    requires
        t.funding_year >= 0,
        t.avg_savings > i128::MIN,
        t.overrun_rate > i128::MIN,
        t.yoy_change > i128::MIN,
    ensures
        r@.len() == 6,
        r@[0]@ == decimal_digits(t.funding_year as nat),
        r@[1]@ == t.type_of_work@,
        r@[2]@ == decimal_digits(t.project_count as nat),
        r@[3]@ == hundredths_text(t.avg_savings as int),
        r@[4]@ == hundredths_text(t.overrun_rate as int),
        r@[5]@ == hundredths_text(t.yoy_change as int),
{
    vec![
        format_count(t.funding_year as u64),
        t.type_of_work.clone(),
        format_count(t.project_count),
        format_hundredths(t.avg_savings),
        format_hundredths(t.overrun_rate),
        format_hundredths(t.yoy_change),
    ]
}

} // verus!
