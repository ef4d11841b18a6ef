//! Field-level text handling: trimming, and the integer and decimal notations
//! that the input table uses.
use vstd::prelude::*;
use vstd::string::StrSliceExecFns;

verus! {

/// The largest magnitude of an amount, in centavos (ten trillion pesos).
pub const MAX_AMOUNT_CENTS: i64 = 1_000_000_000_000_000;

/// The largest magnitude of the whole-peso part of an amount.
pub const MAX_AMOUNT_PESOS: i64 = 10_000_000_000_000;

/// What `str::trim` leaves of a text.
pub uninterp spec fn trimmed(s: Seq<char>) -> Seq<char>;

/// Relies on `str::trim`: removes leading and trailing whitespace; the result
/// depends on the text alone.
#[verifier::external_body]
pub(crate) fn trim_text(s: &str) -> (r: &str)
    ensures
        r@ == trimmed(s@),
{
    s.trim()
}

pub open spec fn is_digit(c: char) -> bool {
    '0' <= c && c <= '9'
}

pub open spec fn digit_value(c: char) -> int {
    c as int - '0' as int
}

pub open spec fn all_digits(s: Seq<char>) -> bool {
    forall|i: int| 0 <= i < s.len() ==> is_digit(#[trigger] s[i])
}

/// The number that a string of decimal digits stands for.
pub open spec fn digits_value(s: Seq<char>) -> int
    decreases s.len(),
{
    if s.len() == 0 {
        0
    } else {
        digits_value(s.drop_last()) * 10 + digit_value(s.last())
    }
}

pub open spec fn is_negative(s: Seq<char>) -> bool {
    s.len() > 0 && s[0] == '-'
}

/// The text after an optional leading sign.
pub open spec fn unsigned_part(s: Seq<char>) -> Seq<char> {
    if s.len() > 0 && (s[0] == '-' || s[0] == '+') {
        s.drop_first()
    } else {
        s
    }
}

/// The `i32` that a text in decimal notation (an optional sign, then digits)
/// stands for; `None` for any other text or a value out of range.
pub open spec fn int_value(s: Seq<char>) -> Option<int> {
    let body = unsigned_part(s);
    if body.len() == 0 || !all_digits(body) {
        None
    } else {
        let v = if is_negative(s) {
            -digits_value(body)
        } else {
            digits_value(body)
        };
        if i32::MIN <= v <= i32::MAX {
            Some(v)
        } else {
            None
        }
    }
}

pub proof fn lemma_digits_prefix(s: Seq<char>, k: int)
    requires
        all_digits(s),
        0 <= k <= s.len(),
    ensures
        0 <= digits_value(s.take(k)) <= digits_value(s),
    decreases s.len(),
{
    if k == s.len() {
        assert(s.take(k) =~= s);
        if s.len() > 0 {
            lemma_digits_prefix(s.drop_last(), k - 1);
            assert(s.drop_last().take(k - 1) =~= s.drop_last());
        }
    } else {
        lemma_digits_prefix(s.drop_last(), k);
        assert(s.drop_last().take(k) =~= s.take(k));
        lemma_digits_prefix(s.drop_last(), s.len() - 1);
        assert(s.drop_last().take(s.len() - 1) =~= s.drop_last());
    }
}

/// Reads an `i32` in decimal notation.
pub fn parse_int(s: &str) -> (r: Option<i32>)
    ensures
        match r {
            Some(v) => int_value(s@) == Some(v as int),
            None => int_value(s@) is None,
        },
{
    let n = s.unicode_len();
    let mut start: usize = 0;
    let mut neg = false;
    if n > 0 {
        let c = s.get_char(0);
        if c == '-' {
            neg = true;
            start = 1;
        } else if c == '+' {
            start = 1;
        }
    }
    let ghost body = unsigned_part(s@);
    assert(body =~= s@.skip(start as int));
    assert(neg == is_negative(s@));
    if start == n {
        return None;
    }
    let mut i: usize = start;
    let mut acc: i64 = 0;
    while i < n
        invariant
            n == s@.len(),
            start <= i <= n,
            body == s@.skip(start as int),
            body == unsigned_part(s@),
            neg == is_negative(s@),
            all_digits(body.take(i - start)),
            acc == digits_value(body.take(i - start)),
            0 <= acc <= 2147483648,
        decreases n - i,
    {
        let c = s.get_char(i);
        assert(body[i - start] == c);
        if !('0' <= c && c <= '9') {
            assert(!is_digit(body[i - start]));
            return None;
        }
        proof {
            assert(body.take(i - start + 1).drop_last() =~= body.take(i - start));
        }
        acc = acc * 10 + (c as i64 - '0' as i64);
        i = i + 1;
        assert(all_digits(body.take(i - start)));
        if acc > 2147483648 {
            proof {
                if all_digits(body) {
                    lemma_digits_prefix(body, i - start);
                    assert(digits_value(body) > 2147483648);
                }
            }
            return None;
        }
    }
    assert(body.take(n - start) =~= body);
    if neg {
        Some((-acc) as i32)
    } else if acc > 2147483647 {
        None
    } else {
        Some(acc as i32)
    }
}

/// The text with every thousands separator `,` taken out.
pub open spec fn without_commas(s: Seq<char>) -> Seq<char>
    decreases s.len(),
{
    if s.len() == 0 {
        s
    } else if s.last() == ',' {
        without_commas(s.drop_last())
    } else {
        without_commas(s.drop_last()).push(s.last())
    }
}

/// What a left-to-right reading of an unsigned decimal has found so far:
/// the whole part, the first two fractional digits as centavos, how many
/// fractional and how many digits in all, and whether a point was seen.
pub struct DecimalScan {
    pub valid: bool,
    pub seen_point: bool,
    pub whole: int,
    pub cents: int,
    pub frac_digits: nat,
    pub digits: nat,
}

pub open spec fn scan_step(st: DecimalScan, c: char) -> DecimalScan {
    if !st.valid {
        st
    } else if c == '.' {
        if st.seen_point {
            DecimalScan { valid: false, ..st }
        } else {
            DecimalScan { seen_point: true, ..st }
        }
    } else if !is_digit(c) {
        DecimalScan { valid: false, ..st }
    } else if !st.seen_point {
        DecimalScan { whole: st.whole * 10 + digit_value(c), digits: st.digits + 1, ..st }
    } else {
        DecimalScan {
            cents: if st.frac_digits == 0 {
                digit_value(c) * 10
            } else if st.frac_digits == 1 {
                st.cents + digit_value(c)
            } else {
                st.cents
            },
            frac_digits: st.frac_digits + 1,
            digits: st.digits + 1,
            ..st
        }
    }
}

pub open spec fn scan_decimal(s: Seq<char>) -> DecimalScan
    decreases s.len(),
{
    if s.len() == 0 {
        DecimalScan { valid: true, seen_point: false, whole: 0, cents: 0, frac_digits: 0, digits: 0 }
    } else {
        scan_step(scan_decimal(s.drop_last()), s.last())
    }
}

/// The number of hundredths that a decimal text stands for: commas are
/// ignored, then an optional sign, digits with at most one point, at least
/// one digit. Fractional digits past the second are dropped (toward zero).
pub open spec fn decimal_hundredths(s: Seq<char>) -> Option<int> {
    let t = without_commas(s);
    let st = scan_decimal(unsigned_part(t));
    if !st.valid || st.digits == 0 {
        None
    } else {
        let m = st.whole * 100 + st.cents;
        Some(
            if is_negative(t) {
                -m
            } else {
                m
            },
        )
    }
}

/// The amount, in centavos, that a decimal text stands for (see
/// `decimal_hundredths`); `None` for a magnitude over `MAX_AMOUNT_CENTS`.
pub open spec fn amount_cents(s: Seq<char>) -> Option<int> {
    match decimal_hundredths(s) {
        Some(v) => if -MAX_AMOUNT_CENTS <= v <= MAX_AMOUNT_CENTS {
            Some(v)
        } else {
            None
        },
        None => None,
    }
}

pub proof fn lemma_scan_prefix(s: Seq<char>, k: int)
    requires
        0 <= k <= s.len(),
        scan_decimal(s).valid,
    ensures
        scan_decimal(s.take(k)).valid,
        0 <= scan_decimal(s.take(k)).whole <= scan_decimal(s).whole,
        0 <= scan_decimal(s).cents <= 99,
        scan_decimal(s).frac_digits <= 1 ==> scan_decimal(s).cents <= 90,
    decreases s.len(),
{
    if s.len() > 0 {
        if k == s.len() {
            lemma_scan_prefix(s.drop_last(), k - 1);
            assert(s.drop_last().take(k - 1) =~= s.drop_last());
            assert(s.take(k) =~= s);
        } else {
            lemma_scan_prefix(s.drop_last(), k);
            assert(s.drop_last().take(k) =~= s.take(k));
            lemma_scan_prefix(s.drop_last(), s.len() - 1);
            assert(s.drop_last().take(s.len() - 1) =~= s.drop_last());
        }
    } else {
        assert(s.take(k) =~= s);
    }
}

/// The characters of a text other than `,`.
fn strip_commas(s: &str) -> (r: Vec<char>)
    ensures
        r@ == without_commas(s@),
{
    let n = s.unicode_len();
    let mut out: Vec<char> = Vec::new();
    let mut i: usize = 0;
    while i < n
        invariant
            n == s@.len(),
            i <= n,
            out@ == without_commas(s@.take(i as int)),
        decreases n - i,
    {
        let c = s.get_char(i);
        assert(s@.take(i + 1).drop_last() =~= s@.take(i as int));
        if c != ',' {
            out.push(c);
        }
        i = i + 1;
    }
    assert(s@.take(n as int) =~= s@);
    out
}

/// Reads an amount in centavos; see `amount_cents`.
pub fn parse_amount(s: &str) -> (r: Option<i64>)
    ensures
        match r {
            Some(v) => amount_cents(s@) == Some(v as int),
            None => amount_cents(s@) is None,
        },
        r is Some ==> -MAX_AMOUNT_CENTS <= r.unwrap() <= MAX_AMOUNT_CENTS,
{
    let t = strip_commas(s);
    let n = t.len();
    let mut start: usize = 0;
    let mut neg = false;
    if n > 0 {
        if t[0] == '-' {
            neg = true;
            start = 1;
        } else if t[0] == '+' {
            start = 1;
        }
    }
    let ghost body = unsigned_part(t@);
    assert(body =~= t@.skip(start as int));
    let mut valid = true;
    let mut seen_point = false;
    let mut whole: i64 = 0;
    let mut cents: i64 = 0;
    let mut frac_digits: usize = 0;
    let mut digits: usize = 0;
    let mut i: usize = start;
    while i < n
        invariant
            n == t@.len(),
            start <= i <= n,
            body == t@.skip(start as int),
            body == unsigned_part(t@),
            neg == is_negative(t@),
            t@ == without_commas(s@),
            valid,
            ({
                let st = scan_decimal(body.take(i - start));
                &&& st.valid
                &&& st.seen_point == seen_point
                &&& st.whole == whole
                &&& st.cents == cents
                &&& st.frac_digits == frac_digits
                &&& st.digits == digits
            }),
            0 <= whole <= MAX_AMOUNT_PESOS,
            0 <= cents <= 99,
            frac_digits <= 1 ==> cents <= 90,
            frac_digits <= i,
            digits <= i,
        decreases n - i,
    {
        let c = t[i];
        assert(body[i - start] == c);
        assert(body.take(i - start + 1).drop_last() =~= body.take(i - start));
        assert(body.take(i - start + 1).last() == c);
        if c == '.' {
            if seen_point {
                proof {
                    lemma_scan_prefix_invalid(body, i - start + 1);
                }
                return None;
            }
            seen_point = true;
        } else if !('0' <= c && c <= '9') {
            proof {
                lemma_scan_prefix_invalid(body, i - start + 1);
            }
            return None;
        } else if !seen_point {
            whole = whole * 10 + (c as i64 - '0' as i64);
            digits = digits + 1;
            if whole > MAX_AMOUNT_PESOS {
                proof {
                    if scan_decimal(body).valid {
                        lemma_scan_prefix(body, i - start + 1);
                    }
                }
                return None;
            }
        } else {
            if frac_digits == 0 {
                cents = (c as i64 - '0' as i64) * 10;
            } else if frac_digits == 1 {
                cents = cents + (c as i64 - '0' as i64);
            }
            frac_digits = frac_digits + 1;
            digits = digits + 1;
        }
        i = i + 1;
    }
    assert(body.take(n - start) =~= body);
    if digits == 0 {
        return None;
    }
    let m = whole * 100 + cents;
    if m > MAX_AMOUNT_CENTS {
        None
    } else if neg {
        Some(-m)
    } else {
        Some(m)
    }
}

/// A reading that has gone wrong stays wrong.
pub proof fn lemma_scan_prefix_invalid(s: Seq<char>, k: int)
    requires
        0 <= k <= s.len(),
        !scan_decimal(s.take(k)).valid,
    ensures
        !scan_decimal(s).valid,
    decreases s.len(),
{
    if k < s.len() {
        assert(s.drop_last().take(k) =~= s.take(k));
        lemma_scan_prefix_invalid(s.drop_last(), k);
    } else {
        assert(s.take(k) =~= s);
    }
}

} // verus!
