//! Validation of `YYYY-MM-DD` birth dates.

use vstd::prelude::*;
use vstd::string::StringSliceAdditionalSpecFns;
use vstd::arithmetic::div_mod::{lemma_div_denominator, lemma_fundamental_div_mod, lemma_mod_bound};

verus! {

pub const DIGIT_ZERO: u8 = 0x30;

pub const DIGIT_NINE: u8 = 0x39;

pub const PLUS: u8 = 0x2b;

pub const DASH: u8 = 0x2d;

pub open spec fn is_digit(b: u8) -> bool {
    DIGIT_ZERO <= b <= DIGIT_NINE
}

pub open spec fn all_digits(s: Seq<u8>) -> bool {
    forall|i: int| 0 <= i < s.len() ==> is_digit(#[trigger] s[i])
}

/// Decimal value of a run of ASCII digits.
pub open spec fn digits_value(s: Seq<u8>) -> int
    decreases s.len(),
{
    if s.len() == 0 {
        0
    } else {
        digits_value(s.drop_last()) * 10 + (s.last() - DIGIT_ZERO)
    }
}

/// The number a field reads as when parsed as an unsigned integer
/// (`str::parse::<u32>`): an optional `+`, then at least one digit.
pub open spec fn unsigned_field(f: Seq<u8>) -> Option<int> {
    let d = if f.len() > 0 && f[0] == PLUS {
        f.drop_first()
    } else {
        f
    };
    if d.len() > 0 && all_digits(d) {
        Some(digits_value(d))
    } else {
        None
    }
}

/// The number a field reads as when parsed as a signed integer
/// (`str::parse::<i32>`): an optional `+` or `-`, then at least one digit.
pub open spec fn signed_field(f: Seq<u8>) -> Option<int> {
    if f.len() > 0 && f[0] == DASH {
        let d = f.drop_first();
        if d.len() > 0 && all_digits(d) {
            Some(-digits_value(d))
        } else {
            None
        }
    } else {
        unsigned_field(f)
    }
}

pub open spec fn is_leap_year(y: int) -> bool {
    (y % 4 == 0 && y % 100 != 0) || y % 400 == 0
}

pub open spec fn days_in_month(y: int, m: int) -> int {
    if m == 2 {
        if is_leap_year(y) {
            29
        } else {
            28
        }
    } else if m == 4 || m == 6 || m == 9 || m == 11 {
        30
    } else {
        31
    }
}

/// A calendar date between the years 1800 and 9999, written as ten bytes
/// `YYYY-MM-DD`, each field read the way Rust's integer parsing reads it.
pub open spec fn valid_date(b: Seq<u8>) -> bool {
    &&& b.len() == 10
    &&& b[4] == DASH
    &&& b[7] == DASH
    &&& signed_field(b.subrange(0, 4)) matches Some(y)
    &&& unsigned_field(b.subrange(5, 7)) matches Some(m)
    &&& unsigned_field(b.subrange(8, 10)) matches Some(d)
    &&& 1800 <= y <= 9999
    &&& 1 <= m <= 12
    &&& 1 <= d <= days_in_month(y, m)
}

spec fn pow10(n: nat) -> int
    decreases n,
{
    if n == 0 {
        1
    } else {
        10 * pow10((n - 1) as nat)
    }
}

/// Reads `b[first..end]` as a run of digits.
fn read_digits(b: &[u8], first: usize, end: usize) -> (r: Option<i32>)
    requires
        first <= end <= b@.len(),
        end - first <= 4,
    ensures
        match r {
            Some(v) => 0 <= v < 10000 && all_digits(b@.subrange(first as int, end as int))
                && v == digits_value(b@.subrange(first as int, end as int)),
            None => !all_digits(b@.subrange(first as int, end as int)),
        },
{
    let mut i = first;
    let mut v: i32 = 0;
    proof {
        reveal_with_fuel(pow10, 5);
        assert(b@.subrange(first as int, first as int) =~= Seq::<u8>::empty());
    }
    while i < end
        invariant
            first <= i <= end <= b@.len(),
            end - first <= 4,
            all_digits(b@.subrange(first as int, i as int)),
            v == digits_value(b@.subrange(first as int, i as int)),
            0 <= v < pow10((i - first) as nat),
            pow10(4) == 10000,
        decreases end - i,
    {
        let c = b[i];
        if c < DIGIT_ZERO || c > DIGIT_NINE {
            assert(b@.subrange(first as int, end as int)[i - first] == c);
            return None;
        }
        proof {
            reveal_with_fuel(pow10, 5);
            let k = (i - first) as nat;
            assert(pow10(k + 1) == 10 * pow10(k));
            if k == 0 { assert(pow10(1) == 10); }
            else if k == 1 { assert(pow10(2) == 100); }
            else if k == 2 { assert(pow10(3) == 1000); }
            else { assert(pow10(4) == 10000); }
            assert(b@.subrange(first as int, i + 1).drop_last() =~= b@.subrange(first as int, i as int));
        }
        v = v * 10 + (c - DIGIT_ZERO) as i32;
        i = i + 1;
    }
    Some(v)
}

/// Parses `b[start..end]` as Rust parses a short integer field.
fn read_field(b: &[u8], start: usize, end: usize, signed: bool) -> (r: Option<i32>)
    requires
        start <= end <= b@.len(),
        end - start <= 4,
    ensures
        match r {
            Some(v) => (if signed {
                signed_field(b@.subrange(start as int, end as int))
            } else {
                unsigned_field(b@.subrange(start as int, end as int))
            }) == Some(v as int),
            None => (if signed {
                signed_field(b@.subrange(start as int, end as int))
            } else {
                unsigned_field(b@.subrange(start as int, end as int))
            }) is None,
        },
{
    let ghost f = b@.subrange(start as int, end as int);
    if start < end && b[start] == DASH && signed {
        assert(f.drop_first() =~= b@.subrange(start + 1, end as int));
        if start + 1 == end {
            return None;
        }
        match read_digits(b, start + 1, end) {
            Some(v) => Some(-v),
            None => None,
        }
    } else {
        let first = if start < end && b[start] == PLUS {
            assert(f.drop_first() =~= b@.subrange(start + 1, end as int));
            start + 1
        } else {
            start
        };
        if first == end {
            return None;
        }
        read_digits(b, first, end)
    }
}

/// Whether `date` is a calendar date `YYYY-MM-DD` with a year from 1800 to
/// 9999 (February has 29 days in leap years).
pub fn is_date_valid(date: &str) -> (ok: bool)
    ensures
        ok == valid_date(date.spec_bytes()),
{
    let b = date.as_bytes();
    if b.len() != 10 || b[4] != DASH || b[7] != DASH {
        return false;
    }
    let y = match read_field(b, 0, 4, true) {
        Some(v) => v,
        None => return false,
    };
    let m = match read_field(b, 5, 7, false) {
        Some(v) => v,
        None => return false,
    };
    let d = match read_field(b, 8, 10, false) {
        Some(v) => v,
        None => return false,
    };
    if y < 1800 || y > 9999 || m < 1 || m > 12 || d < 1 || d > 31 {
        return false;
    }
    if m == 2 {
        let leap = (y % 4 == 0 && y % 100 != 0) || y % 400 == 0;
        return if leap {
            d <= 29
        } else {
            d <= 28
        };
    }
    if m == 4 || m == 6 || m == 9 || m == 11 {
        return d <= 30;
    }
    true
}

/// The ASCII digit for `d`.
pub open spec fn digit_byte(d: int) -> u8 {
    (0x30 + d) as u8
}

/// The text `YYYY-MM-DD` with each field written in full with leading
/// zeros (`0 <= y <= 9999`, `0 <= m, d <= 99`).
pub open spec fn date_text(y: int, m: int, d: int) -> Seq<u8> {
    seq![
        digit_byte(y / 1000),
        digit_byte((y / 100) % 10),
        digit_byte((y / 10) % 10),
        digit_byte(y % 10),
        0x2d,
        digit_byte(m / 10),
        digit_byte(m % 10),
        0x2d,
        digit_byte(d / 10),
        digit_byte(d % 10),
    ]
}

proof fn lemma_decimal_split(y: int)
    requires
        0 <= y <= 9999,
    ensures
        y == (y / 1000) * 1000 + ((y / 100) % 10) * 100 + ((y / 10) % 10) * 10 + y % 10,
        0 <= y / 1000 <= 9,
        0 <= (y / 100) % 10 <= 9,
        0 <= (y / 10) % 10 <= 9,
        0 <= y % 10 <= 9,
{
    lemma_fundamental_div_mod(y, 10);
    lemma_fundamental_div_mod(y / 10, 10);
    lemma_fundamental_div_mod(y / 100, 10);
    lemma_div_denominator(y, 10, 10);
    lemma_div_denominator(y, 100, 10);
    lemma_mod_bound(y, 10);
    lemma_mod_bound(y / 10, 10);
    lemma_mod_bound(y / 100, 10);
}

proof fn lemma_four_digits(y: int)
    requires
        0 <= y <= 9999,
    ensures
        all_digits(date_text(y, 0, 0).subrange(0, 4)),
        digits_value(date_text(y, 0, 0).subrange(0, 4)) == y,
{
    lemma_decimal_split(y);
    let s = date_text(y, 0, 0).subrange(0, 4);
    let a = y / 1000;
    let b = (y / 100) % 10;
    let c = (y / 10) % 10;
    let e = y % 10;
    let s1 = seq![digit_byte(a)];
    let s2 = s1.push(digit_byte(b));
    let s3 = s2.push(digit_byte(c));
    assert(s =~= s3.push(digit_byte(e)));
    assert(s1.drop_last() =~= Seq::<u8>::empty());
    assert(digits_value(Seq::<u8>::empty()) == 0);
    assert(digit_byte(a) == 0x30 + a);
    assert(digit_byte(b) == 0x30 + b);
    assert(digit_byte(c) == 0x30 + c);
    assert(digit_byte(e) == 0x30 + e);
    assert(s1.last() == digit_byte(a));
    assert(digits_value(s1) == a);
    assert(s2.drop_last() =~= s1);
    assert(digits_value(s2) == a * 10 + b);
    assert(s3.drop_last() =~= s2);
    assert(digits_value(s3) == (a * 10 + b) * 10 + c);
    assert(s.drop_last() =~= s3);
    assert(digits_value(s) == ((a * 10 + b) * 10 + c) * 10 + e);
}

proof fn lemma_two_digits(x: int, lo: int)
    requires
        0 <= x <= 99,
        lo == 5 || lo == 8,
    ensures
        all_digits(date_text(0, x, x).subrange(lo, lo + 2)),
        digits_value(date_text(0, x, x).subrange(lo, lo + 2)) == x,
        date_text(0, x, x).subrange(lo, lo + 2)[0] != PLUS,
{
    let s = date_text(0, x, x).subrange(lo, lo + 2);
    assert(s =~= seq![digit_byte(x / 10), digit_byte(x % 10)]);
    assert(s.drop_last() =~= seq![digit_byte(x / 10)]);
    assert(s.drop_last().drop_last() =~= Seq::<u8>::empty());
    assert(digits_value(Seq::<u8>::empty()) == 0);
    lemma_fundamental_div_mod(x, 10);
    lemma_mod_bound(x, 10);
    assert(digit_byte(x / 10) == 0x30 + x / 10);
    assert(digit_byte(x % 10) == 0x30 + x % 10);
    assert(digits_value(s.drop_last()) == x / 10);
}

/// The calendar: a date written in full is valid exactly when its year is
/// from 1800 to 9999, its month from 1 to 12, and its day from 1 to the
/// length of the month: 31 days in January, March, May, July, August,
/// October and December, 30 in April, June, September and November, and
/// in February 29 in leap years (divisible by 4 but not by 100, or by 400)
/// and 28 otherwise.
pub proof fn law_calendar(y: int, m: int, d: int)
    requires
        0 <= y <= 9999,
        0 <= m <= 99,
        0 <= d <= 99,
    ensures
        valid_date(date_text(y, m, d)) <==> (1800 <= y && 1 <= m <= 12 && 1 <= d && d <= (if m
            == 2 {
            if (y % 4 == 0 && y % 100 != 0) || y % 400 == 0 {
                29int
            } else {
                28
            }
        } else if m == 4 || m == 6 || m == 9 || m == 11 {
            30
        } else {
            31
        })),
{
    let b = date_text(y, m, d);
    lemma_four_digits(y);
    lemma_two_digits(m, 5);
    lemma_two_digits(d, 8);
    assert(b.subrange(0, 4) =~= date_text(y, 0, 0).subrange(0, 4));
    assert(b.subrange(5, 7) =~= date_text(0, m, m).subrange(5, 7));
    assert(b.subrange(8, 10) =~= date_text(0, d, d).subrange(8, 10));
    assert(b[0] == digit_byte(y / 1000));
    assert(unsigned_field(b.subrange(5, 7)) == Some(m));
    assert(unsigned_field(b.subrange(8, 10)) == Some(d));
    assert(signed_field(b.subrange(0, 4)) == Some(y));
}

} // verus!
