//! Dates, and their rendering in the ISO 8601 internet form
//! `YYYY-MM-DDTHH:MM:SSZ` (proleptic Gregorian calendar, UTC).
use vstd::prelude::*;
use vstd::string::StringExecFns;
use vstd::arithmetic::div_mod::lemma_fundamental_div_mod_converse;

verus! {

pub open spec fn is_leap(y: int) -> bool {
    y % 4 == 0 && (y % 100 != 0 || y % 400 == 0)
}

pub open spec fn year_len(y: int) -> int {
    if is_leap(y) {
        366
    } else {
        365
    }
}

pub open spec fn month_len(y: int, m: int) -> int {
    if m == 2 {
        if is_leap(y) {
            29
        } else {
            28
        }
    } else if m == 4 || m == 6 || m == 9 || m == 11 {
        30
    } else {
        31
    }
}

/// Days from the first of January of `y` to the first of month `m`.
pub open spec fn month_start(y: int, m: int) -> int
    decreases m,
{
    if m <= 1 {
        0
    } else {
        month_start(y, m - 1) + month_len(y, m - 1)
    }
}

/// Days from 2001-01-01 to the first of January of `y` (negative before).
pub open spec fn days_before(y: int) -> int {
    let n = y - 2001;
    365 * n + n / 4 - n / 100 + n / 400
}

/// `y`-`m`-`d` is a date of the calendar, `days` days after 2001-01-01.
pub open spec fn civil_ok(days: int, y: int, m: int, d: int) -> bool {
    &&& 1 <= m <= 12
    &&& 1 <= d <= month_len(y, m)
    &&& days_before(y) + month_start(y, m) + d - 1 == days
}

proof fn lemma_div_step(n: int, k: int)
    requires
        k > 0,
    ensures
        (n + 1) / k - n / k == if (n + 1) % k == 0 {
            1int
        } else {
            0int
        },
{
    let q = n / k;
    let r = n % k;
    assert(n == q * k + r && 0 <= r < k) by {
        vstd::arithmetic::div_mod::lemma_fundamental_div_mod(n, k);
        assert(k * q == q * k) by (nonlinear_arith);
    }
    if r == k - 1 {
        assert(n + 1 == (q + 1) * k + 0) by (nonlinear_arith)
            requires
                n == q * k + r,
                r == k - 1,
        ;
        lemma_fundamental_div_mod_converse(n + 1, k, q + 1, 0);
    } else {
        lemma_fundamental_div_mod_converse(n + 1, k, q, r + 1);
    }
}

proof fn lemma_div_shift(n: int, k: int, c: int)
    requires
        k > 0,
    ensures
        (n + c * k) / k == n / k + c,
        (n + c * k) % k == n % k,
{
    let q = n / k;
    let r = n % k;
    assert(n == q * k + r && 0 <= r < k) by {
        vstd::arithmetic::div_mod::lemma_fundamental_div_mod(n, k);
        assert(k * q == q * k) by (nonlinear_arith);
    }
    assert(n + c * k == (q + c) * k + r) by (nonlinear_arith)
        requires
            n == q * k + r,
    ;
    lemma_fundamental_div_mod_converse(n + c * k, k, q + c, r);
}

/// A year is as long as the step it makes in `days_before`.
proof fn lemma_year_step(y: int)
    ensures
        days_before(y + 1) == days_before(y) + year_len(y),
{
    let n = y - 2001;
    lemma_div_step(n, 4);
    lemma_div_step(n, 100);
    lemma_div_step(n, 400);
    lemma_div_shift(n + 1, 4, 500);
    lemma_div_shift(n + 1, 100, 20);
    lemma_div_shift(n + 1, 400, 5);
}

/// Four hundred years are 146097 days, wherever they start.
proof fn lemma_cycle(off: int, c: int)
    ensures
        days_before(2001 + 400 * c + off) == days_before(2001 + off) + 146097 * c,
{
    lemma_div_shift(off, 4, 100 * c);
    lemma_div_shift(off, 100, 4 * c);
    lemma_div_shift(off, 400, c);
    assert(off + 100 * c * 4 == off + 400 * c) by (nonlinear_arith);
    assert(off + 4 * c * 100 == off + 400 * c) by (nonlinear_arith);
    assert(off + c * 400 == off + 400 * c) by (nonlinear_arith);
}

proof fn lemma_months_fill_year(y: int)
    ensures
        month_start(y, 13) == year_len(y),
{
    reveal_with_fuel(month_start, 13);
}

proof fn lemma_days_before_grows(a: int, b: int)
    requires
        a < b,
    ensures
        days_before(a + 1) <= days_before(b),
    decreases b - a,
{
    if b > a + 1 {
        lemma_days_before_grows(a, b - 1);
        lemma_year_step(b - 1);
    }
}

proof fn lemma_month_start_grows(y: int, a: int, b: int)
    requires
        1 <= a < b,
    ensures
        month_start(y, a + 1) <= month_start(y, b),
    decreases b - a,
{
    if b > a + 1 {
        lemma_month_start_grows(y, a, b - 1);
    }
}

/// A day count names one calendar date at most, so the date in `renders`
/// is the date of the day.
pub proof fn lemma_civil_unique(days: int, y1: int, m1: int, d1: int, y2: int, m2: int, d2: int)
    requires
        civil_ok(days, y1, m1, d1),
        civil_ok(days, y2, m2, d2),
    ensures
        y1 == y2 && m1 == m2 && d1 == d2,
{
    lemma_months_fill_year(y1);
    lemma_months_fill_year(y2);
    lemma_month_start_grows(y1, m1, 13);
    lemma_month_start_grows(y2, m2, 13);
    assert(month_start(y1, m1 + 1) == month_start(y1, m1) + month_len(y1, m1));
    assert(month_start(y2, m2 + 1) == month_start(y2, m2) + month_len(y2, m2));
    if m1 > 1 {
        lemma_month_start_grows(y1, 1, m1);
        assert(month_start(y1, 2) == 31) by {
            reveal_with_fuel(month_start, 2);
        }
    }
    if m2 > 1 {
        lemma_month_start_grows(y2, 1, m2);
        assert(month_start(y2, 2) == 31) by {
            reveal_with_fuel(month_start, 2);
        }
    }
    lemma_year_step(y1);
    lemma_year_step(y2);
    if y1 < y2 {
        lemma_days_before_grows(y1, y2);
    } else if y2 < y1 {
        lemma_days_before_grows(y2, y1);
    }
    if m1 < m2 {
        lemma_month_start_grows(y1, m1, m2);
    } else if m2 < m1 {
        lemma_month_start_grows(y1, m2, m1);
    }
}

/// `n` in decimal, with leading zeros up to `width` digits.
pub open spec fn decimal(n: nat, width: nat) -> Seq<char>
    decreases n, width,
{
    if n < 10 && width <= 1 {
        seq![digit(n)]
    } else {
        decimal(n / 10, if width > 0 { (width - 1) as nat } else { 0 }) + seq![digit(n % 10)]
    }
}

pub open spec fn digit(d: nat) -> char {
    if d == 0 {
        '0'
    } else if d == 1 {
        '1'
    } else if d == 2 {
        '2'
    } else if d == 3 {
        '3'
    } else if d == 4 {
        '4'
    } else if d == 5 {
        '5'
    } else if d == 6 {
        '6'
    } else if d == 7 {
        '7'
    } else if d == 8 {
        '8'
    } else {
        '9'
    }
}

/// The internet form of a date and time of day.
pub open spec fn iso_string(y: int, mo: int, d: int, h: int, mi: int, s: int) -> Seq<char> {
    (if y < 0 {
        seq!['-'] + decimal((-y) as nat, 4)
    } else {
        decimal(y as nat, 4)
    }) + seq!['-'] + decimal(mo as nat, 2) + seq!['-'] + decimal(d as nat, 2) + seq!['T'] + decimal(
        h as nat,
        2,
    ) + seq![':'] + decimal(mi as nat, 2) + seq![':'] + decimal(s as nat, 2) + seq!['Z']
}

/// Whole seconds since 1970-01-01T00:00:00Z at 2001-01-01T00:00:00Z.
pub const UNIX_TO_REFERENCE: i64 = 978307200;

#[verifier::external_type_specification]
#[verifier::external_body]
pub struct ExSystemTime(std::time::SystemTime);

/// Relies on std::time::SystemTime::now: the system clock's current time.
#[verifier::external_body]
fn system_now() -> (r: std::time::SystemTime) {
    std::time::SystemTime::now()
}

/// Relies on std::time::SystemTime::duration_since against UNIX_EPOCH: the
/// whole seconds from 1970-01-01T00:00:00Z to `t`, or `None` for an earlier `t`.
#[verifier::external_body]
fn unix_secs(t: &std::time::SystemTime) -> (r: Option<u64>) {
    t.duration_since(std::time::UNIX_EPOCH).ok().map(|d| d.as_secs())
}

/// A point in time: whole seconds since 2001-01-01T00:00:00Z.
#[derive(Clone, Copy, Debug, PartialEq, Eq, Structural)]
pub struct Date {
    pub secs: i64,
}

impl Date {
    /// Now, as the system clock tells it; a clock set before 1970 reads as
    /// 1970-01-01T00:00:00Z.
    pub fn new() -> (r: Date)
        ensures
            r.secs >= -UNIX_TO_REFERENCE,
    {
        let now = system_now();
        match unix_secs(&now) {
            Some(s) => {
                if s <= (i64::MAX as u64) {
                    Date { secs: (s as i64) - UNIX_TO_REFERENCE }
                } else {
                    Date { secs: i64::MAX - UNIX_TO_REFERENCE }
                }
            },
            None => Date { secs: -UNIX_TO_REFERENCE },
        }
    }

    pub fn with_secs(secs: i64) -> (r: Date)
        ensures
            r.secs == secs,
    {
        Date { secs }
    }
}

/// Floor division with a non-negative remainder.
fn floor_div(x: i64, k: i64) -> (r: (i64, i64))
    requires
        k > 0,
    ensures
        r.0 == x as int / k as int,
        r.1 == x as int % k as int,
{
    if x >= 0 {
        let q = x / k;
        let m = x % k;
        (q, m)
    } else {
        let n = -(x + 1);
        let q = n / k;
        let m = n % k;
        proof {
            vstd::arithmetic::div_mod::lemma_fundamental_div_mod(n as int, k as int);
            assert(n == q * k + m) by (nonlinear_arith)
                requires
                    n == k * (n / k) + n % k,
                    q == n / k,
                    m == n % k,
            ;
            assert(x == (-q - 1) * k + (k - 1 - m)) by (nonlinear_arith)
                requires
                    n == q * k + m,
                    n == -(x + 1),
            ;
            lemma_fundamental_div_mod_converse(x as int, k as int, -q - 1, k - 1 - m);
        }
        (-q - 1, k - 1 - m)
    }
}

fn leap(y: i64) -> (r: bool)
    requires
        y >= 0,
    ensures
        r == is_leap(y as int),
{
    y % 4 == 0 && (y % 100 != 0 || y % 400 == 0)
}

fn year_length(y: i64) -> (r: i64)
    requires
        y >= 0,
    ensures
        r == year_len(y as int),
{
    if leap(y) {
        366
    } else {
        365
    }
}

fn days_in_month(leap_year: bool, m: i64) -> (r: i64)
    ensures
        forall|y: int| is_leap(y) == leap_year ==> r == month_len(y, m as int),
{
    if m == 2 {
        if leap_year {
            29
        } else {
            28
        }
    } else if m == 4 || m == 6 || m == 9 || m == 11 {
        30
    } else {
        31
    }
}

/// The calendar date `days` days after 2001-01-01.
fn civil(days: i64) -> (r: (i64, i64, i64))
    requires
        -140737488355328 <= days <= 140737488355328,
    ensures
        civil_ok(days as int, r.0 as int, r.1 as int, r.2 as int),
        -1000000000000 <= r.0 <= 1000000000000,
{
    let (c, r0) = floor_div(days, 146097);
    let mut off: i64 = 0;
    let mut r: i64 = r0;
    proof {
        assert(days_before(2001) == 0);
        assert(days_before(2401) == 146097);
        assert(-1000000000 <= c <= 1000000000) by (nonlinear_arith)
            requires
                days == c * 146097 + r0,
                0 <= r0 < 146097,
                -140737488355328 <= days <= 140737488355328,
        ;
    }
    while r >= year_length(2001 + off)
        invariant
            0 <= off < 400,
            0 <= r <= r0 < 146097,
            days_before(2001 + off) + r == r0,
        decreases 400 - off,
    {
        proof {
            lemma_year_step(2001 + off as int);
        }
        r = r - year_length(2001 + off);
        off = off + 1;
        proof {
            if off == 400 {
                assert(false);
            }
        }
    }
    let y = 2001 + 400 * c + off;
    proof {
        lemma_cycle(off as int, c as int);
        lemma_div_shift(2001 + off as int, 4, 100 * c);
        lemma_div_shift(2001 + off as int, 100, 4 * c);
        lemma_div_shift(2001 + off as int, 400, c as int);
        assert(2001 + off + 100 * c * 4 == y);
        assert(2001 + off + 4 * c * 100 == y);
        assert(2001 + off + c * 400 == y);
        assert(is_leap(y as int) == is_leap(2001 + off as int));
        lemma_months_fill_year(y as int);
    }
    let ly = leap(2001 + off);
    let ghost ry = r;
    let mut m: i64 = 1;
    while r >= days_in_month(ly, m)
        invariant
            1 <= m <= 12,
            0 <= r <= ry < year_len(y as int),
            ly == is_leap(y as int),
            month_start(y as int, m as int) + r == ry,
            month_start(y as int, 13) == year_len(y as int),
        decreases 12 - m,
    {
        r = r - days_in_month(ly, m);
        m = m + 1;
        proof {
            assert(month_start(y as int, m as int) == month_start(y as int, m - 1) + month_len(
                y as int,
                m - 1,
            ));
            if m == 13 {
                assert(false);
            }
        }
    }
    (y, m, r + 1)
}

/// Appends `n` in decimal, with leading zeros up to `width` digits.
fn push_decimal(s: &mut String, n: u64, width: u64)
    ensures
        final(s)@ == old(s)@ + decimal(n as nat, width as nat),
    decreases n, width,
{
    if n >= 10 || width > 1 {
        push_decimal(s, n / 10, if width > 0 { width - 1 } else { 0 });
    }
    let d = n % 10;
    let t: &str = if d == 0 {
        "0"
    } else if d == 1 {
        "1"
    } else if d == 2 {
        "2"
    } else if d == 3 {
        "3"
    } else if d == 4 {
        "4"
    } else if d == 5 {
        "5"
    } else if d == 6 {
        "6"
    } else if d == 7 {
        "7"
    } else if d == 8 {
        "8"
    } else {
        "9"
    };
    proof {
        reveal_strlit("0");
        reveal_strlit("1");
        reveal_strlit("2");
        reveal_strlit("3");
        reveal_strlit("4");
        reveal_strlit("5");
        reveal_strlit("6");
        reveal_strlit("7");
        reveal_strlit("8");
        reveal_strlit("9");
        assert(t@ =~= seq![digit(d as nat)]);
    }
    s.append(t);
}

/// The internet form of the date `secs` seconds after 2001-01-01T00:00:00Z:
/// its calendar date and its time of day, in UTC.
pub open spec fn renders(r: Seq<char>, secs: int) -> bool {
    let tod = secs % 86400;
    exists|y: int, m: int, d: int|
        civil_ok(secs / 86400, y, m, d) && r == #[trigger] iso_string(
            y,
            m,
            d,
            tod / 3600,
            tod % 3600 / 60,
            tod % 60,
        )
}

/// Formats dates in the ISO 8601 internet form, in UTC.
pub struct Iso8601DateFormatter {}

impl Iso8601DateFormatter {
    pub fn new() -> (r: Iso8601DateFormatter) {
        Iso8601DateFormatter {}
    }

    /// `date` as `YYYY-MM-DDTHH:MM:SSZ` (a year before 0 starts with `-`).
    pub fn string_from_date(&self, date: &Date) -> (r: String)
        ensures
            renders(r@, date.secs as int),
    {
        let (days, tod) = floor_div(date.secs, 86400);
        proof {
            vstd::arithmetic::div_mod::lemma_fundamental_div_mod(date.secs as int, 86400);
            assert(-140737488355328 <= days <= 140737488355328) by (nonlinear_arith)
                requires
                    date.secs == 86400 * days + tod,
                    0 <= tod < 86400,
                    i64::MIN <= date.secs <= i64::MAX,
            ;
        }
        let (y, m, d) = civil(days);
        let h = tod / 3600;
        let mi = tod % 3600 / 60;
        let sec = tod % 60;
        let mut s = String::new();
        proof {
            reveal_strlit("-");
            reveal_strlit("T");
            reveal_strlit(":");
            reveal_strlit("Z");
        }
        if y < 0 {
            s.append("-");
            push_decimal(&mut s, (-y) as u64, 4);
        } else {
            push_decimal(&mut s, y as u64, 4);
        }
        s.append("-");
        push_decimal(&mut s, m as u64, 2);
        s.append("-");
        push_decimal(&mut s, d as u64, 2);
        s.append("T");
        push_decimal(&mut s, h as u64, 2);
        s.append(":");
        push_decimal(&mut s, mi as u64, 2);
        s.append(":");
        push_decimal(&mut s, sec as u64, 2);
        s.append("Z");
        proof {
            let want = iso_string(
                y as int,
                m as int,
                d as int,
                h as int,
                mi as int,
                sec as int,
            );
            assert(s@ =~= want);
        }
        s
    }

    /// The same string; the runtime hands this variant out autoreleased,
    /// which for a value of this library makes no difference.
    pub fn string_from_date_ar(&self, date: &Date) -> (r: String)
        ensures
            renders(r@, date.secs as int),
    {
        self.string_from_date(date)
    }
}

} // verus!
