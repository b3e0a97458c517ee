use vstd::prelude::*;
use vstd::string::*;
use crate::text::{padded, push_padded};

verus! {

/// A civil date and time of day, in UTC.
#[derive(Copy, Clone, Debug, PartialEq, Eq, Structural)]
pub struct Timestamp {
    pub year: u32,
    pub month: u32,
    pub day: u32,
    pub hour: u32,
    pub minute: u32,
    pub second: u32,
}

/// `YYYY-MM-DDTHH:MM:SSZ`, each field zero-padded.
pub open spec fn iso8601(t: Timestamp) -> Seq<char> {
    padded(t.year as nat, 4) + seq!['-'] + padded(t.month as nat, 2) + seq!['-'] + padded(t.day as nat, 2)
        + seq!['T'] + padded(t.hour as nat, 2) + seq![':'] + padded(t.minute as nat, 2) + seq![':']
        + padded(t.second as nat, 2) + seq!['Z']
}


pub open spec fn is_leap_spec(year: int) -> bool {
    (year % 4 == 0 && year % 100 != 0) || year % 400 == 0
}

pub open spec fn year_days(year: int) -> int {
    if is_leap_spec(year) { 366 } else { 365 }
}

/// Days from 1970-01-01 to the first day of `year`.
pub open spec fn days_before_year(year: int) -> int
    decreases year - 1970,
{
    if year <= 1970 { 0 } else { days_before_year(year - 1) + year_days(year - 1) }
}

pub open spec fn month_len(year: int, month: int) -> int {
    if month == 2 { if is_leap_spec(year) { 29 } else { 28 } }
    else if month == 4 || month == 6 || month == 9 || month == 11 { 30 }
    else { 31 }
}

/// Days from the first of January of `year` to the first day of `month`.
pub open spec fn days_before_month(year: int, month: int) -> int
    decreases month,
{
    if month <= 1 { 0 } else { days_before_month(year, month - 1) + month_len(year, month - 1) }
}

/// A real date and time of day, from 1970 on.
pub open spec fn valid(t: Timestamp) -> bool {
    &&& 1970 <= t.year
    &&& 1 <= t.month <= 12
    &&& 1 <= t.day <= month_len(t.year as int, t.month as int)
    &&& t.hour < 24
    &&& t.minute < 60
    &&& t.second < 60
}

/// Seconds since 1970-01-01T00:00:00Z.
pub open spec fn unix_seconds(t: Timestamp) -> int {
    (days_before_year(t.year as int) + days_before_month(t.year as int, t.month as int) + t.day - 1) * 86400
        + t.hour * 3600 + t.minute * 60 + t.second
}

/// Seconds from 1970 to the first day of the year 10000.
pub open spec fn max_unix_seconds() -> int {
    days_before_year(10000) * 86400
}

proof fn lemma_days_before_year_mono(a: int, b: int)
    requires
        1970 <= a <= b,
    ensures
        days_before_year(a) <= days_before_year(b),
    decreases b - a,
{
    if a < b {
        lemma_days_before_year_mono(a, b - 1);
    }
}

proof fn lemma_year_of_months(year: int)
    ensures
        days_before_month(year, 13) == year_days(year),
{
    reveal_with_fuel(days_before_month, 13);
}

impl Timestamp {
    /// Whether `year` is a leap year of the Gregorian calendar.
    pub fn is_leap(year: u32) -> (r: bool)
        ensures
            r == is_leap_spec(year as int),
    {
        (year % 4 == 0 && year % 100 != 0) || year % 400 == 0
    }

    /// The length of each month of `year`, January first.
    pub fn days_in_month(year: u32) -> (r: [u32; 12])
        ensures
            forall|m: int| 1 <= m <= 12 ==> r@[m - 1] == month_len(year as int, m),
    {
        let mut dim: [u32; 12] = [31, 28, 31, 30, 31, 30, 31, 31, 30, 31, 30, 31];
        if Self::is_leap(year) {
            dim[1] = 29;
        }
        dim
    }

    /// The UTC date and time `secs` seconds after 1970-01-01T00:00:00Z.
    pub fn from_unix_secs(secs: u64) -> (r: Timestamp)
        requires
            secs < max_unix_seconds(),
        ensures
            valid(r),
            r.year <= 9999,
            unix_seconds(r) == secs,
    {
        let mut rest: u64 = secs;
        let mut year: u32 = 1970;
        loop
            invariant
                1970 <= year <= 9999,
                rest + days_before_year(year as int) * 86400 == secs,
                secs < max_unix_seconds(),
            ensures
                1970 <= year <= 9999,
                rest + days_before_year(year as int) * 86400 == secs,
                rest < year_days(year as int) * 86400,
            decreases rest,
        {
            let days: u64 = if Self::is_leap(year) { 366 } else { 365 };
            let year_secs: u64 = days * 86_400;
            if rest < year_secs {
                break;
            }
            rest = rest - year_secs;
            proof {
                if year + 1 >= 10000 {
                    lemma_days_before_year_mono(10000, year as int + 1);
                }
            }
            year = year + 1;
        }
        let dim = Self::days_in_month(year);
        let mut days: u64 = rest / 86_400;
        let in_day: u64 = rest % 86_400;
        let mut month: u32 = 1;
        proof { lemma_year_of_months(year as int); }
        while days >= dim[month as usize - 1] as u64
            invariant
                1 <= month <= 12,
                days + days_before_month(year as int, month as int) == rest / 86_400,
                rest < year_days(year as int) * 86400,
                forall|m: int| 1 <= m <= 12 ==> dim@[m - 1] == month_len(year as int, m),
                days_before_month(year as int, 13) == year_days(year as int),
            decreases 12 - month,
        {
            days = days - dim[month as usize - 1] as u64;
            // The twelve months fill the year, so December always fits.
            assert(month < 12);
            month = month + 1;
        }
        let hour = in_day / 3600;
        let minute = (in_day % 3600) / 60;
        let second = in_day % 60;
        let r = Timestamp {
            year,
            month,
            day: days as u32 + 1,
            hour: hour as u32,
            minute: minute as u32,
            second: second as u32,
        };
        assert(in_day == hour * 3600 + minute * 60 + second) by (nonlinear_arith)
            requires in_day < 86400, hour == in_day / 3600, minute == (in_day % 3600) / 60, second == in_day % 60;
        assert(rest == (rest / 86_400) * 86400 + in_day) by (nonlinear_arith)
            requires in_day == rest % 86_400;
        r
    }

    /// The timestamp in ISO 8601 form. Each field is written with its
    /// width (four digits for the year, two for the others), which a valid
    /// timestamp of a year up to 9999 fills exactly.
    pub fn to_iso8601(&self) -> (r: String)
        ensures
            r@ == iso8601(*self),
    {
        let mut out = String::new();
        proof { reveal_strlit("-"); reveal_strlit("T"); reveal_strlit(":"); reveal_strlit("Z"); }
        push_padded(&mut out, self.year as u64, 4);
        out.append("-");
        push_padded(&mut out, self.month as u64, 2);
        out.append("-");
        push_padded(&mut out, self.day as u64, 2);
        out.append("T");
        push_padded(&mut out, self.hour as u64, 2);
        out.append(":");
        push_padded(&mut out, self.minute as u64, 2);
        out.append(":");
        push_padded(&mut out, self.second as u64, 2);
        out.append("Z");
        assert(out@ =~= iso8601(*self));
        out
    }
}

} // verus!
