//! Gregorian calendar helpers, independent of UI and persistence.

use vstd::prelude::*;

verus! {

/// `true` for Gregorian leap years.
pub open spec fn leap(year: int) -> bool {
    year % 4 == 0 && (year % 100 != 0 || year % 400 == 0)
}

/// Days in `month` of `year`; zero for a month outside `1..=12`.
pub open spec fn month_length(year: int, month: int) -> int {
    if month == 1 || month == 3 || month == 5 || month == 7 || month == 8 || month == 10
        || month == 12 {
        31
    } else if month == 4 || month == 6 || month == 9 || month == 11 {
        30
    } else if month == 2 {
        if leap(year) { 29 } else { 28 }
    } else {
        0
    }
}

/// Days of `year` that precede the first of `month`.
pub open spec fn days_before_month(year: int, month: int) -> int
    decreases month,
{
    if month <= 1 {
        0
    } else {
        days_before_month(year, month - 1) + month_length(year, month - 1)
    }
}

/// Whether `year` is a Gregorian leap year.
pub fn is_leap_year(year: i32) -> (r: bool)
    ensures
        r == leap(year as int),
{
    year % 4 == 0 && (year % 100 != 0 || year % 400 == 0)
}

/// Days in `month` of `year`; zero for a month outside `1..=12`.
pub fn days_in_month(year: i32, month: u8) -> (r: u8)
    ensures
        r as int == month_length(year as int, month as int),
{
    match month {
        1 | 3 | 5 | 7 | 8 | 10 | 12 => 31,
        4 | 6 | 9 | 11 => 30,
        2 => if is_leap_year(year) { 29 } else { 28 },
        _ => 0,
    }
}

/// A date of the proleptic Gregorian calendar.
#[derive(Debug, Clone, Copy, PartialEq, Eq, Structural)]
pub struct CalendarDate {
    pub year: i32,
    pub month: u8,
    pub day: u8,
}

impl CalendarDate {
    /// A real calendar day: month in `1..=12`, day within that month.
    pub open spec fn valid(self) -> bool {
        1 <= self.month <= 12 && 1 <= self.day <= month_length(self.year as int, self.month as int)
    }

    /// Position of the day within its year, starting at 1 on January 1.
    pub open spec fn day_of_year(self) -> int {
        days_before_month(self.year as int, self.month as int) + self.day
    }

    /// The following day.
    pub open spec fn following(self) -> CalendarDate {
        if (self.day as int) < month_length(self.year as int, self.month as int) {
            CalendarDate { day: (self.day + 1) as u8, ..self }
        } else if self.month == 12 {
            CalendarDate { year: (self.year + 1) as i32, month: 1, day: 1 }
        } else {
            CalendarDate { year: self.year, month: (self.month + 1) as u8, day: 1 }
        }
    }

    /// The date `days` days later.
    pub open spec fn later(self, days: nat) -> CalendarDate
        decreases days,
    {
        if days == 0 {
            self
        } else {
            self.following().later((days - 1) as nat)
        }
    }

    /// Builds a date, or `None` when the month or day does not exist.
    pub fn new(year: i32, month: u8, day: u8) -> (r: Option<Self>)
        ensures
            r matches Some(d) ==> d == (CalendarDate { year, month, day }),
            r is Some <==> (CalendarDate { year, month, day }).valid(),
    {
        if 1 <= month && month <= 12 && 1 <= day && day <= days_in_month(year, month) {
            Some(CalendarDate { year, month, day })
        } else {
            None
        }
    }

    /// The next day; after December 31 the year advances.
    pub fn next_day(self) -> (r: Self)
        requires
            self.month != 255,
            self.month == 12 && self.day as int >= month_length(self.year as int, 12) ==> self.year
                < i32::MAX,
        ensures
            r == self.following(),
    {
        if self.day < days_in_month(self.year, self.month) {
            CalendarDate { day: self.day + 1, ..self }
        } else if self.month == 12 {
            CalendarDate { year: self.year + 1, month: 1, day: 1 }
        } else {
            CalendarDate { year: self.year, month: self.month + 1, day: 1 }
        }
    }

    /// The walk of `days` days from this date never steps from a month numbered 255 (whose
    /// successor does not fit a byte) nor past December of the last year an `i32` holds.
    pub open spec fn walk_ok(self, days: nat) -> bool {
        forall|k: nat| k < days ==> #[trigger] self.later(k).step_ok()
    }

    /// One step from this date stays within the numbers a date holds.
    pub open spec fn step_ok(self) -> bool {
        &&& self.month != 255
        &&& self.month == 12 && self.day as int >= month_length(self.year as int, 12) ==> self.year < i32::MAX
    }

    /// The date `days` days later, one day at a time; from a real date, a real date.
    pub fn add_days(self, days: u32) -> (r: Self)
        requires
            self.walk_ok(days as nat),
        ensures
            r == self.later(days as nat),
            self.valid() ==> r.valid(),
    {
        let mut cur = self;
        let mut k: u32 = 0;
        while k < days
            invariant
                k <= days,
                self.walk_ok(days as nat),
                self.later(k as nat) == cur,
                self.valid() ==> cur.valid(),
            decreases days - k,
        {
            proof {
                lemma_later_step(self, k as nat);
                assert(self.later(k as nat).step_ok());
                if cur.valid() {
                    lemma_following_step(cur);
                }
            }
            cur = cur.next_day();
            k = k + 1;
        }
        cur
    }
}

/// A real date whose year leaves room for the walk can walk `days` days, and lands on a
/// real date.
pub proof fn lemma_real_dates_walk(d: CalendarDate, days: nat)
    requires
        d.valid(),
        d.year as int + (d.day_of_year() - 1 + days as int) / 365 <= i32::MAX,
    ensures
        d.walk_ok(days),
        d.later(days).valid(),
{
    lemma_year_length(d.year as int);
    lemma_walk_from(d, days, 0);
}

proof fn lemma_walk_from(d: CalendarDate, days: nat, k: nat)
    requires
        k <= days,
        d.valid(),
        d.later(k).valid(),
        365 * (d.later(k).year as int) + d.later(k).day_of_year() <= 365 * (d.year as int) + d.day_of_year() + k,
        d.year as int + (d.day_of_year() - 1 + days as int) / 365 <= i32::MAX,
        forall|j: nat| j < k ==> #[trigger] d.later(j).step_ok(),
    ensures
        d.walk_ok(days),
        d.later(days).valid(),
    decreases days - k,
{
    if k < days {
        let cur = d.later(k);
        lemma_later_step(d, k);
        if cur.month == 12 && cur.day as int >= month_length(cur.year as int, 12) {
            lemma_day_of_year_bounds(cur);
            lemma_day_of_year_bounds(d);
            assert(365 * (cur.year as int) <= 365 * (d.year as int) + d.day_of_year() + k - 365);
            assert(365 * (cur.year as int - d.year as int) <= d.day_of_year() - 1 + days - 365) by (nonlinear_arith)
                requires
                    365 * (cur.year as int) <= 365 * (d.year as int) + d.day_of_year() + k - 365,
                    k < days,
            ;
            assert((cur.year as int - d.year as int) + 1 <= (d.day_of_year() - 1 + days) / 365) by (nonlinear_arith)
                requires
                    365 * (cur.year as int - d.year as int) <= d.day_of_year() - 1 + days - 365,
            ;
        }
        assert(cur.step_ok());
        lemma_following_step(cur);
        assert forall|j: nat| j < k + 1 implies #[trigger] d.later(j).step_ok() by {
            if j == k {
                assert(d.later(j) == cur);
            }
        }
        lemma_walk_from(d, days, k + 1);
    } else {
        assert forall|j: nat| j < days implies #[trigger] d.later(j).step_ok() by {}
    }
}

/// The Gregorian month lengths: thirty days hath September, April, June and November;
/// February has 29 in a leap year and 28 otherwise; the rest have 31.
pub proof fn law_month_lengths(year: int)
    ensures
        month_length(year, 1) == 31,
        month_length(year, 2) == if leap(year) { 29int } else { 28int },
        month_length(year, 3) == 31,
        month_length(year, 4) == 30,
        month_length(year, 5) == 31,
        month_length(year, 6) == 30,
        month_length(year, 7) == 31,
        month_length(year, 8) == 31,
        month_length(year, 9) == 30,
        month_length(year, 10) == 31,
        month_length(year, 11) == 30,
        month_length(year, 12) == 31,
        forall|m: int| !(1 <= m <= 12) ==> month_length(year, m) == 0,
{
}

/// Leap years: every fourth year, except centuries not divisible by 400.
pub proof fn law_leap_years()
    ensures
        leap(1848),
        leap(2000),
        !leap(1900),
        !leap(1849),
        forall|y: int| y % 4 != 0 ==> !leap(y),
        forall|y: int| y % 400 == 0 ==> leap(y),
        forall|y: int| y % 100 == 0 && y % 400 != 0 ==> !leap(y),
{
}

/// The day after the last day of a month from January to November is the first of the
/// next month; after December 31 comes January 1 of the next year; otherwise the day
/// number goes up by one.
pub proof fn law_month_ends_turn_over(d: CalendarDate)
    requires
        d.valid(),
        d.month == 12 && d.day == 31 ==> d.year < i32::MAX,
    ensures
        d.month == 9 && d.day == 30 ==> d.following() == (CalendarDate { year: d.year, month: 10, day: 1 }),
        d.month == 10 && d.day == 30 ==> d.following() == (CalendarDate { year: d.year, month: 10, day: 31 }),
        d.month == 10 && d.day == 31 ==> d.following() == (CalendarDate { year: d.year, month: 11, day: 1 }),
        d.month == 12 && d.day == 31 ==> d.following() == (CalendarDate { year: (d.year + 1) as i32, month: 1, day: 1 }),
        d.month == 2 && d.day == 28 && !leap(d.year as int) ==> d.following() == (CalendarDate { year: d.year, month: 3, day: 1 }),
        d.month == 2 && d.day == 28 && leap(d.year as int) ==> d.following() == (CalendarDate { year: d.year, month: 2, day: 29 }),
        d.following().valid(),
{
    lemma_following_step(d);
}

/// A year has 365 days, or 366 in a leap year.
pub proof fn lemma_year_length(year: int)
    ensures
        days_before_month(year, 12) + 31 == if leap(year) { 366int } else { 365int },
{
    reveal_with_fuel(days_before_month, 13);
}

/// Every valid date falls within its year.
pub proof fn lemma_day_of_year_bounds(d: CalendarDate)
    requires
        d.valid(),
    ensures
        1 <= d.day_of_year(),
        d.month == 12 && d.day as int == month_length(d.year as int, 12) ==> d.day_of_year()
            >= 365,
{
    reveal_with_fuel(days_before_month, 13);
}

/// One day later stays a valid date and advances the running day count by at most one.
pub proof fn lemma_following_step(d: CalendarDate)
    requires
        d.valid(),
        d.month == 12 && d.day as int >= month_length(d.year as int, 12) ==> d.year < i32::MAX,
    ensures
        d.following().valid(),
        365 * (d.following().year as int) + d.following().day_of_year() <= 365 * (d.year as int)
            + d.day_of_year() + 1,
{
    reveal_with_fuel(days_before_month, 13);
}

proof fn lemma_later_step(d: CalendarDate, k: nat)
    ensures
        d.later(k + 1) == d.later(k).following(),
    decreases k,
{
    reveal_with_fuel(CalendarDate::later, 2);
    if k > 0 {
        lemma_later_step(d.following(), (k - 1) as nat);
    }
}

/// Walking no days stays put; a walk of `a + b` days can be taken as `a` days and then `b`
/// more, landing on the same date; and one more day is the next day.
pub proof fn law_walks_compose(d: CalendarDate, a: nat, b: nat)
    requires
        d.walk_ok(a + b),
    ensures
        d.later(0) == d,
        d.walk_ok(a),
        d.later(a).walk_ok(b),
        d.later(a).later(b) == d.later(a + b),
        d.later(a + 1) == d.later(a).following(),
{
    lemma_later_step(d, a);
    assert forall|k: nat| k < b implies #[trigger] d.later(a).later(k).step_ok() by {
        lemma_later_composes(d, a, k);
        assert(d.later(a + k).step_ok());
    }
    assert forall|k: nat| k < a implies #[trigger] d.later(k).step_ok() by {
        assert(d.later(k).step_ok());
    }
    lemma_later_composes(d, a, b);
}

/// Moving `a` days and then `b` days lands on the same date as moving `a + b` days.
pub proof fn lemma_later_composes(d: CalendarDate, a: nat, b: nat)
    ensures
        d.later(a).later(b) == d.later(a + b),
    decreases a,
{
    if a > 0 {
        lemma_later_composes(d.following(), (a - 1) as nat, b);
        assert((a - 1) as nat + b == (a + b - 1) as nat);
    }
}

/// The day after a valid date is a valid date.
pub proof fn lemma_following_valid(d: CalendarDate)
    requires
        d.valid(),
        d.year < i32::MAX,
    ensures
        d.following().valid(),
{
    lemma_following_step(d);
}

} // verus!
