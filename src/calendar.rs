use chrono::Datelike;
use vstd::prelude::*;

use crate::text::padded_digits;

verus! {

/// Earliest year that chrono's `NaiveDate` represents.
pub const MIN_YEAR: i32 = -262143;

/// Latest year that chrono's `NaiveDate` represents.
pub const MAX_YEAR: i32 = 262142;

/// A day of the proleptic Gregorian calendar.
#[derive(Clone, Copy, Debug, PartialEq, Eq, Structural)]
pub struct CalendarDate {
    pub year: i32,
    pub month: u32,
    pub day: u32,
}

pub open spec fn is_leap_year(y: int) -> bool {
    (y % 4 == 0 && y % 100 != 0) || y % 400 == 0
}

pub open spec fn days_in_month(y: int, m: int) -> int {
    if m == 2 {
        if is_leap_year(y) { 29 } else { 28 }
    } else if m == 4 || m == 6 || m == 9 || m == 11 {
        30
    } else {
        31
    }
}

/// The first day that chrono can represent.
pub open spec fn first_date() -> CalendarDate {
    CalendarDate { year: MIN_YEAR, month: 1, day: 1 }
}

/// Strict chronological order.
pub open spec fn is_before(a: CalendarDate, b: CalendarDate) -> bool {
    a.year < b.year || (a.year == b.year && (a.month < b.month || (a.month == b.month && a.day
        < b.day)))
}

impl CalendarDate {
    /// A real calendar day inside chrono's range.
    pub open spec fn valid(self) -> bool {
        &&& MIN_YEAR <= self.year <= MAX_YEAR
        &&& 1 <= self.month <= 12
        &&& 1 <= self.day <= days_in_month(self.year as int, self.month as int)
    }

    /// The calendar day before `self`.
    pub open spec fn prev(self) -> CalendarDate {
        if self.day > 1 {
            CalendarDate { year: self.year, month: self.month, day: (self.day - 1) as u32 }
        } else if self.month > 1 {
            CalendarDate {
                year: self.year,
                month: (self.month - 1) as u32,
                day: days_in_month(self.year as int, self.month - 1) as u32,
            }
        } else {
            CalendarDate { year: (self.year - 1) as i32, month: 12, day: 31 }
        }
    }
}

/// The day `k` days before `base`.
pub open spec fn days_back(base: CalendarDate, k: nat) -> CalendarDate
    decreases k,
{
    if k == 0 {
        base
    } else {
        days_back(base, (k - 1) as nat).prev()
    }
}

/// The walk of `k` days back from `base` stays inside chrono's range.
pub open spec fn walk_in_range(base: CalendarDate, k: nat) -> bool {
    forall|j: nat| j < k ==> #[trigger] days_back(base, j) != first_date()
}

pub proof fn lemma_prev_valid(d: CalendarDate)
    requires
        d.valid(),
        d != first_date(),
    ensures
        d.prev().valid(),
        is_before(d.prev(), d),
{
}

/// Every day of an in-range walk is a valid date.
pub proof fn lemma_days_back_valid(base: CalendarDate, k: nat)
    requires
        base.valid(),
        walk_in_range(base, k),
    ensures
        days_back(base, k).valid(),
    decreases k,
{
    if k > 0 {
        let j = (k - 1) as nat;
        assert(days_back(base, j) != first_date());
        lemma_days_back_valid(base, j);
        lemma_prev_valid(days_back(base, j));
    }
}

/// Walking further back always gives an earlier day: the days of a walk are
/// pairwise distinct and strictly descending.
pub proof fn lemma_days_back_descending(base: CalendarDate, i: nat, j: nat)
    requires
        base.valid(),
        i < j,
        walk_in_range(base, j),
    ensures
        is_before(days_back(base, j), days_back(base, i)),
        days_back(base, j) != days_back(base, i),
    decreases j - i,
{
    let p = (j - 1) as nat;
    assert(days_back(base, p) != first_date());
    assert(walk_in_range(base, p));
    lemma_days_back_valid(base, p);
    lemma_prev_valid(days_back(base, p));
    if i < p {
        lemma_days_back_descending(base, i, p);
    }
}

/// Relies on chrono's `NaiveDate::from_ymd_opt` and `NaiveDate::pred_opt`:
/// the previous calendar day, absent only before chrono's first day.
#[verifier::external_body]
fn chrono_previous_day(d: CalendarDate) -> (r: Option<CalendarDate>)
    requires
        d.valid(),
    ensures
        d == first_date() ==> r is None,
        d != first_date() ==> r == Some(d.prev()),
{
    match chrono::NaiveDate::from_ymd_opt(d.year, d.month, d.day) {
        Some(x) => match x.pred_opt() {
            Some(p) => Some(CalendarDate { year: p.year(), month: p.month(), day: p.day() }),
            None => None,
        },
        None => None,
    }
}

/// The `n` days before `base`, latest first: the day before `base`, then the
/// day before that, and so on. `None` when the walk would leave chrono's range.
pub fn lookback_dates(base: CalendarDate, n: u32) -> (r: Option<Vec<CalendarDate>>)
    requires
        base.valid(),
    ensures
        r is Some <==> walk_in_range(base, n as nat),
        r matches Some(v) ==> {
            &&& v@.len() == n
            &&& forall|i: int| 0 <= i < n ==> #[trigger] v@[i] == days_back(base, (i + 1) as nat)
            &&& forall|i: int| 0 <= i < n ==> #[trigger] v@[i].valid()
        },
{
    let mut out: Vec<CalendarDate> = Vec::new();
    let mut cur = base;
    let mut i: u32 = 0;
    while i < n
        invariant
            base.valid(),
            i <= n,
            out@.len() == i,
            cur == days_back(base, i as nat),
            cur.valid(),
            walk_in_range(base, i as nat),
            forall|k: int| 0 <= k < i ==> #[trigger] out@[k] == days_back(base, (k + 1) as nat),
            forall|k: int| 0 <= k < i ==> #[trigger] out@[k].valid(),
        decreases n - i,
    {
        match chrono_previous_day(cur) {
            None => {
                assert(!walk_in_range(base, n as nat)) by {
                    assert(days_back(base, i as nat) == first_date());
                }
                return None;
            },
            Some(p) => {
                proof {
                    lemma_prev_valid(cur);
                    assert forall|j: nat| j < i + 1 implies #[trigger] days_back(base, j)
                        != first_date() by {
                        if j < i {
                            assert(days_back(base, j) != first_date());
                        }
                    }
                }
                out.push(p);
                cur = p;
                i = i + 1;
            },
        }
    }
    Some(out)
}

/// The dates of a lookback walk, as `lookback_dates` returns them, start with
/// the day before `base`, are each exactly one day before the one ahead of
/// them, and are pairwise distinct in strictly descending order.
pub proof fn lemma_lookback_order(base: CalendarDate, n: nat, v: Seq<CalendarDate>)
    requires
        base.valid(),
        walk_in_range(base, n),
        v.len() == n,
        forall|i: int| 0 <= i < n ==> #[trigger] v[i] == days_back(base, (i + 1) as nat),
    ensures
        n > 0 ==> v[0] == base.prev(),
        forall|i: int| 0 < i < n ==> #[trigger] v[i] == v[i - 1].prev(),
        forall|i: int, j: int| 0 <= i < j < n ==> is_before(#[trigger] v[j], #[trigger] v[i]),
        forall|i: int, j: int| 0 <= i < j < n ==> #[trigger] v[j] != #[trigger] v[i],
{
    if n > 0 {
        assert(v[0] == days_back(base, 1));
        assert(days_back(base, 0) == base);
    }
    assert forall|i: int| 0 < i < n implies #[trigger] v[i] == v[i - 1].prev() by {
        assert(v[i - 1] == days_back(base, i as nat));
        assert(v[i] == days_back(base, (i + 1) as nat));
    }
    assert forall|i: int, j: int| 0 <= i < j < n implies is_before(#[trigger] v[j], #[trigger] v[i])
        && v[j] != v[i] by {
        assert(v[i] == days_back(base, (i + 1) as nat));
        assert(v[j] == days_back(base, (j + 1) as nat));
        assert forall|k: nat| k < j + 1 implies #[trigger] days_back(base, k) != first_date() by {
            assert(k < n);
        }
        lemma_days_back_descending(base, (i + 1) as nat, (j + 1) as nat);
    }
}

/// `YYYY-MM-DD`, for a date whose year has at most four digits.
pub open spec fn iso_date(d: CalendarDate) -> Seq<char> {
    padded_digits(d.year as nat, 4) + seq!['-'] + padded_digits(d.month as nat, 2) + seq!['-']
        + padded_digits(d.day as nat, 2)
}

/// Relies on chrono's `NaiveDate::from_ymd_opt` and `NaiveDate::format` with
/// `%Y-%m-%d`: four zero-padded year digits for years 0 to 9999, then two
/// zero-padded digits each for month and day.
#[verifier::external_body]
pub(crate) fn chrono_iso_date(d: CalendarDate) -> (r: String)
    requires
        d.valid(),
    ensures
        0 <= d.year <= 9999 ==> r@ == iso_date(d),
{
    chrono::NaiveDate::from_ymd_opt(d.year, d.month, d.day).unwrap().format("%Y-%m-%d").to_string()
}

} // verus!
