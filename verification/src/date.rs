use vstd::prelude::*;

verus! {

/// A proleptic Gregorian calendar date held as plain year, month and day
/// numbers. The supported range runs from January 1 of year 1 through
/// December 31 of year 9999; walking past either end is rejected or clamped
/// at the call sites that could reach it.
#[derive(Clone, Copy, PartialEq, Eq, Structural, Debug)]
pub struct Date {
    pub year: u16,
    pub month: u8,
    pub day: u8,
}

pub const MIN_YEAR: u16 = 1;

pub const MAX_YEAR: u16 = 9999;

pub open spec fn is_leap_year(y: int) -> bool {
    (y % 4 == 0 && y % 100 != 0) || y % 400 == 0
}

/// Days in the months of year `y` that come before month `m`; `m` may be 13,
/// giving the length of the whole year.
pub open spec fn days_before_month(y: int, m: int) -> int {
    let leap: int = if is_leap_year(y) {
        1
    } else {
        0
    };
    if m <= 1 {
        0
    } else if m == 2 {
        31
    } else if m == 3 {
        59 + leap
    } else if m == 4 {
        90 + leap
    } else if m == 5 {
        120 + leap
    } else if m == 6 {
        151 + leap
    } else if m == 7 {
        181 + leap
    } else if m == 8 {
        212 + leap
    } else if m == 9 {
        243 + leap
    } else if m == 10 {
        273 + leap
    } else if m == 11 {
        304 + leap
    } else if m == 12 {
        334 + leap
    } else {
        365 + leap
    }
}

pub open spec fn days_in_year(y: int) -> int {
    days_before_month(y, 13)
}

pub open spec fn month_length(y: int, m: int) -> int {
    days_before_month(y, m + 1) - days_before_month(y, m)
}

/// Days in all supported years before year `y`.
pub open spec fn days_before_year(y: int) -> int
    decreases y,
{
    if y <= 1 {
        0
    } else {
        days_before_year(y - 1) + days_in_year(y - 1)
    }
}

/// The rank of a date in the supported range: 0 for January 1 of year 1,
/// increasing by one per calendar day.
pub open spec fn day_index(d: Date) -> int {
    days_before_year(d.year as int) + days_before_month(d.year as int, d.month as int) + d.day - 1
}

pub open spec fn valid_date(d: Date) -> bool {
    &&& MIN_YEAR <= d.year <= MAX_YEAR
    &&& 1 <= d.month <= 12
    &&& 1 <= d.day <= month_length(d.year as int, d.month as int)
}

pub open spec fn min_date() -> Date {
    Date { year: MIN_YEAR, month: 1, day: 1 }
}

pub open spec fn max_date() -> Date {
    Date { year: MAX_YEAR, month: 12, day: 31 }
}

/// Day of week, Sunday-indexed: 0 is Sunday, 6 is Saturday. January 1 of
/// year 1 is a Monday in the proleptic Gregorian calendar.
pub open spec fn weekday_from_sunday(d: Date) -> int {
    (day_index(d) + 1) % 7
}

/// The first day of the month after the month of `d`.
pub open spec fn month_succ_spec(d: Date) -> Date {
    if d.month == 12 {
        Date { year: (d.year + 1) as u16, month: 1, day: 1 }
    } else {
        Date { year: d.year, month: (d.month + 1) as u8, day: 1 }
    }
}

/// The first day of the month `k` months after the month of `d`.
pub open spec fn month_add(d: Date, k: int) -> Date
    decreases k,
{
    if k <= 0 {
        d
    } else {
        month_succ_spec(month_add(d, k - 1))
    }
}

/// Months since the start of the supported range; one more per calendar
/// month.
pub open spec fn month_index(d: Date) -> int {
    12 * d.year + d.month
}

pub proof fn lemma_days_before_year_bound(y: int)
    requires
        1 <= y,
    ensures
        365 * (y - 1) <= days_before_year(y) <= 366 * (y - 1),
    decreases y,
{
    if y > 1 {
        lemma_days_before_year_bound(y - 1);
    }
}

pub proof fn lemma_days_before_year_monotone(y1: int, y2: int)
    requires
        1 <= y1 <= y2,
    ensures
        days_before_year(y1) + 365 * (y2 - y1) <= days_before_year(y2),
    decreases y2 - y1,
{
    if y1 < y2 {
        lemma_days_before_year_monotone(y1, y2 - 1);
    }
}

/// A date earlier in the calendar has a smaller rank.
pub proof fn lemma_day_index_increases(a: Date, b: Date)
    requires
        valid_date(a),
        valid_date(b),
        a.year < b.year || (a.year == b.year && a.month < b.month) || (a.year == b.year && a.month
            == b.month && a.day < b.day),
    ensures
        day_index(a) < day_index(b),
{
    if a.year < b.year {
        lemma_days_before_year_monotone(a.year + 1, b.year as int);
        assert(days_before_year(a.year + 1) == days_before_year(a.year as int) + days_in_year(
            a.year as int,
        ));
    }
}

/// The rank determines the date: no two valid dates share one.
pub proof fn lemma_day_index_injective(a: Date, b: Date)
    requires
        valid_date(a),
        valid_date(b),
        day_index(a) == day_index(b),
    ensures
        a == b,
{
    if a.year < b.year || (a.year == b.year && a.month < b.month) || (a.year == b.year && a.month
        == b.month && a.day < b.day) {
        lemma_day_index_increases(a, b);
    } else if b.year < a.year || (b.year == a.year && b.month < a.month) || (b.year == a.year
        && b.month == a.month && b.day < a.day) {
        lemma_day_index_increases(b, a);
    }
}

impl Date {
    pub fn new(year: u16, month: u8, day: u8) -> (r: Date)
        ensures
            r == (Date { year, month, day }),
    {
        Date { year, month, day }
    }

    pub fn min() -> (r: Date)
        ensures
            r == min_date(),
    {
        Date { year: MIN_YEAR, month: 1, day: 1 }
    }

    pub fn max() -> (r: Date)
        ensures
            r == max_date(),
    {
        Date { year: MAX_YEAR, month: 12, day: 31 }
    }

    pub fn is_min(&self) -> (r: bool)
        ensures
            r == (*self == min_date()),
    {
        self.year == MIN_YEAR && self.month == 1 && self.day == 1
    }

    pub fn is_max(&self) -> (r: bool)
        ensures
            r == (*self == max_date()),
    {
        self.year == MAX_YEAR && self.month == 12 && self.day == 31
    }

    /// The first day of this date's month.
    pub fn first_of_month(&self) -> (r: Date)
        requires
            valid_date(*self),
        ensures
            valid_date(r),
            r == (Date { year: self.year, month: self.month, day: 1 }),
    {
        Date { year: self.year, month: self.month, day: 1 }
    }
}

pub fn leap_year(y: u16) -> (r: bool)
    ensures
        r == is_leap_year(y as int),
{
    (y % 4 == 0 && y % 100 != 0) || y % 400 == 0
}

pub fn month_length_of(y: u16, m: u8) -> (r: u8)
    requires
        1 <= m <= 12,
    ensures
        r == month_length(y as int, m as int),
        28 <= r <= 31,
{
    let leap: u8 = if leap_year(y) {
        1
    } else {
        0
    };
    match m {
        1 => 31,
        2 => 28 + leap,
        3 => 31,
        4 => 30,
        5 => 31,
        6 => 30,
        7 => 31,
        8 => 31,
        9 => 30,
        10 => 31,
        11 => 30,
        _ => 31,
    }
}

fn days_before_month_of(y: u16, m: u8) -> (r: u16)
    requires
        1 <= m <= 13,
    ensures
        r == days_before_month(y as int, m as int),
{
    let leap: u16 = if leap_year(y) {
        1
    } else {
        0
    };
    match m {
        1 => 0,
        2 => 31,
        3 => 59 + leap,
        4 => 90 + leap,
        5 => 120 + leap,
        6 => 151 + leap,
        7 => 181 + leap,
        8 => 212 + leap,
        9 => 243 + leap,
        10 => 273 + leap,
        11 => 304 + leap,
        12 => 334 + leap,
        _ => 365 + leap,
    }
}

/// The rank of a date, computed by summing whole years and then the months
/// before the date's month.
pub fn day_number(d: &Date) -> (r: u32)
    requires
        valid_date(*d),
    ensures
        r == day_index(*d),
{
    let mut acc: u32 = 0;
    let mut y: u16 = MIN_YEAR;
    while y < d.year
        invariant
            MIN_YEAR <= y <= d.year,
            d.year <= MAX_YEAR,
            acc == days_before_year(y as int),
        decreases d.year - y,
    {
        proof {
            lemma_days_before_year_bound(y as int + 1);
        }
        let year_days: u32 = if leap_year(y) {
            366
        } else {
            365
        };
        acc = acc + year_days;
        y = y + 1;
    }
    proof {
        lemma_days_before_year_bound(d.year as int);
    }
    acc + days_before_month_of(d.year, d.month) as u32 + d.day as u32 - 1
}

/// Sunday-indexed day of week: 0 is Sunday, 6 is Saturday.
pub fn weekday(d: &Date) -> (r: u8)
    requires
        valid_date(*d),
    ensures
        r == weekday_from_sunday(*d),
        r < 7,
{
    proof {
        lemma_max_day_index(*d);
        lemma_days_before_year_bound(MAX_YEAR as int);
    }
    ((day_number(d) + 1) % 7) as u8
}

/// The next calendar day.
pub fn succ(d: &Date) -> (r: Date)
    requires
        valid_date(*d),
        *d != max_date(),
    ensures
        valid_date(r),
        day_index(r) == day_index(*d) + 1,
{
    let ml = month_length_of(d.year, d.month);
    if d.day < ml {
        Date { year: d.year, month: d.month, day: d.day + 1 }
    } else if d.month < 12 {
        Date { year: d.year, month: d.month + 1, day: 1 }
    } else {
        proof {
            assert(days_before_year(d.year as int + 1) == days_before_year(d.year as int)
                + days_in_year(d.year as int));
        }
        Date { year: d.year + 1, month: 1, day: 1 }
    }
}

/// The previous calendar day.
pub fn pred(d: &Date) -> (r: Date)
    requires
        valid_date(*d),
        *d != min_date(),
    ensures
        valid_date(r),
        day_index(r) == day_index(*d) - 1,
{
    if d.day > 1 {
        Date { year: d.year, month: d.month, day: d.day - 1 }
    } else if d.month > 1 {
        let pm = d.month - 1;
        Date { year: d.year, month: pm, day: month_length_of(d.year, pm) }
    } else {
        proof {
            assert(days_before_year(d.year as int) == days_before_year(d.year as int - 1)
                + days_in_year(d.year as int - 1));
        }
        let py = d.year - 1;
        Date { year: py, month: 12, day: 31 }
    }
}

/// Moves `n` days forward, stopping at the end of the supported range.
pub fn add_days(d: &Date, n: u32) -> (r: Date)
    requires
        valid_date(*d),
    ensures
        valid_date(r),
        day_index(*d) + n <= day_index(max_date()) ==> day_index(r) == day_index(*d) + n,
        day_index(*d) + n > day_index(max_date()) ==> r == max_date(),
{
    let mut cur = *d;
    let mut i: u32 = 0;
    proof {
        lemma_max_day_index(cur);
    }
    while i < n
        invariant
            valid_date(cur),
            i <= n,
            day_index(cur) == day_index(*d) + i,
            day_index(cur) <= day_index(max_date()),
        decreases n - i,
    {
        if cur.is_max() {
            return cur;
        }
        cur = succ(&cur);
        i = i + 1;
        proof {
            lemma_max_day_index(cur);
        }
    }
    cur
}

/// Moves `n` days backward, stopping at the start of the supported range.
pub fn sub_days(d: &Date, n: u32) -> (r: Date)
    requires
        valid_date(*d),
    ensures
        valid_date(r),
        day_index(*d) - n >= 0 ==> day_index(r) == day_index(*d) - n,
        day_index(*d) - n < 0 ==> r == min_date(),
{
    let mut cur = *d;
    let mut i: u32 = 0;
    proof {
        lemma_min_day_index(cur);
    }
    while i < n
        invariant
            valid_date(cur),
            i <= n,
            day_index(cur) == day_index(*d) - i,
            day_index(cur) >= 0,
        decreases n - i,
    {
        if cur.is_min() {
            return cur;
        }
        cur = pred(&cur);
        i = i + 1;
        proof {
            lemma_min_day_index(cur);
        }
    }
    cur
}

/// Every valid date's rank lies between the ranks of the two range ends.
pub proof fn lemma_max_day_index(d: Date)
    requires
        valid_date(d),
    ensures
        0 <= day_index(d) <= day_index(max_date()),
{
    if d != max_date() {
        if d.year < MAX_YEAR || (d.year == MAX_YEAR && d.month < 12) || (d.year == MAX_YEAR
            && d.month == 12 && d.day < 31) {
            lemma_day_index_increases(d, max_date());
        }
    }
    if d != min_date() {
        if d.year > MIN_YEAR || (d.year == MIN_YEAR && d.month > 1) || (d.year == MIN_YEAR
            && d.month == 1 && d.day > 1) {
            lemma_day_index_increases(min_date(), d);
        }
    }
}

pub proof fn lemma_min_day_index(d: Date)
    requires
        valid_date(d),
    ensures
        0 <= day_index(d) <= day_index(max_date()),
{
    lemma_max_day_index(d);
}

/// The first day of the following month.
pub fn month_succ(d: &Date) -> (r: Date)
    requires
        valid_date(*d),
        !(d.year == MAX_YEAR && d.month == 12),
    ensures
        valid_date(r),
        r == month_succ_spec(*d),
        month_index(r) == month_index(*d) + 1,
{
    if d.month == 12 {
        Date { year: d.year + 1, month: 1, day: 1 }
    } else {
        Date { year: d.year, month: d.month + 1, day: 1 }
    }
}


/// The decimal digit characters.
pub open spec fn digit_char(d: int) -> char {
    if d == 0 {
        '0'
    } else if d == 1 {
        '1'
    } else if d == 2 {
        '2'
    } else if d == 3 {
        '3'
    } else if d == 4 {
        '4'
    } else if d == 5 {
        '5'
    } else if d == 6 {
        '6'
    } else if d == 7 {
        '7'
    } else if d == 8 {
        '8'
    } else {
        '9'
    }
}

pub open spec fn month_name(m: int) -> Seq<char> {
    if m == 1 {
        "January"@
    } else if m == 2 {
        "February"@
    } else if m == 3 {
        "March"@
    } else if m == 4 {
        "April"@
    } else if m == 5 {
        "May"@
    } else if m == 6 {
        "June"@
    } else if m == 7 {
        "July"@
    } else if m == 8 {
        "August"@
    } else if m == 9 {
        "September"@
    } else if m == 10 {
        "October"@
    } else if m == 11 {
        "November"@
    } else {
        "December"@
    }
}

/// A year written as four digits.
pub open spec fn year_text(y: int) -> Seq<char> {
    seq![
        digit_char(y / 1000 % 10),
        digit_char(y / 100 % 10),
        digit_char(y / 10 % 10),
        digit_char(y % 10),
    ]
}

/// A month header: the month's name, a space, and the four-digit year.
pub open spec fn month_year_text(d: Date) -> Seq<char> {
    month_name(d.month as int) + " "@ + year_text(d.year as int)
}

/// A day of the month written into two cells, space-padded.
pub open spec fn day_text(day: int) -> Seq<char> {
    if day < 10 {
        seq![' ', digit_char(day)]
    } else {
        seq![digit_char(day / 10), digit_char(day % 10)]
    }
}

fn digit_str(d: u16) -> (r: &'static str)
    requires
        d <= 9,
    ensures
        r@ == seq![digit_char(d as int)],
{
    proof {
        reveal_strlit("0");
        reveal_strlit("1");
        reveal_strlit("2");
        reveal_strlit("3");
        reveal_strlit("4");
        reveal_strlit("5");
        reveal_strlit("6");
        reveal_strlit("7");
        reveal_strlit("8");
        reveal_strlit("9");
    }
    let r: &'static str = match d {
        0 => "0",
        1 => "1",
        2 => "2",
        3 => "3",
        4 => "4",
        5 => "5",
        6 => "6",
        7 => "7",
        8 => "8",
        _ => "9",
    };
    proof {
        assert(r@ =~= seq![digit_char(d as int)]);
    }
    r
}

fn month_name_str(m: u8) -> (r: &'static str)
    requires
        1 <= m <= 12,
    ensures
        r@ == month_name(m as int),
{
    match m {
        1 => "January",
        2 => "February",
        3 => "March",
        4 => "April",
        5 => "May",
        6 => "June",
        7 => "July",
        8 => "August",
        9 => "September",
        10 => "October",
        11 => "November",
        _ => "December",
    }
}

/// The month header text of this date, month name then four-digit year.
pub fn month_year_of(d: &Date) -> (r: String)
    requires
        valid_date(*d),
    ensures
        r@ == month_year_text(*d),
{
    let mut s = String::new();
    s.append(month_name_str(d.month));
    s.append(" ");
    s.append(digit_str(d.year / 1000));
    s.append(digit_str((d.year / 100) % 10));
    s.append(digit_str((d.year / 10) % 10));
    s.append(digit_str(d.year % 10));
    proof {
        assert(s@ =~= month_year_text(*d));
    }
    s
}

/// The two-cell text of a day number.
pub fn day_text_of(day: u8) -> (r: String)
    requires
        day <= 31,
    ensures
        r@ == day_text(day as int),
{
    let mut s = String::new();
    if day < 10 {
        s.append(" ");
        proof {
            reveal_strlit(" ");
        }
        s.append(digit_str(day as u16));
    } else {
        s.append(digit_str((day / 10) as u16));
        s.append(digit_str((day % 10) as u16));
    }
    proof {
        assert(s@ =~= day_text(day as int));
    }
    s
}


/// The first day of the month before the month of `d`.
pub open spec fn month_pred_spec(d: Date) -> Date {
    if d.month == 1 {
        Date { year: (d.year - 1) as u16, month: 12, day: 1 }
    } else {
        Date { year: d.year, month: (d.month - 1) as u8, day: 1 }
    }
}

/// Stepping a month start to the next month start advances the rank by the
/// month's length.
pub proof fn lemma_month_succ_index(d: Date)
    requires
        valid_date(d),
        d.day == 1,
        !(d.year == MAX_YEAR && d.month == 12),
    ensures
        valid_date(month_succ_spec(d)),
        month_succ_spec(d).day == 1,
        day_index(month_succ_spec(d)) == day_index(d) + month_length(d.year as int, d.month as int),
        28 <= month_length(d.year as int, d.month as int) <= 31,
{
    if d.month == 12 {
        assert(days_before_year(d.year as int + 1) == days_before_year(d.year as int)
            + days_in_year(d.year as int));
    }
}

pub proof fn lemma_month_pred_index(d: Date)
    requires
        valid_date(d),
        d.day == 1,
        !(d.year == MIN_YEAR && d.month == 1),
    ensures
        valid_date(month_pred_spec(d)),
        month_pred_spec(d).day == 1,
        day_index(d) == day_index(month_pred_spec(d)) + month_length(
            month_pred_spec(d).year as int,
            month_pred_spec(d).month as int,
        ),
        28 <= month_length(month_pred_spec(d).year as int, month_pred_spec(d).month as int) <= 31,
{
    if d.month == 1 {
        assert(days_before_year(d.year as int) == days_before_year(d.year as int - 1)
            + days_in_year(d.year as int - 1));
    }
}

/// A date whose rank falls inside a month belongs to that month, at the
/// day the rank difference gives.
pub proof fn lemma_month_floor(m: Date, x: Date)
    requires
        valid_date(m),
        m.day == 1,
        valid_date(x),
        day_index(m) <= day_index(x) < day_index(m) + month_length(m.year as int, m.month as int),
    ensures
        x.year == m.year,
        x.month == m.month,
        x.day == 1 + day_index(x) - day_index(m),
{
    let cand = Date {
        year: m.year,
        month: m.month,
        day: (1 + day_index(x) - day_index(m)) as u8,
    };
    lemma_day_index_injective(x, cand);
}

/// Relies on chrono::Local::now and chrono::Datelike (year, month, day)
/// for the current local calendar date; chrono documents month as 1..=12
/// and day as 1..=31. The clock decides the value, so nothing more is
/// promised of it.
#[verifier::external_body]
fn today_parts() -> (r: (i32, u8, u8))
    ensures
        1 <= r.1 <= 12,
        1 <= r.2 <= 31,
{
    let now = chrono::Local::now().date_naive();
    let y = chrono::Datelike::year(&now);
    let m = chrono::Datelike::month(&now) as u8;
    let d = chrono::Datelike::day(&now) as u8;
    (y, m, d)
}

/// The date that clamping the given parts into the supported range gives:
/// the year pulled into the supported years, the month kept, the day capped
/// at the clamped year's month length.
pub open spec fn clamped_date(y: int, m: int, d: int) -> Date {
    let year = if y < MIN_YEAR as int {
        MIN_YEAR as int
    } else if y > MAX_YEAR as int {
        MAX_YEAR as int
    } else {
        y
    };
    let day = if d > month_length(year, m) {
        month_length(year, m)
    } else {
        d
    };
    Date { year: year as u16, month: m as u8, day: day as u8 }
}

/// Build a date from externally supplied parts, clamping the year into the
/// supported range and the day into the resulting month.
pub fn date_from_parts(y: i32, m: u8, d: u8) -> (r: Date)
    requires
        1 <= m <= 12,
        1 <= d <= 31,
    ensures
        r == clamped_date(y as int, m as int, d as int),
        valid_date(r),
        r.month == m,
{
    let year: u16 = if y < MIN_YEAR as i32 {
        MIN_YEAR
    } else if y > MAX_YEAR as i32 {
        MAX_YEAR
    } else {
        y as u16
    };
    let ml = month_length_of(year, m);
    let day: u8 = if d > ml {
        ml
    } else {
        d
    };
    Date { year, month: m, day }
}

/// The current local date, clamped into the supported range.
pub fn today() -> (r: Date)
    ensures
        valid_date(r),
{
    let (y, m, d) = today_parts();
    date_from_parts(y, m, d)
}

} // verus!
