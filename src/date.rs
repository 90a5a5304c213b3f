//! Entry dates: UTC calendar fields, their order, and their text forms.
use vstd::prelude::*;
use chrono::Datelike;
use chrono::Timelike;

verus! {

/// The pattern a `date` directive is read with, e.g. `05 Jan 2024 10:00:00 +0000`.
pub const DATE_PATTERN: &'static str = "%d %b %Y %H:%M:%S %z";

/// An instant as UTC calendar date and time of day.
#[derive(Clone, Copy, Debug, PartialEq, Eq, Structural)]
pub struct EntryDate {
    pub year: i32,
    pub month: u32,
    pub day: u32,
    pub hour: u32,
    pub minute: u32,
    pub second: u32,
    /// Above 999_999_999 only during a leap second.
    pub nanosecond: u32,
}

/// Whether `year` is a leap year of the Gregorian calendar.
pub open spec fn is_leap_year(year: int) -> bool {
    (year % 4 == 0 && year % 100 != 0) || year % 400 == 0
}

/// Number of days in `month` of `year`.
pub open spec fn days_in_month(year: int, month: int) -> int {
    if month == 2 {
        if is_leap_year(year) {
            29
        } else {
            28
        }
    } else if month == 4 || month == 6 || month == 9 || month == 11 {
        30
    } else {
        31
    }
}

/// Whether `a` comes no later than `b`.
pub open spec fn not_later(a: EntryDate, b: EntryDate) -> bool {
    if a.year != b.year {
        a.year < b.year
    } else if a.month != b.month {
        a.month < b.month
    } else if a.day != b.day {
        a.day < b.day
    } else if a.hour != b.hour {
        a.hour < b.hour
    } else if a.minute != b.minute {
        a.minute < b.minute
    } else if a.second != b.second {
        a.second < b.second
    } else {
        a.nanosecond <= b.nanosecond
    }
}

impl EntryDate {
    /// A real calendar date and time of day, leap seconds included.
    pub open spec fn is_calendar_valid(&self) -> bool {
        &&& 1 <= self.month <= 12
        &&& 1 <= self.day <= days_in_month(self.year as int, self.month as int)
        &&& self.hour < 24
        &&& self.minute < 60
        &&& self.second < 60
        &&& self.nanosecond < 2_000_000_000
        &&& self.nanosecond >= 1_000_000_000 ==> self.second == 59
    }

    /// A valid date within the years 0 to 9999, which RFC 2822 can write.
    pub open spec fn wf(&self) -> bool {
        self.is_calendar_valid() && 0 <= self.year <= 9999
    }
}

/// Whether `a` comes no later than `b`.
pub fn is_not_later(a: &EntryDate, b: &EntryDate) -> (r: bool)
    ensures
        r == not_later(*a, *b),
{
    if a.year != b.year {
        a.year < b.year
    } else if a.month != b.month {
        a.month < b.month
    } else if a.day != b.day {
        a.day < b.day
    } else if a.hour != b.hour {
        a.hour < b.hour
    } else if a.minute != b.minute {
        a.minute < b.minute
    } else if a.second != b.second {
        a.second < b.second
    } else {
        a.nanosecond <= b.nanosecond
    }
}

/// The date that `text` denotes under `pattern`, read in UTC, or the reason
/// it does not parse.
pub uninterp spec fn parsed_date(text: Seq<char>, pattern: Seq<char>) -> Result<EntryDate, Seq<char>>;

/// The text chrono writes for `d` under the strftime `pattern`.
pub uninterp spec fn formatted_date(d: EntryDate, pattern: Seq<char>) -> Seq<char>;

/// The RFC 2822 text of `d`, as chrono writes it.
pub uninterp spec fn rfc2822_of(d: EntryDate) -> Seq<char>;

/// Relies on chrono's `DateTime::parse_from_str` and `naive_utc`, and on the
/// `Display` of its `ParseError`: the outcome depends on the text and
/// pattern alone, and a parsed value is a valid calendar date and time.
#[verifier::external_body]
fn parse_date(text: &str, pattern: &str) -> (r: Result<EntryDate, String>)
    ensures
        match r {
            Ok(d) => parsed_date(text@, pattern@) == Ok::<EntryDate, Seq<char>>(d)
                && d.is_calendar_valid(),
            Err(reason) => parsed_date(text@, pattern@) == Err::<EntryDate, Seq<char>>(reason@),
        },
{
    let parsed = chrono::DateTime::parse_from_str(text, pattern).map_err(|e| e.to_string())?;
    let u = parsed.naive_utc();
    Ok(EntryDate {
        year: u.year(),
        month: u.month(),
        day: u.day(),
        hour: u.hour(),
        minute: u.minute(),
        second: u.second(),
        nanosecond: u.nanosecond(),
    })
}

/// The reason a date did not parse.
pub enum DateProblem {
    /// chrono refused the text; its reason.
    Unparsable { reason: String },
    /// The date parsed but lies outside the years 0 to 9999.
    OutOfRange,
}

/// `text` read under `DATE_PATTERN` in UTC; refused when it does not parse
/// or its year lies outside 0 to 9999.
pub fn read_date(text: &str) -> (r: Result<EntryDate, DateProblem>)
    ensures
        match parsed_date(text@, DATE_PATTERN@) {
            Err(why) => r matches Err(DateProblem::Unparsable { reason }) && reason@ == why,
            Ok(d) => if d.wf() {
                r == Ok::<EntryDate, DateProblem>(d)
            } else {
                r matches Err(DateProblem::OutOfRange)
            },
        },
        r matches Ok(d) ==> d.wf(),
{
    match parse_date(text, DATE_PATTERN) {
        Err(reason) => Err(DateProblem::Unparsable { reason }),
        Ok(d) => {
            if 0 <= d.year && d.year <= 9999 {
                Ok(d)
            } else {
                Err(DateProblem::OutOfRange)
            }
        },
    }
}

/// Relies on chrono's `NaiveDate::from_ymd_opt`, `and_hms_nano_opt` and
/// `DateTime::format`: the text depends on the date and pattern alone, and a
/// valid date with one of the patterns of `human_pattern` formats without
/// error.
#[verifier::external_body]
fn format_date(d: &EntryDate, pattern: &str) -> (r: String)
    requires
        d.wf(),
        exists|day: u32| pattern@ == human_pattern(day),
    ensures
        r@ == formatted_date(*d, pattern@),
{
    let date = chrono::NaiveDate::from_ymd_opt(d.year, d.month, d.day).unwrap();
    let time = date.and_hms_nano_opt(d.hour, d.minute, d.second, d.nanosecond).unwrap();
    time.and_utc().format(pattern).to_string()
}

/// Relies on chrono's `DateTime::to_rfc2822`, which writes any UTC date in
/// the years 0 to 9999 and depends on the date alone.
#[verifier::external_body]
fn to_rfc2822(d: &EntryDate) -> (r: String)
    requires
        d.wf(),
    ensures
        r@ == rfc2822_of(*d),
{
    let date = chrono::NaiveDate::from_ymd_opt(d.year, d.month, d.day).unwrap();
    let time = date.and_hms_nano_opt(d.hour, d.minute, d.second, d.nanosecond).unwrap();
    time.and_utc().to_rfc2822()
}

/// The strftime pattern for a human-readable date: days 1, 2 and 3 get
/// `st`, `nd` and `rd`, every other day `th`.
pub open spec fn human_pattern(day: u32) -> Seq<char> {
    if day == 1 {
        "%A the 1st of %B %Y"@
    } else if day == 2 {
        "%A the 2nd of %B %Y"@
    } else if day == 3 {
        "%A the 3rd of %B %Y"@
    } else {
        "%A the %eth of %B %Y"@
    }
}

/// The strftime pattern for a human-readable date on `day` of the month.
pub fn human_pattern_for(day: u32) -> (r: &'static str)
    ensures
        r@ == human_pattern(day),
{
    if day == 1 {
        "%A the 1st of %B %Y"
    } else if day == 2 {
        "%A the 2nd of %B %Y"
    } else if day == 3 {
        "%A the 3rd of %B %Y"
    } else {
        "%A the %eth of %B %Y"
    }
}

/// The human-readable form of `d`, such as `Friday the 5th of January 2024`.
pub open spec fn human_text(d: EntryDate) -> Seq<char> {
    formatted_date(d, human_pattern(d.day))
}

/// `d` written for readers, with the day's ordinal suffix.
pub fn human_date(d: &EntryDate) -> (r: String)
    requires
        d.wf(),
    ensures
        r@ == human_text(*d),
{
    let pattern = human_pattern_for(d.day);
    format_date(d, pattern)
}

/// `d` written as RFC 2822 requires, for feeds.
pub fn rfc2822_date(d: &EntryDate) -> (r: String)
    requires
        d.wf(),
    ensures
        r@ == rfc2822_of(*d),
{
    to_rfc2822(d)
}

} // verus!
