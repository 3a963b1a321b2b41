//! Date ranges of the entries of a resume: a first month and, unless the
//! entry is current, a last month.

use crate::text::{find_char, first_index};
use chrono::{Datelike, NaiveDate};
use vstd::prelude::*;
use vstd::string::*;

verus! {

/// The first year that a date can have.
pub const MIN_YEAR: i32 = -262143;

/// The last year that a date can have.
pub const MAX_YEAR: i32 = 262142;

/// A month of a year.
#[derive(Clone, Copy, Debug, PartialEq, Eq, Structural)]
pub struct YearMonth {
    pub year: i32,
    /// The month, counted from 1.
    pub month: u32,
}

impl YearMonth {
    /// The month exists: it is one of the twelve, in a year that dates can
    /// have.
    pub open spec fn well_formed(&self) -> bool {
        MIN_YEAR <= self.year <= MAX_YEAR && 1 <= self.month <= 12
    }

    /// The month of the year, if it exists.
    pub fn new(year: i32, month: u32) -> (made: Option<YearMonth>)
        ensures
            match made {
                Some(m) => m.year == year && m.month == month && m.well_formed(),
                None => !(YearMonth { year, month }).well_formed(),
            },
    {
        if MIN_YEAR <= year && year <= MAX_YEAR && 1 <= month && month <= 12 {
            Some(YearMonth { year, month })
        } else {
            None
        }
    }
}

/// A span of months. A span without an end is still going on.
#[derive(Clone, Copy, Debug, PartialEq, Eq, Structural)]
pub struct DateRange {
    pub start: YearMonth,
    pub end: Option<YearMonth>,
}

/// Why a text is no date range.
#[derive(Debug)]
pub enum ConfigError {
    /// The text does not hold two dates, the second of which may be empty,
    /// with one tilde between them.
    DateRange,
    /// The text between or beside the tildes is no month of a year; it holds
    /// that text.
    Date(String),
}

/// The year and month of the date that a text denotes under a format of the
/// date library, or `None` where it denotes no date.
pub uninterp spec fn parsed_date(text: Seq<char>, format: Seq<char>) -> Option<(i32, u32)>;

/// The text that the date library writes for the first day of a month under
/// a format.
pub uninterp spec fn formatted_date(year: i32, month: u32, format: Seq<char>) -> Seq<char>;

/// Calls `chrono::NaiveDate::parse_from_str` and takes the year and the
/// month of the date with `Datelike::year` and `Datelike::month`. The
/// contract claims that the outcome is a function of text and format, that
/// the month is between 1 and 12 and that the year is one that
/// `NaiveDate::MIN` and `NaiveDate::MAX` allow.
#[verifier::external_body]
fn parse_date(text: &str, format: &str) -> (date: Option<YearMonth>)
    ensures
        match date {
            Some(m) => parsed_date(text@, format@) == Some((m.year, m.month)) && m.well_formed(),
            None => parsed_date(text@, format@) is None,
        },
{
    NaiveDate::parse_from_str(text, format).ok().map(
        |date| YearMonth { year: date.year(), month: date.month() },
    )
}

/// Makes the first day of the month with `chrono::NaiveDate::from_ymd_opt`
/// and writes it with `NaiveDate::format`. The contract claims only that the
/// text is a function of year, month and format. The month has to exist, and
/// the format has to be one of the two that the library uses, for no other
/// is known to be well formed.
#[verifier::external_body]
fn format_date(month: &YearMonth, format: &str) -> (text: String)
    requires
        month.well_formed(),
        format@ == "%b,&nbsp;%Y"@ || format@ == "%Y-%m"@,
    ensures
        text@ == formatted_date(month.year, month.month, format@),
{
    NaiveDate::from_ymd_opt(month.year, month.month, 1).map(
        |date| date.format(format).to_string(),
    ).unwrap_or_default()
}

/// The two parts of a text that holds exactly one tilde: what stands before
/// the tilde and what stands after it.
pub open spec fn two_parts(s: Seq<char>) -> Option<(Seq<char>, Seq<char>)> {
    let i = first_index(s, '~');
    if i < s.len() && first_index(s.subrange(i + 1, s.len() as int), '~') == s.len() - i - 1 {
        Some((s.subrange(0, i), s.subrange(i + 1, s.len() as int)))
    } else {
        None
    }
}

/// The month that a text of year, hyphen and month denotes: the date that
/// the text denotes once the first day is added to it.
pub open spec fn parsed_month(text: Seq<char>) -> Option<YearMonth> {
    match parsed_date(text + "-01"@, "%Y-%m-%d"@) {
        Some((year, month)) => Some(YearMonth { year, month }),
        None => None,
    }
}

/// What reading a text as a date range gives.
pub enum ParsedRange {
    /// The range that the text denotes.
    Range(DateRange),
    /// The text does not hold exactly one tilde.
    NotTwoDates,
    /// This part of the text denotes no month.
    NoMonth(Seq<char>),
}

/// What the two parts of a text give, once each has been read as a month:
/// the range from the first month to the second, or the range without an
/// end where the second part is empty. A part that is no month is told,
/// the first before the second.
pub open spec fn range_of(
    first: Seq<char>,
    start: Option<YearMonth>,
    last: Seq<char>,
    end: Option<YearMonth>,
) -> ParsedRange {
    match start {
        None => ParsedRange::NoMonth(first),
        Some(start) => if last.len() == 0 {
            ParsedRange::Range(DateRange { start, end: None })
        } else {
            match end {
                None => ParsedRange::NoMonth(last),
                Some(end) => ParsedRange::Range(DateRange { start, end: Some(end) }),
            }
        },
    }
}

/// The date range that a text denotes: a month, a tilde, and a month or
/// nothing.
pub open spec fn parsed_range(s: Seq<char>) -> ParsedRange {
    match two_parts(s) {
        None => ParsedRange::NotTwoDates,
        Some((first, last)) => range_of(first, parsed_month(first), last, parsed_month(last)),
    }
}

/// A range as it is shown: the first month, then the last month or
/// `Current` for a range that is still going on.
pub open spec fn shown_range(start: Seq<char>, end: Option<Seq<char>>) -> Seq<char> {
    start + " - "@ + (match end {
        Some(e) => e,
        None => "Current"@,
    })
}

/// A range as it is stored: the first month, a tilde, and the last month or
/// nothing for a range that is still going on.
pub open spec fn stored_range(start: Seq<char>, end: Option<Seq<char>>) -> Seq<char> {
    start + "~"@ + (match end {
        Some(e) => e,
        None => Seq::empty(),
    })
}

/// The text of a month under a format, where there is a month.
pub open spec fn formatted_month(month: Option<YearMonth>, format: Seq<char>) -> Option<Seq<char>> {
    match month {
        Some(m) => Some(formatted_date(m.year, m.month, format)),
        None => None,
    }
}

/// Splits a text at its tilde, if it holds exactly one.
pub fn split_range(s: &str) -> (parts: Option<(String, String)>)
    ensures
        parts.deep_view() == two_parts(s@),
{
    let n = s.unicode_len();
    let i = find_char(s, '~', 0);
    assert(s@.subrange(0, n as int) =~= s@);
    if i >= n {
        return None;
    }
    let j = find_char(s, '~', i + 1);
    if j < n {
        return None;
    }
    let first = String::from_str(s.substring_char(0, i));
    let last = String::from_str(s.substring_char(i + 1, n));
    Some((first, last))
}

/// Reads a text of year, hyphen and month as a month.
pub fn read_month(text: &str) -> (month: Option<YearMonth>)
    ensures
        month == parsed_month(text@),
        month is Some ==> month.unwrap().well_formed(),
{
    let mut day = String::from_str(text);
    day.append("-01");
    parse_date(day.as_str(), "%Y-%m-%d")
}

/// Makes the range of two parts that have been read as months. `first` and
/// `last` are the parts as they were written.
pub fn range_from_months(
    first: &str,
    start: Option<YearMonth>,
    last: &str,
    end: Option<YearMonth>,
) -> (range: Result<DateRange, ConfigError>)
    ensures
        match range {
            Ok(r) => range_of(first@, start, last@, end) == ParsedRange::Range(r),
            Err(ConfigError::DateRange) => false,
            Err(ConfigError::Date(bad)) => range_of(first@, start, last@, end)
                == ParsedRange::NoMonth(bad@),
        },
{
    match start {
        None => Err(ConfigError::Date(String::from_str(first))),
        Some(start) => {
            if last.unicode_len() == 0 {
                Ok(DateRange { start, end: None })
            } else {
                match end {
                    None => Err(ConfigError::Date(String::from_str(last))),
                    Some(end) => Ok(DateRange { start, end: Some(end) }),
                }
            }
        },
    }
}

/// Writes a range as it is shown, from the texts of its months.
pub fn show_range(start: &str, end: Option<&String>) -> (text: String)
    ensures
        text@ == shown_range(start@, end.deep_view()),
{
    let mut text = String::from_str(start);
    text.append(" - ");
    match end {
        Some(e) => text.append(e.as_str()),
        None => text.append("Current"),
    }
    text
}

/// Writes a range as it is stored, from the texts of its months.
pub fn store_range(start: &str, end: Option<&String>) -> (text: String)
    ensures
        text@ == stored_range(start@, end.deep_view()),
{
    let mut text = String::from_str(start);
    text.append("~");
    match end {
        Some(e) => text.append(e.as_str()),
        None => {},
    }
    assert(text@ =~= stored_range(start@, end.deep_view()));
    text
}

impl DateRange {
    /// Both months exist.
    pub open spec fn well_formed(&self) -> bool {
        self.start.well_formed() && (self.end is Some ==> self.end.unwrap().well_formed())
    }

    /// Reads a date range: a month, a tilde, and a month or nothing, each
    /// month written as year, hyphen, month.
    pub fn from_str(s: &str) -> (range: Result<DateRange, ConfigError>)
        ensures
            match range {
                Ok(r) => parsed_range(s@) == ParsedRange::Range(r) && r.well_formed(),
                Err(ConfigError::DateRange) => parsed_range(s@) == ParsedRange::NotTwoDates,
                Err(ConfigError::Date(bad)) => parsed_range(s@) == ParsedRange::NoMonth(bad@),
            },
    {
        match split_range(s) {
            None => Err(ConfigError::DateRange),
            Some((first, last)) => {
                let start = read_month(first.as_str());
                let end = if last.as_str().unicode_len() == 0 {
                    None
                } else {
                    read_month(last.as_str())
                };
                range_from_months(first.as_str(), start, last.as_str(), end)
            },
        }
    }

    fn month_texts(&self, format: &str) -> (texts: (String, Option<String>))
        requires
            self.well_formed(),
            format@ == "%b,&nbsp;%Y"@ || format@ == "%Y-%m"@,
        ensures
            texts.0@ == formatted_date(self.start.year, self.start.month, format@),
            texts.1.deep_view() == formatted_month(self.end, format@),
    {
        let start = format_date(&self.start, format);
        let end = match &self.end {
            Some(end) => Some(format_date(end, format)),
            None => None,
        };
        (start, end)
    }

    /// The range as it is shown: the months by name and year, or `Current`
    /// in place of the end of a range that is still going on.
    pub fn to_resume_string(&self) -> (text: String)
        requires
            self.well_formed(),
        ensures
            text@ == shown_range(
                formatted_date(self.start.year, self.start.month, "%b,&nbsp;%Y"@),
                formatted_month(self.end, "%b,&nbsp;%Y"@),
            ),
    {
        let (start, end) = self.month_texts("%b,&nbsp;%Y");
        show_range(start.as_str(), end.as_ref())
    }

    /// The range as it is stored: the months as year, hyphen, month, with a
    /// tilde between them; nothing follows the tilde of a range that is
    /// still going on.
    pub fn to_text(&self) -> (text: String)
        requires
            self.well_formed(),
        ensures
            text@ == stored_range(
                formatted_date(self.start.year, self.start.month, "%Y-%m"@),
                formatted_month(self.end, "%Y-%m"@),
            ),
    {
        let (start, end) = self.month_texts("%Y-%m");
        store_range(start.as_str(), end.as_ref())
    }
}

} // verus!
