//! Date widget: cycles through a fixed set of strftime-style format
//! strings and renders the current local date with the selected one.

use vstd::prelude::*;
use vstd::string::*;

verus! {

#[derive(Copy, Clone, Debug, PartialEq, Eq, Structural)]
pub enum DateFormat {
    MonthDateYear,
    YearMonthDate,
    DateMonthYear,
    DayDateMonthYear,
}

/// The format that follows `f` in the cycle
/// MonthDateYear -> YearMonthDate -> DateMonthYear -> DayDateMonthYear -> ...
pub open spec fn spec_next_format(f: DateFormat) -> DateFormat {
    match f {
        DateFormat::MonthDateYear => DateFormat::YearMonthDate,
        DateFormat::YearMonthDate => DateFormat::DateMonthYear,
        DateFormat::DateMonthYear => DateFormat::DayDateMonthYear,
        DateFormat::DayDateMonthYear => DateFormat::MonthDateYear,
    }
}

/// The strftime-style format string that each `DateFormat` stands for.
pub open spec fn spec_fmt_string(f: DateFormat) -> Seq<char> {
    match f {
        DateFormat::MonthDateYear => "%D"@,
        DateFormat::YearMonthDate => "%F"@,
        DateFormat::DateMonthYear => "%v"@,
        DateFormat::DayDateMonthYear => "%A %e %B %Y"@,
    }
}

impl DateFormat {
    /// Advances `self` to the next format in the cycle.
    pub fn next(&mut self)
        ensures
            *final(self) == spec_next_format(*old(self)),
    {
        match *self {
            DateFormat::MonthDateYear => *self = Self::YearMonthDate,
            DateFormat::YearMonthDate => *self = Self::DateMonthYear,
            DateFormat::DateMonthYear => *self = Self::DayDateMonthYear,
            DateFormat::DayDateMonthYear => *self = Self::MonthDateYear,
        };
    }

    /// The format string handed to the date renderer.
    pub fn fmt_string(&self) -> (r: String)
        ensures
            r@ == spec_fmt_string(*self),
    {
        match *self {
            DateFormat::MonthDateYear => String::from_str("%D"),
            DateFormat::YearMonthDate => String::from_str("%F"),
            DateFormat::DateMonthYear => String::from_str("%v"),
            DateFormat::DayDateMonthYear => String::from_str("%A %e %B %Y"),
        }
    }
}

#[derive(Copy, Clone, Debug)]
pub struct Date {
    pub enable: bool,
    pub format: DateFormat,
}

/// Relies on chrono::Local::now and chrono::DateTime::format: renders the
/// current local time per the given strftime format string. The result
/// depends on the wall clock, so nothing is promised of it. Restricted to
/// the format strings `DateFormat` produces: on a full local datetime each
/// of their specifiers is valid, so chrono's formatting cannot fail.
#[verifier::external_body]
fn format_local_now(fmt: &str) -> String
    requires
        fmt@ == spec_fmt_string(DateFormat::MonthDateYear)
            || fmt@ == spec_fmt_string(DateFormat::YearMonthDate)
            || fmt@ == spec_fmt_string(DateFormat::DateMonthYear)
            || fmt@ == spec_fmt_string(DateFormat::DayDateMonthYear),
{
    chrono::Local::now().format(fmt).to_string()
}

impl Date {
    pub fn new(enable: bool, format: DateFormat) -> (r: Self)
        ensures
            r.enable == enable,
            r.format == format,
    {
        Self { enable, format }
    }

    /// Renders the current local date: one line, in the configured format.
    pub fn output(&mut self) -> (r: Vec<String>)
        ensures
            *final(self) == *old(self),
            r@.len() == 1,
    {
        let fmt = self.format.fmt_string();
        let rendered = format_local_now(fmt.as_str());
        let mut lines: Vec<String> = Vec::new();
        lines.push(rendered);
        lines
    }
}

} // verus!
