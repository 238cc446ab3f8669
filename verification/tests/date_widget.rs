use komorebi_bar::date::Date;
use komorebi_bar::date::DateFormat;

#[test]
fn format_cycle_returns_to_start() {
    let mut f = DateFormat::MonthDateYear;
    f.next();
    assert!(matches!(f, DateFormat::YearMonthDate));
    f.next();
    assert!(matches!(f, DateFormat::DateMonthYear));
    f.next();
    assert!(matches!(f, DateFormat::DayDateMonthYear));
    f.next();
    assert!(matches!(f, DateFormat::MonthDateYear));
}

#[test]
fn format_strings() {
    assert_eq!(DateFormat::MonthDateYear.fmt_string(), "%D");
    assert_eq!(DateFormat::YearMonthDate.fmt_string(), "%F");
    assert_eq!(DateFormat::DateMonthYear.fmt_string(), "%v");
    assert_eq!(DateFormat::DayDateMonthYear.fmt_string(), "%A %e %B %Y");
}

#[test]
fn new_stores_fields() {
    let d = Date::new(true, DateFormat::YearMonthDate);
    assert!(d.enable);
    assert!(matches!(d.format, DateFormat::YearMonthDate));
}

#[test]
fn output_renders_one_line() {
    let mut d = Date::new(true, DateFormat::MonthDateYear);
    let lines = d.output();
    assert_eq!(lines.len(), 1);
    // The renderer must actually format: "%D" expands to a date, never to
    // the format string itself.
    assert_ne!(lines[0], "%D");
    assert!(!lines[0].is_empty());
}

#[test]
fn output_year_month_date_shape() {
    // "%F" renders as YYYY-MM-DD: ten ASCII characters with dashes.
    let mut d = Date::new(true, DateFormat::YearMonthDate);
    let lines = d.output();
    let s = &lines[0];
    assert_eq!(s.len(), 10);
    assert_eq!(s.as_bytes()[4], b'-');
    assert_eq!(s.as_bytes()[7], b'-');
}
