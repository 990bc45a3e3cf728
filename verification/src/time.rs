use vstd::prelude::*;

verus! {

/// Timestamps are microseconds since 1970-01-01T00:00:00Z. A timestamp is
/// representable when it lies between chrono's earliest instant
/// (-262143-01-01T00:00:00Z) and its latest (+262142-12-31T23:59:59.999999Z).
pub open spec fn representable(micros: i64) -> bool {
    -8_334_601_315_200_000_000 <= micros <= 8_210_266_876_799_999_999
}

/// Reads the current time with `chrono::Utc::now().timestamp_micros()`. The
/// result depends on the clock; the contract says only that it lies in the
/// range of `DateTime<Utc>`.
#[verifier::external_body]
pub(crate) fn now_micros() -> (t: i64)
    ensures
        representable(t),
{
    chrono::Utc::now().timestamp_micros()
}

/// A timestamp's UTC date and time as chrono's `DateTime::format` renders
/// it with `pattern`.
pub uninterp spec fn utc_format(micros: i64, pattern: Seq<char>) -> Seq<char>;

/// The patterns this crate formats dates with: each holds only specifiers
/// that chrono's `StrftimeItems` accepts, so rendering it cannot fail.
pub open spec fn known_pattern(pattern: Seq<char>) -> bool {
    pattern == "%d-%m-%Y"@ || pattern == "%Y-%m-%d %H:%M UTC"@
}

/// Formats the UTC time of `micros` with chrono:
/// `DateTime::from_timestamp_micros(micros)` then `.format(pattern)`. The
/// calendar arithmetic is chrono's; its result is named, not restated.
#[verifier::external_body]
pub(crate) fn format_utc(micros: i64, pattern: &str) -> (s: String)
    requires
        representable(micros),
        known_pattern(pattern@),
    ensures
        s@ == utc_format(micros, pattern@),
{
    match chrono::DateTime::from_timestamp_micros(micros) {
        Some(dt) => dt.format(pattern).to_string(),
        None => String::new(),
    }
}

/// The calendar date of a timestamp as `DD-MM-YYYY`.
pub open spec fn day_month_year(micros: i64) -> Seq<char> {
    utc_format(micros, "%d-%m-%Y"@)
}

/// The date and minute of a timestamp as `YYYY-MM-DD HH:MM UTC`.
pub open spec fn created_stamp(micros: i64) -> Seq<char> {
    utc_format(micros, "%Y-%m-%d %H:%M UTC"@)
}

/// Format a timestamp as `YYYY-MM-DD HH:MM UTC` (the creation time that
/// `project info` shows).
pub fn format_created(micros: i64) -> (s: String)
    requires
        representable(micros),
    ensures
        s@ == created_stamp(micros),
{
    format_utc(micros, "%Y-%m-%d %H:%M UTC")
}

/// Format a timestamp as its UTC date, `DD-MM-YYYY`.
pub fn format_day_month_year(micros: i64) -> (s: String)
    requires
        representable(micros),
    ensures
        s@ == day_month_year(micros),
{
    format_utc(micros, "%d-%m-%Y")
}

} // verus!
