//! Declarations of the outside types and calls that the store relies on.

use chrono::Datelike;
use vstd::prelude::*;

verus! {

/// A JSON value; the store keeps section grade weights in this form.
#[verifier::external_type_specification]
#[verifier::external_body]
pub struct ExJsonValue(serde_json::Value);

/// `serde_json::Value`'s `Clone` is derived: the copy equals the value it was made from.
pub assume_specification[ <serde_json::Value as Clone>::clone ](v: &serde_json::Value) -> (r: serde_json::Value)
    ensures
        r == *v,
;

} // verus!

verus! {

// ── clock ───────────────────────────────────────────────────────────────────

/// The current time, `chrono::Utc::now().timestamp_micros()`: microseconds
/// since the Unix epoch. Nothing is claimed of the value (it depends on the
/// system clock, and chrono panics when that clock reads before the epoch).
#[verifier::external_body]
pub fn now_micros() -> (r: i64) {
    chrono::Utc::now().timestamp_micros()
}

// ── random identifiers ──────────────────────────────────────────────────────

/// A lower-case hexadecimal digit.
pub open spec fn is_lower_hex(c: char) -> bool {
    ('0' <= c <= '9') || ('a' <= c <= 'f')
}

/// A fresh random version-4 UUID in uuid's "simple" format,
/// `uuid::Uuid::new_v4().simple().to_string()`. The crate writes that format
/// as exactly 32 lower-case hexadecimal digits; which digits come out is
/// chance, and nothing is claimed of them.
#[verifier::external_body]
pub fn random_uuid_simple() -> (r: String)
    ensures
        r@.len() == 32,
        forall|i: int| 0 <= i < 32 ==> is_lower_hex(#[trigger] r@[i]),
{
    uuid::Uuid::new_v4().simple().to_string()
}

// ── calendar dates ──────────────────────────────────────────────────────────

/// Leap years of the proleptic Gregorian calendar.
pub open spec fn is_leap_year(y: int) -> bool {
    (y % 4 == 0 && y % 100 != 0) || y % 400 == 0
}

pub open spec fn days_in_month(y: int, m: int) -> int {
    if m == 2 {
        if is_leap_year(y) {
            29
        } else {
            28
        }
    } else if m == 4 || m == 6 || m == 9 || m == 11 {
        30
    } else {
        31
    }
}

/// Whether year `y`, month `m`, day `d` is a date that chrono's `NaiveDate`
/// represents: a real calendar day in a year from -262143 to 262142.
pub open spec fn calendar_date_exists(y: int, m: int, d: int) -> bool {
    &&& -262143 <= y <= 262142
    &&& 1 <= m <= 12
    &&& 1 <= d <= days_in_month(y, m)
}

/// `chrono::NaiveDate::from_ymd_opt(year, month, day).is_some()`. chrono
/// returns `None` exactly when the day does not exist in the proleptic
/// Gregorian calendar or the year lies outside -262143..=262142 (its
/// `MIN_YEAR`/`MAX_YEAR`).
#[verifier::external_body]
pub fn ymd_exists(year: i32, month: u32, day: u32) -> (r: bool)
    ensures
        r == calendar_date_exists(year as int, month as int, day as int),
{
    chrono::NaiveDate::from_ymd_opt(year, month, day).is_some()
}

/// What `chrono::NaiveDate::parse_from_str(s, "%Y-%m-%d")` yields for the
/// text `s`: the year, month and day of the parsed date, or `None` when the
/// text is refused.
pub uninterp spec fn iso_date_parse(s: Seq<char>) -> Option<(int, int, int)>;

/// Parses `s` with chrono's `NaiveDate::parse_from_str(s, "%Y-%m-%d")` and
/// returns the date's year, month and day. The result is the one that
/// `iso_date_parse` names; a parsed `NaiveDate` is always a date that exists.
#[verifier::external_body]
pub fn parse_iso_date(s: &str) -> (r: Option<crate::types::Date>)
    ensures
        match r {
            Some(d) => iso_date_parse(s@) == Some((d.year as int, d.month as int, d.day as int))
                && calendar_date_exists(d.year as int, d.month as int, d.day as int),
            None => iso_date_parse(s@) is None,
        },
{
    match chrono::NaiveDate::parse_from_str(s, "%Y-%m-%d") {
        Ok(d) => Some(crate::types::Date { year: d.year(), month: d.month(), day: d.day() }),
        Err(_) => None,
    }
}

// ── JSON ────────────────────────────────────────────────────────────────────

/// The JSON value that `serde_json::from_str::<serde_json::Value>` reads
/// from a text, `Value::Null` for text that is not JSON. Parsing depends on
/// the text alone, so equal texts give equal values; "{}" gives the empty
/// object.
pub uninterp spec fn parsed_json(text: Seq<char>) -> serde_json::Value;

/// `serde_json::from_str::<serde_json::Value>(text)`, with `Value::Null`
/// for text that is not JSON: the value that `parsed_json` names. What the
/// value holds is not stated further: a `serde_json::Value` is opaque to the
/// verified code, which only carries it through.
#[verifier::external_body]
pub fn json_from_text(text: &str) -> (r: serde_json::Value)
    ensures
        r == parsed_json(text@),
{
    match serde_json::from_str::<serde_json::Value>(text) {
        Ok(v) => v,
        Err(_) => serde_json::Value::Null,
    }
}

// ── Unicode case mapping ────────────────────────────────────────────────────

/// What std's `str::to_lowercase` yields for a string (Unicode lower-case
/// mapping, with the final-sigma rule).
pub uninterp spec fn lowercase(s: Seq<char>) -> Seq<char>;

/// `str::to_lowercase`: the Unicode lower-case form of `s`, as `lowercase`
/// names it.
#[verifier::external_body]
pub fn to_lowercase(s: &str) -> (r: String)
    ensures
        r@ == lowercase(s@),
{
    s.to_lowercase()
}

/// What std's `char::to_uppercase` yields for a character: its Unicode
/// upper-case mapping, one or more characters.
pub uninterp spec fn uppercase_char(c: char) -> Seq<char>;

/// `char::to_uppercase(c)` collected into a string, as `uppercase_char`
/// names it. std documents that a character without an upper-case form maps
/// to itself, so the mapping is never empty.
#[verifier::external_body]
pub fn char_to_uppercase(c: char) -> (r: String)
    ensures
        r@ == uppercase_char(c),
        r@.len() >= 1,
{
    c.to_uppercase().collect()
}

} // verus!
