use vstd::prelude::*;

verus! {

/// A point in time as microseconds since the Unix epoch, UTC.
#[derive(Clone, Copy, PartialEq, Eq, Structural, Debug)]
pub struct Timestamp {
    pub micros: i64,
}

/// The textual form of a timestamp that clients send as a page cursor.
pub const TIMESTAMP_FORMAT: &'static str = "%Y-%m-%d %H:%M:%S%.6f";

/// What chrono's `NaiveDateTime::parse_from_str(text, format)` gives, as microseconds
/// since the epoch; `None` where the text does not match the format.
pub uninterp spec fn parsed_datetime_of(text: Seq<char>, format: Seq<char>) -> Option<i64>;

/// What chrono prints for the instant `micros` (`NaiveDateTime`'s `Display`); `None`
/// where the instant lies outside chrono's range.
pub uninterp spec fn datetime_text_of(micros: i64) -> Option<Seq<char>>;

/// Relies on chrono's `NaiveDateTime::parse_from_str`, read as UTC: the result depends
/// on the text and the format alone.
#[verifier::external_body]
fn parse_datetime(text: &str, format: &str) -> (r: Option<i64>)
    ensures
        r == parsed_datetime_of(text@, format@),
{
    match chrono::NaiveDateTime::parse_from_str(text, format) {
        Ok(t) => Some(t.and_utc().timestamp_micros()),
        Err(_) => None,
    }
}

/// Relies on chrono's `DateTime::from_timestamp_micros` and the `Display` of
/// `NaiveDateTime`: the text depends on the instant alone.
#[verifier::external_body]
fn format_datetime(micros: i64) -> (r: Option<String>)
    ensures
        match r {
            Some(s) => datetime_text_of(micros) == Some(s@),
            None => datetime_text_of(micros) is None,
        },
{
    match chrono::DateTime::from_timestamp_micros(micros) {
        Some(t) => Some(t.naive_utc().to_string()),
        None => None,
    }
}

/// Relies on chrono's `Utc::now`: the current time, of which nothing is promised.
#[verifier::external_body]
fn now_micros() -> (r: i64) {
    chrono::Utc::now().timestamp_micros()
}

/// The current time.
pub fn now() -> (r: Timestamp) {
    Timestamp { micros: now_micros() }
}

/// Reads a page cursor written as `TIMESTAMP_FORMAT`; `None` where it does not parse.
pub fn parse_timestamp(timestamp_str: &str) -> (r: Option<Timestamp>)
    ensures
        match r {
            Some(t) => parsed_datetime_of(timestamp_str@, TIMESTAMP_FORMAT@) == Some(t.micros),
            None => parsed_datetime_of(timestamp_str@, TIMESTAMP_FORMAT@) is None,
        },
{
    match parse_datetime(timestamp_str, TIMESTAMP_FORMAT) {
        Some(m) => Some(Timestamp { micros: m }),
        None => None,
    }
}

/// The timestamp as text, or an empty text where it lies outside the representable range.
pub fn timestamp_text(t: Timestamp) -> (r: String)
    ensures
        match datetime_text_of(t.micros) {
            Some(s) => r@ == s,
            None => r@ == Seq::<char>::empty(),
        },
{
    match format_datetime(t.micros) {
        Some(s) => s,
        None => String::new(),
    }
}

} // verus!
