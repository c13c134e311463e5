//! One looked-up zone: the fields of the service's answer that the clock
//! reads, and the table row made from them.
use vstd::prelude::*;
use vstd::string::*;
use crate::offset::{offset_of_text, parse_offset};

verus! {

/// The fields of one decoded answer of the time zone service.
pub struct TimezoneRecord {
    /// The zone's name as the service echoes it back.
    pub zone_id: String,
    /// Hour on a 12-hour clock, zero-padded.
    pub hour_12: String,
    pub minutes: String,
    pub seconds: String,
    /// `AM` or `PM`.
    pub am_pm: String,
    /// Whole hours east of UTC, as decimal text.
    pub offset_hours: String,
}

/// One line of the output table.
pub struct OutputRow {
    pub offset: i8,
    pub time_zone: String,
    pub current_time: String,
}

/// Why one zone produced no row.
#[derive(Clone, Copy, Debug, PartialEq, Eq, Structural)]
pub enum FetchError {
    /// The request did not complete.
    Transport,
    /// The body was not an answer of the expected shape.
    Decode,
    /// The offset field is not a signed 8-bit decimal.
    InvalidOffset,
}

/// The time of day as the table shows it: `HH:MM:SS AM`.
pub open spec fn clock_text(
    hour: Seq<char>,
    minutes: Seq<char>,
    seconds: Seq<char>,
    am_pm: Seq<char>,
) -> Seq<char> {
    hour + ":"@ + minutes + ":"@ + seconds + " "@ + am_pm
}

/// `row` is the row that `rec` gives, with offset `k`.
pub open spec fn row_of(rec: TimezoneRecord, row: OutputRow, k: i8) -> bool {
    &&& row.offset == k
    &&& row.time_zone == rec.zone_id
    &&& row.current_time@ == clock_text(rec.hour_12@, rec.minutes@, rec.seconds@, rec.am_pm@)
}

/// `out` is what one fetch outcome `resp` turns into: the fetch's own error,
/// an offset error, or the row.
pub open spec fn outcome_of(
    resp: Result<TimezoneRecord, FetchError>,
    out: Result<OutputRow, FetchError>,
) -> bool {
    match resp {
        Err(e) => out == Err::<OutputRow, FetchError>(e),
        Ok(rec) => match offset_of_text(rec.offset_hours@) {
            None => out == Err::<OutputRow, FetchError>(FetchError::InvalidOffset),
            Some(k) => out is Ok && row_of(rec, out->Ok_0, k),
        },
    }
}

/// Renders the time of day of a record.
pub fn format_time(rec: &TimezoneRecord) -> (r: String)
    ensures
        r@ == clock_text(rec.hour_12@, rec.minutes@, rec.seconds@, rec.am_pm@),
{
    let mut r = String::new();
    r.append(rec.hour_12.as_str());
    r.append(":");
    r.append(rec.minutes.as_str());
    r.append(":");
    r.append(rec.seconds.as_str());
    r.append(" ");
    r.append(rec.am_pm.as_str());
    r
}

impl OutputRow {
    /// The row of a decoded answer; its zone is the one the answer names.
    pub fn from_record(rec: TimezoneRecord) -> (r: Result<OutputRow, FetchError>)
        ensures
            outcome_of(Ok(rec), r),
    {
        match parse_offset(rec.offset_hours.as_str()) {
            None => Err(FetchError::InvalidOffset),
            Some(k) => {
                let current_time = format_time(&rec);
                Ok(OutputRow { offset: k, time_zone: rec.zone_id, current_time })
            },
        }
    }
}

/// The outcome of one fetch: its error as it came, or the row of its answer.
pub fn to_row(resp: Result<TimezoneRecord, FetchError>) -> (r: Result<OutputRow, FetchError>)
    ensures
        outcome_of(resp, r),
{
    match resp {
        Err(e) => Err(e),
        Ok(rec) => OutputRow::from_record(rec),
    }
}

} // verus!
