//! TOML datetimes, as plain values read by `toml_datetime`.
use vstd::prelude::*;

verus! {

/// A calendar date.
#[derive(Clone, Copy, Debug, PartialEq, Eq, Structural)]
pub struct DateParts {
    pub year: u16,
    pub month: u8,
    pub day: u8,
}

/// A time of day.
#[derive(Clone, Copy, Debug, PartialEq, Eq, Structural)]
pub struct TimeParts {
    pub hour: u8,
    pub minute: u8,
    pub second: u8,
    pub nanosecond: u32,
}

/// A UTC offset: `Z`, or a number of minutes.
#[derive(Clone, Copy, Debug, PartialEq, Eq, Structural)]
pub enum OffsetParts {
    Z,
    Custom(i16),
}

/// An offset date-time, local date-time, local date or local time.
#[derive(Clone, Copy, Debug, PartialEq, Eq, Structural)]
pub struct DatetimeParts {
    pub date: Option<DateParts>,
    pub time: Option<TimeParts>,
    pub offset: Option<OffsetParts>,
}

/// What `toml_datetime` reads from the given text: the datetime it parses
/// to, or nothing when the text is not a datetime.
pub uninterp spec fn datetime_from_text(text: Seq<char>) -> Option<DatetimeParts>;

/// Reads a datetime from its text.
///
/// Trusted: calls `<toml_datetime::Datetime as FromStr>::from_str` (through
/// `str::parse`) and copies the fields of the result. The contract only
/// names the result: it is a function of the text alone.
#[verifier::external_body]
pub(crate) fn parse_datetime(text: &str) -> (res: Option<DatetimeParts>)
    ensures
        res == datetime_from_text(text@),
{
    let d: toml_datetime::Datetime = text.parse().ok()?;
    let date = match d.date { Some(x) => Some(DateParts { year: x.year, month: x.month, day: x.day }), None => None };
    let time = match d.time { Some(t) => Some(TimeParts { hour: t.hour, minute: t.minute, second: t.second, nanosecond: t.nanosecond }), None => None };
    let offset = match d.offset { Some(toml_datetime::Offset::Z) => Some(OffsetParts::Z), Some(toml_datetime::Offset::Custom { minutes }) => Some(OffsetParts::Custom(minutes)), None => None };
    Some(DatetimeParts { date, time, offset })
}

} // verus!
