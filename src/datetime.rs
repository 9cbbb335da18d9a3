//! Timestamps: naive local date and time, as chrono keeps them.
use vstd::prelude::*;
use vstd::string::*;

use chrono::NaiveDateTime;

verus! {

#[verifier::external_type_specification]
#[verifier::external_body]
pub struct ExNaiveDateTime(NaiveDateTime);

/// The format of timestamps that users write: `YYYY/MM/DD HH:MM:SS`.
pub const DATETIME_FORMAT: &'static str = "%Y/%m/%d %H:%M:%S";

/// What chrono's `NaiveDateTime::parse_from_str` makes of text `s` in
/// format `fmt`: the date and time, or the text of its parse error.
pub uninterp spec fn parsed_datetime(s: Seq<char>, fmt: Seq<char>) -> Result<NaiveDateTime, Seq<char>>;

/// Relies on chrono's `NaiveDateTime::parse_from_str` and the `Display` of
/// its `ParseError`: the result depends on the text and the format alone.
#[verifier::external_body]
fn parse_naive_datetime(input: &str, fmt: &str) -> (r: Result<NaiveDateTime, String>)
    ensures
        r is Ok <==> parsed_datetime(input@, fmt@) is Ok,
        r is Ok ==> r->Ok_0 == parsed_datetime(input@, fmt@)->Ok_0,
        r is Err ==> r->Err_0@ == parsed_datetime(input@, fmt@)->Err_0,
{
    NaiveDateTime::parse_from_str(input, fmt).map_err(|e| e.to_string())
}

/// Whether timestamp text in the users' format can be read.
pub open spec fn date_accepted(s: Seq<char>) -> bool {
    parsed_datetime(s, DATETIME_FORMAT@) is Ok
}

/// The timestamp that text in the users' format stands for.
pub open spec fn date_of(s: Seq<char>) -> NaiveDateTime {
    parsed_datetime(s, DATETIME_FORMAT@)->Ok_0
}

/// The message for timestamp text that cannot be read, with chrono's reason.
pub open spec fn date_error(s: Seq<char>) -> Seq<char> {
    "invalid date time "@ + s + " -> "@ + parsed_datetime(s, DATETIME_FORMAT@)->Err_0
}

/// Midnight of 1970-01-01, as chrono reads it from text.
pub open spec fn epoch_datetime() -> NaiveDateTime {
    date_of("1970/01/01 00:00:00"@)
}

/// Relies on chrono's `Local::now` and `DateTime::naive_local`: the current
/// local wall-clock time.
#[verifier::external_body]
pub(crate) fn local_now() -> NaiveDateTime {
    chrono::Local::now().naive_local()
}

/// Relies on chrono's `Default` for `NaiveDateTime`: 1970-01-01 00:00:00,
/// the value chrono reads from that text.
#[verifier::external_body]
pub(crate) fn epoch() -> (r: NaiveDateTime)
    ensures
        r == parsed_datetime("1970/01/01 00:00:00"@, DATETIME_FORMAT@)->Ok_0,
{
    NaiveDateTime::default()
}

/// Reads a timestamp written as `YYYY/MM/DD HH:MM:SS`; a refusal carries
/// chrono's reason.
pub fn parse_datetime(input: &str) -> (r: Result<NaiveDateTime, String>)
    ensures
        r is Ok <==> date_accepted(input@),
        r matches Ok(d) ==> d == date_of(input@),
        r matches Err(e) ==> e@ == date_error(input@),
{
    match parse_naive_datetime(input, DATETIME_FORMAT) {
        Ok(d) => Ok(d),
        Err(reason) => {
            let mut e = String::from_str("invalid date time ");
            e.append(input);
            e.append(" -> ");
            e.append(reason.as_str());
            Err(e)
        },
    }
}

} // verus!
