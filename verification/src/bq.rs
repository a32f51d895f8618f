//! Columns of BigQuery rows: what each kind of value is written as.
use crate::json::{compact_text, decimal, encode, json_of, json_text, Json};
use vstd::prelude::*;

verus! {

/// `fastly::http::StatusCode`, carried through as it is.
#[verifier::external_type_specification]
#[verifier::external_body]
pub struct ExStatusCode(fastly::http::StatusCode);

/// The number of a `fastly::http::StatusCode`.
pub uninterp spec fn status_number(status: fastly::http::StatusCode) -> u16;

/// `StatusCode::as_u16`: the number of the status, which always has three digits.
pub assume_specification[ fastly::http::StatusCode::as_u16 ](
    status: &fastly::http::StatusCode,
) -> (number: u16)
    ensures
        number == status_number(*status),
        100 <= number <= 999,
;

/// The time that a `std::time::SystemTime` stands for, in nanoseconds after the Unix epoch;
/// negative for a time before it.
pub uninterp spec fn unix_nanos(time: std::time::SystemTime) -> int;

/// `SystemTime::duration_since` of the Unix epoch, as whole seconds and the nanoseconds beyond
/// them. It has a result for the epoch and any later time, and none for an earlier one.
#[verifier::external_body]
fn since_epoch(time: &std::time::SystemTime) -> (since: Option<(u64, u32)>)
    ensures
        since is Some <==> unix_nanos(*time) >= 0,
        since matches Some((secs, nanos)) ==> nanos < 1_000_000_000 && secs * 1_000_000_000 + nanos
            == unix_nanos(*time),
{
    let since = time.duration_since(std::time::UNIX_EPOCH).ok();
    since.map(|duration| (duration.as_secs(), duration.subsec_nanos()))
}

/// A number of seconds.
#[derive(Debug, Clone, Copy, PartialEq, Eq, Structural)]
pub struct UnixSeconds {
    /// The whole seconds.
    pub secs: u64,
    /// The nanoseconds beyond them.
    pub nanos: u32,
}

impl UnixSeconds {
    /// The nanoseconds do not make up a second.
    pub open spec fn wf(self) -> bool {
        self.nanos < 1_000_000_000
    }

    /// The same number in nanoseconds.
    pub open spec fn total_nanos(self) -> int {
        self.secs * 1_000_000_000 + self.nanos
    }
}

/// The seconds and nanoseconds since the Unix epoch where there are any, else zero.
pub fn seconds_or_zero(since: Option<(u64, u32)>) -> (seconds: UnixSeconds)
    ensures
        seconds == (match since {
            Some((secs, nanos)) => UnixSeconds { secs, nanos },
            None => UnixSeconds { secs: 0, nanos: 0 },
        }),
{
    match since {
        Some((secs, nanos)) => UnixSeconds { secs, nanos },
        None => UnixSeconds { secs: 0, nanos: 0 },
    }
}

/// A point in time as the seconds since the Unix epoch; zero for a time before it.
pub fn ser_unix_seconds(t: &std::time::SystemTime) -> (seconds: UnixSeconds)
    ensures
        seconds.wf(),
        seconds.total_nanos() == if unix_nanos(*t) < 0 {
            0
        } else {
            unix_nanos(*t)
        },
        seconds.nanos < 1_000_000_000,
        unix_nanos(*t) >= 0 ==> seconds.secs * 1_000_000_000 + seconds.nanos == unix_nanos(*t),
        unix_nanos(*t) < 0 ==> seconds.secs == 0 && seconds.nanos == 0,
{
    seconds_or_zero(since_epoch(t))
}

/// An HTTP status as its number.
pub fn ser_http_status(status: &fastly::http::StatusCode) -> (number: u16)
    ensures
        number == status_number(*status),
        100 <= number <= 999,
{
    status.as_u16()
}

/// A value could not be written as JSON.
#[derive(Debug)]
pub struct EncodeError {
    /// Why.
    pub cause: serde_json::Error,
}

/// A JSON column out of the outcome of encoding its value: the text where there is a value,
/// nothing where there is none, and an error where the encoding failed.
pub fn json_column(encoded: Option<Result<String, serde_json::Error>>) -> (column: Result<
    Option<String>,
    EncodeError,
>)
    ensures
        column == (match encoded {
            Some(Ok(text)) => Ok(Some(text)),
            Some(Err(cause)) => Err(EncodeError { cause }),
            None => Ok(None),
        }),
{
    match encoded {
        Some(Ok(text)) => Ok(Some(text)),
        Some(Err(cause)) => Err(EncodeError { cause }),
        None => Ok(None),
    }
}

/// A JSON value as a string that holds its JSON text; nothing where there is no value.
pub fn ser_json_as_string(v: &Option<&serde_json::Value>) -> (column: Result<
    Option<String>,
    EncodeError,
>)
    ensures
        column is Ok,
        match *v {
            Some(value) => column->Ok_0 is Some && column->Ok_0->Some_0@ == json_text(
                json_of(*value),
            ),
            None => column->Ok_0 is None,
        },
        *v matches Some(value) ==> column->Ok_0->Some_0@ == match json_of(*value) {
            Json::Null => "null"@,
            Json::Bool(true) => "true"@,
            Json::Bool(false) => "false"@,
            Json::Integer(n) => decimal(n),
            other => compact_text(other),
        },
{
    let encoded = match v {
        Some(value) => Some(encode(value)),
        None => None,
    };
    json_column(encoded)
}

} // verus!
