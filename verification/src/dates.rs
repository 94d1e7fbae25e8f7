use vstd::prelude::*;
use crate::errors::ServiceError;

verus! {

/// The instant a well-formed date-time text denotes, in milliseconds since
/// the epoch, UTC; `None` when the text is not a well-formed date-time.
/// The result depends on the text alone.
pub uninterp spec fn rfc3339_instant(s: Seq<char>) -> Option<i64>;

/// Relies on chrono::DateTime::parse_from_rfc3339 for parsing the date-time
/// text, and on chrono's timezone/epoch conversion of the parsed value; the
/// result is a function of the text alone.
#[verifier::external_body]
fn parse_rfc3339_millis(s: &str) -> (r: Option<i64>)
    ensures
        r == rfc3339_instant(s@),
{
    match chrono::DateTime::parse_from_rfc3339(s) {
        Ok(dt) => Some(dt.with_timezone(&chrono::Utc).timestamp_millis()),
        Err(_) => None,
    }
}

/// Validate an optional date-time text as create/update do: an absent date
/// is no date; a present one must be well formed, or the whole operation is
/// rejected with [`ServiceError::InvalidDateFormat`] before any write.
pub fn validate_due_date(due: &Option<String>) -> (r: Result<Option<i64>, ServiceError>)
    ensures
        match r {
            Ok(instant) => match due {
                Some(text) => rfc3339_instant(text@) == Some(instant->0) && instant is Some,
                None => instant is None,
            },
            Err(e) => e matches ServiceError::InvalidDateFormat && (due matches Some(text)
                && rfc3339_instant(text@) is None),
        },
        (r is Err) <==> (due matches Some(text) && rfc3339_instant(text@) is None),
{
    match due {
        None => Ok(None),
        Some(text) => match parse_rfc3339_millis(text.as_str()) {
            Some(instant) => Ok(Some(instant)),
            None => Err(ServiceError::InvalidDateFormat),
        },
    }
}

} // verus!
