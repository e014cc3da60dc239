use vstd::prelude::*;

verus! {

/// Relies on chrono's `DateTime::from_timestamp` and `format("%R")`: a
/// timestamp rendered as local wall-clock time is always `HH:MM`, five
/// characters, whatever the machine's time zone; a timestamp chrono cannot
/// represent falls back to a fixed five-character placeholder.
#[verifier::external_body]
pub(crate) fn local_hm(ts: i64) -> (r: String)
    ensures
        r@.len() == 5,
{
    match chrono::DateTime::from_timestamp(ts, 0) {
        Some(t) => t.with_timezone(&chrono::Local).format("%R").to_string(),
        None => "00:00".to_string(),
    }
}

/// Relies on chrono's `DateTime::from_timestamp` and `format("%x %R")`: a
/// timestamp rendered as local date and wall-clock time holds at least the
/// five characters of the `HH:MM` part; the date part and its length depend
/// on the calendar date, so no more is claimed.
#[verifier::external_body]
pub(crate) fn local_date_hm(ts: i64) -> (r: String)
    ensures
        r@.len() >= 5,
{
    match chrono::DateTime::from_timestamp(ts, 0) {
        Some(t) => t.with_timezone(&chrono::Local).format("%x %R").to_string(),
        None => "00/00/00 00:00".to_string(),
    }
}

} // verus!
