use vstd::prelude::*;

verus! {

/// Relies on chrono's `Utc::now` and `DateTime::timestamp`: the current time in
/// whole seconds since the Unix epoch.
#[verifier::external_body]
pub(crate) fn now_seconds() -> (r: i64) {
    chrono::Utc::now().timestamp()
}

/// Relies on uuid's `Uuid::new_v4` and its `Display`: a random identifier in
/// hyphenated form.
#[verifier::external_body]
pub(crate) fn new_id() -> (r: String)
    ensures
        r@.len() == 36,
{
    uuid::Uuid::new_v4().to_string()
}

} // verus!

verus! {

/// Relies on chrono's `Utc::now` and `DateTime::format`: the current UTC time
/// as `YYYY-MM-DD HH:MM UTC`.
#[verifier::external_body]
pub(crate) fn export_stamp() -> (r: String) {
    chrono::Utc::now().format("%Y-%m-%d %H:%M UTC").to_string()
}

} // verus!
