use crate::stamp::{new_id, now_seconds};
use vstd::prelude::*;

verus! {

/// One audit record.
#[derive(Debug)]
pub struct LogEntry {
    pub id: String,
    pub action: String,
    pub message: String,
    pub content: Option<String>,
    pub timestamp: i64,
}

impl LogEntry {
    /// A record stamped with a fresh id and the current time.
    pub fn new(action: String, message: String, content: Option<String>) -> (r: Self)
        ensures
            r.action@ == action@,
            r.message@ == message@,
            r.content == content,
    {
        LogEntry { id: new_id(), action, message, content, timestamp: now_seconds() }
    }
}

/// Relies on the slice method `concat` over string slices: the pieces joined.
#[verifier::external_body]
pub(crate) fn join3(a: &str, b: &str, c: &str) -> (r: String)
    ensures
        r@ == a@ + b@ + c@,
{
    [a, b, c].concat()
}

} // verus!
