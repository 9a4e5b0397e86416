//! The wall clock.

use vstd::prelude::*;

verus! {

/// Relies on std's `SystemTime::now` and `SystemTime::duration_since`: the
/// current instant as milliseconds since the Unix epoch, non-negative when
/// present (`duration_since(UNIX_EPOCH)` errs on any earlier reading), and
/// `None` when the clock reads before the epoch or past what an `i64` of
/// milliseconds can hold — never a panic. The value depends on the wall
/// clock, so nothing more is promised; callers validate what they receive.
#[verifier::external_body]
pub(crate) fn now_millis() -> (r: Option<i64>)
    ensures
        r matches Some(v) ==> 0 <= v,
{
    match std::time::SystemTime::now().duration_since(std::time::UNIX_EPOCH) {
        Ok(d) => i64::try_from(d.as_millis()).ok(),
        Err(_) => None,
    }
}

} // verus!
