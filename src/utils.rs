//! Rendering of Unix times in the machine's local time zone.

use vstd::prelude::*;

verus! {

/// The last millisecond that chrono can represent: the end of year 262142.
pub const MAX_UNIX_MS: i64 = 8210266876799999;

/// Relies on `DateTime::<Local>::to_rfc3339`, after chrono's
/// `From<SystemTime>` has placed the instant `unix_time_ms` milliseconds
/// after the epoch in the machine's time zone. chrono panics beyond its
/// range, which starts at the epoch for this conversion and ends at
/// `MAX_UNIX_MS`. Whatever the time zone, the text holds at least a date.
#[verifier::external_body]
fn local_rfc3339(unix_time_ms: i64) -> (r: String)
    requires
        0 <= unix_time_ms <= MAX_UNIX_MS,
    ensures
        r@.len() > 0,
{
    let since_epoch = std::time::Duration::from_millis(unix_time_ms as u64);
    chrono::DateTime::<chrono::Local>::from(std::time::SystemTime::UNIX_EPOCH + since_epoch).to_rfc3339()
}

/// An optional Unix time in milliseconds, as an RFC 3339 local time; empty
/// when there is no time.
pub fn format_opt_unix_ms(opt_unix_time_ms: Option<i64>) -> (r: String)
    requires
        opt_unix_time_ms matches Some(ms) ==> 0 <= ms <= MAX_UNIX_MS,
    ensures
        opt_unix_time_ms is None ==> r@ == Seq::<char>::empty(),
        opt_unix_time_ms is Some ==> r@.len() > 0,
{
    match opt_unix_time_ms {
        Some(ms) => local_rfc3339(ms),
        None => String::new(),
    }
}

} // verus!
