//! Turning an epoch second count into a calendar string.  The
//! calendar arithmetic itself is chrono's; the library fixes through
//! the contract exactly when it succeeds and that its output is a
//! function of the number alone.
use vstd::prelude::*;

verus! {

/// Highest epoch second chrono's calendar can hold: the last second
/// of year 262142.
pub const MAX_FORMATTABLE_EPOCH: u64 = 8_210_266_876_799;

/// The `YYYY-MM-DD HH:MM:SS` rendering, in UTC, of an epoch second
/// count: a function of the number alone.
pub uninterp spec fn utc_format_of(epoch: u64) -> Seq<char>;

/// Relies on chrono's `DateTime::from_timestamp`, which returns `Some`
/// exactly when the seconds fall inside chrono's calendar (for
/// non-negative seconds: at most `MAX_FORMATTABLE_EPOCH`), and on its
/// `%Y-%m-%d %H:%M:%S` formatting, whose output depends on the
/// timestamp alone.
#[verifier::external_body]
fn chrono_format_utc(epoch: u64) -> (r: Option<String>)
    ensures
        r is Some <==> epoch <= MAX_FORMATTABLE_EPOCH,
        r matches Some(s) ==> s@ == utc_format_of(epoch),
{
    let secs = match i64::try_from(epoch) {
        Ok(s) => s,
        Err(_) => return None,
    };
    match chrono::DateTime::from_timestamp(secs, 0) {
        Some(dt) => Some(dt.format("%Y-%m-%d %H:%M:%S").to_string()),
        None => None,
    }
}

/// Format an epoch, read as whole seconds since 1970-01-01T00:00:00
/// UTC, as `YYYY-MM-DD HH:MM:SS`; `None` exactly for values beyond
/// the formattable range, so that no input can make the call fail
/// loudly.
pub fn format_epoch(epoch: u64) -> (r: Option<String>)
    ensures
        r is Some <==> epoch <= MAX_FORMATTABLE_EPOCH,
        r matches Some(s) ==> s@ == utc_format_of(epoch),
{
    chrono_format_utc(epoch)
}

/// Formatting is a pure function of the epoch: any two outcomes the
/// formatter's contract allows for one and the same epoch agree
/// exactly, whatever else has been formatted before or between.
pub proof fn lemma_format_deterministic(epoch: u64, r1: Option<String>, r2: Option<String>)
    requires
        r1 is Some <==> epoch <= MAX_FORMATTABLE_EPOCH,
        r1 matches Some(s) ==> s@ == utc_format_of(epoch),
        r2 is Some <==> epoch <= MAX_FORMATTABLE_EPOCH,
        r2 matches Some(s) ==> s@ == utc_format_of(epoch),
    ensures
        r1 is Some <==> r2 is Some,
        r1 is Some && r2 is Some ==> (r1->0)@ == (r2->0)@,
{
}

} // verus!
