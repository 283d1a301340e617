//! Moments in time as text.

use vstd::prelude::*;

verus! {

/// When the host was started, and how far its clock stood from UTC at that moment.
#[derive(Clone, Copy, Debug, PartialEq, Eq)]
pub struct BootTime {
    /// Seconds since the Unix epoch.
    pub epoch_secs: u64,
    /// Seconds that local time is ahead of UTC; negative west of Greenwich.
    pub utc_offset_secs: i32,
}

/// The RFC 3339 text that chrono gives for the moment `secs` seconds after the Unix
/// epoch, on a clock `offset_secs` seconds ahead of UTC; `None` where chrono has no such
/// offset or no such moment.
pub uninterp spec fn rfc3339_text(secs: int, offset_secs: int) -> Option<Seq<char>>;

/// The text of a boot time: none for a moment beyond what a signed count of seconds
/// holds, else what [`rfc3339_text`] gives.
pub open spec fn boot_time_text(boot: BootTime) -> Option<Seq<char>> {
    if boot.epoch_secs > i64::MAX {
        None
    } else {
        rfc3339_text(boot.epoch_secs as int, boot.utc_offset_secs as int)
    }
}

/// Calls chrono: `FixedOffset::east_opt` for the offset, `TimeZone::timestamp_opt` (with
/// no nanoseconds) for the moment at that offset, and `DateTime::to_rfc3339` for its
/// text. The first two return nothing for an offset of a day or more and for a moment
/// outside chrono's range of dates; none of the three reads a clock or a time zone, so
/// the text depends on the two numbers alone, which is all that the contract claims.
#[verifier::external_body]
fn rfc3339(secs: i64, offset_secs: i32) -> (text: Option<String>)
    ensures
        match text {
            Some(t) => rfc3339_text(secs as int, offset_secs as int) == Some(t@),
            None => rfc3339_text(secs as int, offset_secs as int) is None,
        },
{
    let offset = chrono::FixedOffset::east_opt(offset_secs)?;
    let moment = chrono::TimeZone::timestamp_opt(&offset, secs, 0).single()?;
    Some(moment.to_rfc3339())
}

/// A count of seconds since the Unix epoch as a signed number, if it fits in one.
pub fn signed_seconds(epoch_secs: u64) -> (secs: Option<i64>)
    ensures
        epoch_secs <= i64::MAX ==> secs == Some(epoch_secs as i64),
        epoch_secs > i64::MAX ==> secs is None,
{
    if epoch_secs > i64::MAX as u64 {
        None
    } else {
        Some(epoch_secs as i64)
    }
}

/// The boot time as an ISO 8601 timestamp with its UTC offset, if it can be written.
pub fn format_boot_time(boot: &BootTime) -> (text: Option<String>)
    ensures
        match text {
            Some(t) => boot_time_text(*boot) == Some(t@),
            None => boot_time_text(*boot) is None,
        },
{
    match signed_seconds(boot.epoch_secs) {
        Some(secs) => rfc3339(secs, boot.utc_offset_secs),
        None => None,
    }
}

} // verus!
