//! Local-time rendering of a session's creation time.

use vstd::prelude::*;

verus! {

/// Renders Unix epoch seconds the way the launcher rows show them: the
/// calendar date and wall clock, `YYYY-MM-DD HH:MM:SS`, followed by the
/// abbreviation of the machine's local time zone.  The result depends on
/// the machine's zone database, so nothing is promised of it; `None` comes
/// back when the epoch value is out of chrono's range or that wall time is
/// skipped or repeated by a zone transition.
///
/// Relies on chrono: `DateTime::from_timestamp` to read the epoch,
/// `TimeZone::from_local_datetime` on `Local` to attach the zone, and
/// `DateTime::format` with `"%Y-%m-%d %H:%M:%S %Z"` to render it.
#[verifier::external_body]
pub(crate) fn local_time_label(epoch_secs: i64) -> Option<String> {
    let naive = chrono::DateTime::from_timestamp(epoch_secs, 0)?.naive_utc();
    match chrono::TimeZone::from_local_datetime(&chrono::Local, &naive) {
        chrono::MappedLocalTime::Single(t) => Some(t.format("%Y-%m-%d %H:%M:%S %Z").to_string()),
        _ => None,
    }
}

} // verus!
