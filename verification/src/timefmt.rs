//! Timestamp rendering: instants are shown in US Eastern local time.

use vstd::prelude::*;

verus! {

/// The US Eastern rendering (`%Y-%m-%d %H:%M:%S %Z`) of an instant, as a
/// function of the epoch second alone: the zone data is compiled in.
pub uninterp spec fn eastern_of(epoch_secs: int) -> Seq<char>;

/// Relies on chrono's `DateTime::from_timestamp` and chrono-tz's
/// `US::Eastern`: the conversion and formatting depend on the instant alone,
/// and `from_timestamp` is `Some` for every second up to year 9999.
#[verifier::external_body]
pub(crate) fn format_eastern(epoch_secs: i64) -> (r: String)
    requires
        0 <= epoch_secs <= 253402300799,
    ensures
        r@ == eastern_of(epoch_secs as int),
{
    let instant = chrono::DateTime::<chrono::Utc>::from_timestamp(epoch_secs, 0).unwrap();
    instant.with_timezone(&chrono_tz::US::Eastern).format("%Y-%m-%d %H:%M:%S %Z").to_string()
}

} // verus!
