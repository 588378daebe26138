//! Instants with the UTC offset they were written in.
use vstd::prelude::*;

verus! {

/// An instant in milliseconds since the Unix epoch, with the offset from UTC
/// (in seconds) that it is written in.
#[derive(Clone, Copy, Debug, PartialEq, Eq, Structural)]
pub struct Timestamp {
    pub millis: i64,
    pub offset_secs: i32,
}

/// About 253,000 years either side of the epoch: inside what chrono can hold.
pub const MAX_ABS_MILLIS: i64 = 8_000_000_000_000_000;

impl Timestamp {
    pub open spec fn wf(self) -> bool {
        &&& -MAX_ABS_MILLIS <= self.millis <= MAX_ABS_MILLIS
        &&& -86_400 < self.offset_secs < 86_400
    }

    pub fn is_wf(&self) -> (r: bool)
        ensures
            r == self.wf(),
    {
        -MAX_ABS_MILLIS <= self.millis && self.millis <= MAX_ABS_MILLIS && -86_400 < self.offset_secs
            && self.offset_secs < 86_400
    }
}

/// 1970-01-01T00:00:00Z.
pub open spec fn epoch() -> Timestamp {
    Timestamp { millis: 0, offset_secs: 0 }
}

pub fn unix_epoch() -> (r: Timestamp)
    ensures
        r == epoch(),
{
    Timestamp { millis: 0, offset_secs: 0 }
}

/// What chrono reads from an RFC 3339 text.
pub uninterp spec fn rfc3339_reading(s: Seq<char>) -> Option<Timestamp>;

/// The RFC 3339 text that chrono writes for an instant: `Z` for a zero
/// offset; exactly three fraction digits where `fixed_millis`, else as many
/// as the instant needs (none for a whole second).
pub uninterp spec fn rfc3339_text(t: Timestamp, fixed_millis: bool) -> Seq<char>;

/// Relies on `chrono::DateTime::parse_from_rfc3339`: the instant, truncated to
/// whole milliseconds by `timestamp_millis`, and the offset in seconds east of
/// UTC. RFC 3339 allows years 0000 to 9999 and offsets below 24 hours.
#[verifier::external_body]
pub fn parse_rfc3339(s: &str) -> (r: Option<Timestamp>)
    ensures
        r == rfc3339_reading(s@),
        r matches Some(t) ==> t.wf(),
{
    chrono::DateTime::parse_from_rfc3339(s).ok().map(
        |dt| Timestamp { millis: dt.timestamp_millis(), offset_secs: dt.offset().local_minus_utc() },
    )
}

/// Relies on `chrono::DateTime::to_rfc3339_opts` with `use_z`, in the
/// timestamp's own offset, with `SecondsFormat::Millis` or `SecondsFormat::AutoSi`.
#[verifier::external_body]
pub fn format_rfc3339(t: Timestamp, fixed_millis: bool) -> (r: String)
    requires
        t.wf(),
    ensures
        r@ == rfc3339_text(t, fixed_millis),
{
    let offset = chrono::FixedOffset::east_opt(t.offset_secs).unwrap();
    let dt = chrono::DateTime::from_timestamp_millis(t.millis).unwrap().with_timezone(&offset);
    let form = if fixed_millis { chrono::SecondsFormat::Millis } else { chrono::SecondsFormat::AutoSi };
    dt.to_rfc3339_opts(form, true)
}

} // verus!
