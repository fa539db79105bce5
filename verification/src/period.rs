//! The sampling-period display strings: the global time range of the events,
//! shifted by an externally supplied boot-time offset, rendered as RFC3339
//! timestamps and a human-readable duration.

use vstd::prelude::*;

verus! {

use vstd::string::StringExecFns;
use crate::data::AuditEvent;
use crate::data::spans_max_end;
use crate::data::spans_min_start;

/// The RFC3339 rendering of the moment `nanos` nanoseconds after the Unix
/// epoch: a function of the instant alone, always UTC.
pub uninterp spec fn rfc3339_of(nanos: u64) -> Seq<char>;

/// The human-readable rendering of a duration of `nanos` nanoseconds:
/// a function of the duration alone.
pub uninterp spec fn duration_text_of(nanos: u64) -> Seq<char>;

/// Relies on humantime::format_rfc3339: renders an instant after the Unix
/// epoch as an RFC3339 timestamp, always UTC, depending on the instant alone.
/// Every u64 nanosecond count lies before its year-9999 cutoff.
#[verifier::external_body]
fn format_rfc3339_text(total_nanos: u64) -> (r: String)
    ensures
        r@ == rfc3339_of(total_nanos),
{
    format!(
        "{}",
        humantime::format_rfc3339(
            std::time::UNIX_EPOCH + std::time::Duration::from_nanos(total_nanos),
        ),
    )
}

/// Relies on humantime::format_duration: renders a duration in days, hours,
/// minutes, seconds and subsecond units, depending on the duration alone.
#[verifier::external_body]
fn format_duration_text(nanos: u64) -> (r: String)
    ensures
        r@ == duration_text_of(nanos),
{
    format!("{}", humantime::format_duration(std::time::Duration::from_nanos(nanos)))
}

/// The three sampling-period display strings — formatted start, end and
/// duration — for the global time range of the events, shifted by the boot
/// offset in seconds. None when there are no events, when the range runs
/// backwards, or when the shifted range does not fit the clock.
pub fn period_label_texts(events: &Vec<AuditEvent>, boot_secs: u64) -> (r: Option<
    (String, String, String),
>)
    ensures
        match r {
            Some(t) => {
                let lo = spans_min_start(events@, 0);
                let hi = spans_max_end(events@, 0);
                &&& events@.len() > 0
                &&& lo <= hi
                &&& (boot_secs as int) * 1000000000 + hi <= u64::MAX
                &&& t.0@ == "Start: "@ + rfc3339_of(((boot_secs as int) * 1000000000 + lo) as u64)
                &&& t.1@ == "End: "@ + rfc3339_of(((boot_secs as int) * 1000000000 + hi) as u64)
                &&& t.2@ == "Duration: "@ + duration_text_of((hi - lo) as u64)
            },
            None => events@.len() == 0 || spans_min_start(events@, 0) > spans_max_end(events@, 0)
                || (boot_secs as int) * 1000000000 + spans_max_end(events@, 0) > u64::MAX,
        },
{
    let range: (u64, u64) = match AuditEvent::get_time_range(events) {
        Some(range) => range,
        None => {
            return None;
        },
    };
    let (lo, hi): (u64, u64) = range;
    if hi < lo {
        return None;
    }
    let base: u128 = (boot_secs as u128) * 1000000000;
    let hi_total: u128 = base + (hi as u128);
    if hi_total > (u64::MAX as u128) {
        return None;
    }
    let lo_total: u64 = (base + (lo as u128)) as u64;
    let mut start_text: String = "Start: ".to_owned();
    let t0: String = format_rfc3339_text(lo_total);
    start_text.append(t0.as_str());
    let mut end_text: String = "End: ".to_owned();
    let t1: String = format_rfc3339_text(hi_total as u64);
    end_text.append(t1.as_str());
    let mut duration_text: String = "Duration: ".to_owned();
    let t2: String = format_duration_text(hi - lo);
    duration_text.append(t2.as_str());
    Some((start_text, end_text, duration_text))
}

} // verus!
