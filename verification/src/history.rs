//! The transfer history's text: durations and the detail line under each
//! transfer.
use vstd::prelude::*;

use crate::app::{
    eta_spec, human_size, human_size_spec, relative_time_secs, relative_time_spec, TransferRecord,
    TransferState,
};
use crate::clock::{nanos_since, seconds_since};
use crate::text::{dec, digit_char, push_dec, push_str};

verus! {

/// `n` in two decimal digits, `n` being below 100.
pub open spec fn two_digits(n: nat) -> Seq<char> {
    seq![digit_char(n / 10), digit_char(n % 10)]
}

/// A duration as `Ns`, `Mm SSs` or `Hh MMm`.
pub open spec fn format_duration_spec(seconds: u64) -> Seq<char> {
    if seconds < 60 {
        dec(seconds as nat) + "s"@
    } else if seconds < 3600 {
        dec((seconds / 60) as nat) + "m "@ + two_digits((seconds % 60) as nat) + "s"@
    } else {
        dec((seconds / 3600) as nat) + "h "@ + two_digits(((seconds % 3600) / 60) as nat) + "m"@
    }
}

fn push_two_digits(s: &mut String, n: u64)
    requires
        n < 100,
    ensures
        final(s)@ == old(s)@ + two_digits(n as nat),
{
    s.push(crate::text::char_from_digit((n / 10) as u32));
    s.push(crate::text::char_from_digit((n % 10) as u32));
    assert(s@ =~= old(s)@ + two_digits(n as nat));
}

/// Formats a number of seconds for the history.
pub fn format_duration(seconds: u64) -> (s: String)
    ensures
        s@ == format_duration_spec(seconds),
{
    let mut s = String::new();
    if seconds < 60 {
        push_dec(&mut s, seconds as u128);
        push_str(&mut s, "s");
    } else if seconds < 3600 {
        push_dec(&mut s, (seconds / 60) as u128);
        push_str(&mut s, "m ");
        push_two_digits(&mut s, seconds % 60);
        push_str(&mut s, "s");
    } else {
        push_dec(&mut s, (seconds / 3600) as u128);
        push_str(&mut s, "h ");
        push_two_digits(&mut s, (seconds % 3600) / 60);
        push_str(&mut s, "m");
    }
    s
}

/// Average bytes per second of `bytes` moved in `nanos` nanoseconds,
/// rounded down; 0 when no time has passed.
pub open spec fn rate_spec(bytes: u64, nanos: u64) -> nat {
    if nanos == 0 {
        0
    } else {
        ((bytes as nat) * 1_000_000_000nat) / (nanos as nat)
    }
}

pub open spec fn sep() -> Seq<char> {
    " \u{b7} "@
}

/// The detail line of a record `nanos` nanoseconds (`secs` whole seconds)
/// after it was started: host, direction, bytes moved (of the total when
/// known), then for a running transfer its rate (once anything moved) and
/// time left, or else how long ago it was.
pub open spec fn detail_line_spec(r: TransferRecord, nanos: u64, secs: u64) -> Seq<char> {
    let moved = human_size_spec(r.bytes);
    let size = match r.total {
        Some(t) => moved + " / "@ + human_size_spec(t),
        None => moved,
    };
    let head = r.host@ + sep() + r.direction.label_spec() + sep() + size;
    if r.state == TransferState::Running {
        let rate = rate_spec(r.bytes, nanos);
        let with_rate = if r.bytes > 0 && nanos > 0 {
            head + sep() + human_size_spec(
                if rate > u64::MAX {
                    u64::MAX
                } else {
                    rate as u64
                },
            ) + "/s"@
        } else {
            head
        };
        match r.eta_after_spec(nanos) {
            Some(eta) => with_rate + sep() + format_duration_spec(eta) + " left"@,
            None => with_rate,
        }
    } else {
        head + sep() + relative_time_spec(secs)
    }
}

/// The detail line of a record at a given age.
pub fn detail_line_at(record: &TransferRecord, nanos: u64, secs: u64) -> (s: String)
    ensures
        s@ == detail_line_spec(*record, nanos, secs),
{
    let mut s = String::new();
    push_str(&mut s, record.host.as_str());
    push_str(&mut s, " \u{b7} ");
    push_str(&mut s, record.direction.label());
    push_str(&mut s, " \u{b7} ");
    let moved = human_size(record.bytes);
    push_str(&mut s, moved.as_str());
    if let Some(t) = record.total {
        push_str(&mut s, " / ");
        let total = human_size(t);
        push_str(&mut s, total.as_str());
    }
    if record.state == TransferState::Running {
        if record.bytes > 0 && nanos > 0 {
            let rate: u128 = (record.bytes as u128 * 1_000_000_000) / nanos as u128;
            let shown: u64 = if rate > u64::MAX as u128 {
                u64::MAX
            } else {
                rate as u64
            };
            push_str(&mut s, " \u{b7} ");
            let r = human_size(shown);
            push_str(&mut s, r.as_str());
            push_str(&mut s, "/s");
        }
        if let Some(eta) = record.eta_after(nanos) {
            push_str(&mut s, " \u{b7} ");
            let d = format_duration(eta);
            push_str(&mut s, d.as_str());
            push_str(&mut s, " left");
        }
    } else {
        push_str(&mut s, " \u{b7} ");
        let when = relative_time_secs(secs);
        push_str(&mut s, when.as_str());
    }
    s
}

/// The detail line of a record now.
pub fn detail_line(record: &TransferRecord) -> (s: String)
    ensures
        exists|nanos: u64, secs: u64| s@ == detail_line_spec(*record, nanos, secs),
{
    let nanos = nanos_since(&record.at);
    let secs = seconds_since(&record.at);
    detail_line_at(record, nanos, secs)
}

} // verus!
