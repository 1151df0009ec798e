//! The one clock reading the protocol needs: a UTC timestamp, taken as
//! plain calendar fields, used to give each rebuilt index a fresh,
//! chronologically sortable name.

use vstd::prelude::*;

use crate::json::{dec_digits, hex_char, push_char, push_u64};

verus! {

/// The raw calendar fields of a broken-down UTC time, as the `time` crate
/// hands them out.
pub struct RawTm {
    pub tm_sec: i32,
    pub tm_min: i32,
    pub tm_hour: i32,
    pub tm_mday: i32,
    pub tm_mon: i32,
    pub tm_year: i32,
}

/// Relies on time::now_utc: the fields of the returned `Tm` lie in the
/// ranges its documentation gives (seconds 0 to 60, minutes 0 to 59, hours
/// 0 to 23, day of month 1 to 31, months since January 0 to 11; the year
/// is counted from 1900 and unbounded).
#[verifier::external_body]
fn now_utc_raw() -> (r: RawTm)
    ensures
        0 <= r.tm_sec <= 60,
        0 <= r.tm_min <= 59,
        0 <= r.tm_hour <= 23,
        1 <= r.tm_mday <= 31,
        0 <= r.tm_mon <= 11,
{
    let tm = time::now_utc();
    RawTm {
        tm_sec: tm.tm_sec,
        tm_min: tm.tm_min,
        tm_hour: tm.tm_hour,
        tm_mday: tm.tm_mday,
        tm_mon: tm.tm_mon,
        tm_year: tm.tm_year,
    }
}

/// A UTC timestamp as plain calendar fields.
#[derive(Debug, PartialEq, Eq, Structural, Clone, Copy)]
pub struct Timestamp {
    pub year: u16,
    pub month: u8,
    pub day: u8,
    pub hour: u8,
    pub minute: u8,
    pub second: u8,
}

impl Timestamp {
    pub open spec fn wf(self) -> bool {
        &&& 1 <= self.month <= 12
        &&& 1 <= self.day <= 31
        &&& self.hour <= 23
        &&& self.minute <= 59
        &&& self.second <= 60
    }
}

/// The current UTC time. Years outside the range a `u16` holds are clamped
/// to its bounds; the stamp only has to order index names, and every year
/// the process can run in lies far inside the range.
pub fn now_utc_timestamp() -> (r: Timestamp)
    ensures
        r.wf(),
{
    let raw = now_utc_raw();
    let year_full: i64 = raw.tm_year as i64 + 1900;
    let year: u16 = if year_full < 0 {
        0
    } else if year_full > 65535 {
        65535
    } else {
        year_full as u16
    };
    Timestamp {
        year,
        month: (raw.tm_mon + 1) as u8,
        day: raw.tm_mday as u8,
        hour: raw.tm_hour as u8,
        minute: raw.tm_min as u8,
        second: raw.tm_sec as u8,
    }
}

/// A number below 100 in decimal, zero-padded to two digits.
pub open spec fn pad2(n: nat) -> Seq<char> {
    if n < 10 {
        seq!['0'] + dec_digits(n)
    } else {
        dec_digits(n)
    }
}

/// A year in decimal, zero-padded to four digits.
pub open spec fn pad4(n: nat) -> Seq<char> {
    if n < 10 {
        seq!['0', '0', '0'] + dec_digits(n)
    } else if n < 100 {
        seq!['0', '0'] + dec_digits(n)
    } else if n < 1000 {
        seq!['0'] + dec_digits(n)
    } else {
        dec_digits(n)
    }
}

/// The sortable stamp a timestamp contributes to an index name.
pub open spec fn timestamp_chars(ts: Timestamp) -> Seq<char> {
    pad4(ts.year as nat) + pad2(ts.month as nat) + pad2(ts.day as nat) + seq!['_'] + pad2(
        ts.hour as nat,
    ) + pad2(ts.minute as nat) + pad2(ts.second as nat)
}

fn push_pad2(out: &mut String, n: u8)
    requires
        n < 100,
    ensures
        final(out)@ == old(out)@ + pad2(n as nat),
{
    if n < 10 {
        push_char(out, '0');
        push_char(out, hex_char(n));
        proof {
            assert(final(out)@ =~= old(out)@ + pad2(n as nat));
        }
    } else {
        push_u64(out, n as u64);
    }
}

fn push_pad4(out: &mut String, n: u16)
    ensures
        final(out)@ == old(out)@ + pad4(n as nat),
{
    if n < 10 {
        out.append("000");
        push_u64(out, n as u64);
        proof {
            reveal_strlit("000");
            assert("000"@ =~= seq!['0', '0', '0']);
            assert(final(out)@ =~= old(out)@ + pad4(n as nat));
        }
    } else if n < 100 {
        out.append("00");
        push_u64(out, n as u64);
        proof {
            reveal_strlit("00");
            assert("00"@ =~= seq!['0', '0']);
            assert(final(out)@ =~= old(out)@ + pad4(n as nat));
        }
    } else if n < 1000 {
        push_char(out, '0');
        push_u64(out, n as u64);
        proof {
            assert(final(out)@ =~= old(out)@ + pad4(n as nat));
        }
    } else {
        push_u64(out, n as u64);
    }
}

/// Append `YYYYMMDD_HHMMSS` for the timestamp.
pub fn push_timestamp(out: &mut String, ts: &Timestamp)
    requires
        ts.wf(),
    ensures
        final(out)@ == old(out)@ + timestamp_chars(*ts),
{
    push_pad4(out, ts.year);
    push_pad2(out, ts.month);
    push_pad2(out, ts.day);
    push_char(out, '_');
    push_pad2(out, ts.hour);
    push_pad2(out, ts.minute);
    push_pad2(out, ts.second);
    proof {
        assert(final(out)@ =~= old(out)@ + timestamp_chars(*ts));
    }
}

} // verus!
