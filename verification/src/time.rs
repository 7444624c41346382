//! Calendar timestamps as plain values: the Unix epoch second together with
//! the local calendar fields and the local offset, as the host clock
//! reported them, plus the pure text renderings the engine needs.

use vstd::prelude::*;
use crate::util::{two_digits, four_digits, dec_signed, fmt_2, fmt_4, fmt_i64};

verus! {

/// One instant: the Unix timestamp and its local calendar reading.
#[derive(Debug, Clone, Copy, PartialEq, Eq, Structural)]
pub struct Timestamp {
    /// Non-leap seconds since 1970-01-01T00:00:00Z.
    pub epoch_seconds: i64,
    /// Local calendar year.
    pub year: i32,
    /// Local month, 1 to 12.
    pub month: u32,
    /// Local day of month, 1 to 31.
    pub day: u32,
    /// Local hour, 0 to 23.
    pub hour: u32,
    /// Local minute, 0 to 59.
    pub minute: u32,
    /// Local second, 0 to 59.
    pub second: u32,
    /// Local offset east of UTC, in seconds.
    pub offset_seconds: i32,
}

impl Timestamp {
    /// Field ranges as the host clock guarantees them.
    pub open spec fn wf(self) -> bool {
        &&& -0x800_0000_0000 <= self.epoch_seconds <= 0x800_0000_0000
        &&& -262144 <= self.year <= 262144
        &&& 1 <= self.month <= 12
        &&& 1 <= self.day <= 31
        &&& self.hour <= 23
        &&& self.minute <= 59
        &&& self.second <= 59
        &&& -86400 < self.offset_seconds < 86400
    }
}

/// The year as text: four zero-padded digits in the common range, plain
/// signed decimal outside it.
pub open spec fn year_digits(y: int) -> Seq<char> {
    if 0 <= y <= 9999 {
        four_digits(y)
    } else {
        dec_signed(y)
    }
}

/// Renders a year as [`year_digits`].
pub fn fmt_year(y: i32) -> (r: String)
    requires
        -262144 <= y <= 262144,
    ensures
        r@ == year_digits(y as int),
{
    if 0 <= y && y <= 9999 {
        fmt_4(y as u32)
    } else {
        fmt_i64(y as i64)
    }
}

/// The local date as eight digits, `YYYYMMDD`.
pub open spec fn compact_date(t: Timestamp) -> Seq<char> {
    year_digits(t.year as int) + two_digits(t.month as int) + two_digits(t.day as int)
}

/// Renders the local date as `YYYYMMDD`.
pub fn fmt_compact_date(t: &Timestamp) -> (r: String)
    requires
        t.wf(),
    ensures
        r@ == compact_date(*t),
{
    let mut s: String = fmt_year(t.year);
    let mm: String = fmt_2(t.month);
    let dd: String = fmt_2(t.day);
    s.append(mm.as_str());
    s.append(dd.as_str());
    proof {
        assert(s@ =~= compact_date(*t));
    }
    s
}

/// The local time of day as six digits, `HHMMSS`.
pub open spec fn compact_time(t: Timestamp) -> Seq<char> {
    two_digits(t.hour as int) + two_digits(t.minute as int) + two_digits(t.second as int)
}

/// Renders the local time of day as `HHMMSS`.
pub fn fmt_compact_time(t: &Timestamp) -> (r: String)
    requires
        t.wf(),
    ensures
        r@ == compact_time(*t),
{
    let mut s: String = fmt_2(t.hour);
    let mm: String = fmt_2(t.minute);
    let ss: String = fmt_2(t.second);
    s.append(mm.as_str());
    s.append(ss.as_str());
    proof {
        assert(s@ =~= compact_time(*t));
    }
    s
}

/// The local instant as `YYYY-MM-DD HH:MM:SS`.
pub open spec fn date_time_text(t: Timestamp) -> Seq<char> {
    year_digits(t.year as int) + "-"@ + two_digits(t.month as int) + "-"@ + two_digits(
        t.day as int,
    ) + " "@ + two_digits(t.hour as int) + ":"@ + two_digits(t.minute as int) + ":"@ + two_digits(
        t.second as int,
    )
}

/// Renders the local instant as `YYYY-MM-DD HH:MM:SS`.
pub fn fmt_date_time(t: &Timestamp) -> (r: String)
    requires
        t.wf(),
    ensures
        r@ == date_time_text(*t),
{
    let mut s: String = fmt_year(t.year);
    s.append("-");
    let p: String = fmt_2(t.month);
    s.append(p.as_str());
    s.append("-");
    let p: String = fmt_2(t.day);
    s.append(p.as_str());
    s.append(" ");
    let p: String = fmt_2(t.hour);
    s.append(p.as_str());
    s.append(":");
    let p: String = fmt_2(t.minute);
    s.append(p.as_str());
    s.append(":");
    let p: String = fmt_2(t.second);
    s.append(p.as_str());
    proof {
        assert(s@ =~= date_time_text(*t));
    }
    s
}

/// RFC 3339 rendering of the local instant, `YYYY-MM-DDTHH:MM:SS+HH:MM`.
pub open spec fn rfc3339_text(t: Timestamp) -> Seq<char> {
    let off = if t.offset_seconds >= 0 {
        t.offset_seconds as int
    } else {
        -(t.offset_seconds as int)
    };
    year_digits(t.year as int) + "-"@ + two_digits(t.month as int) + "-"@ + two_digits(
        t.day as int,
    ) + "T"@ + two_digits(t.hour as int) + ":"@ + two_digits(t.minute as int) + ":"@ + two_digits(
        t.second as int,
    ) + (if t.offset_seconds >= 0 {
        "+"@
    } else {
        "-"@
    }) + two_digits(off / 3600) + ":"@ + two_digits(off % 3600 / 60)
}

/// Renders the local instant in RFC 3339 form with its offset.
pub fn fmt_rfc3339(t: &Timestamp) -> (r: String)
    requires
        t.wf(),
    ensures
        r@ == rfc3339_text(*t),
{
    let mut s: String = fmt_year(t.year);
    s.append("-");
    let p: String = fmt_2(t.month);
    s.append(p.as_str());
    s.append("-");
    let p: String = fmt_2(t.day);
    s.append(p.as_str());
    s.append("T");
    let p: String = fmt_2(t.hour);
    s.append(p.as_str());
    s.append(":");
    let p: String = fmt_2(t.minute);
    s.append(p.as_str());
    s.append(":");
    let p: String = fmt_2(t.second);
    s.append(p.as_str());
    let off: i64 = t.offset_seconds as i64;
    let abs_off: u32 = if off >= 0 {
        off as u32
    } else {
        (-off) as u32
    };
    if off >= 0 {
        s.append("+");
    } else {
        s.append("-");
    }
    let p: String = fmt_2(abs_off / 3600);
    s.append(p.as_str());
    s.append(":");
    let p: String = fmt_2(abs_off % 3600 / 60);
    s.append(p.as_str());
    proof {
        assert(s@ =~= rfc3339_text(*t));
    }
    s
}

/// Seconds into the UTC day of the instant, 0 to 86399.
pub open spec fn utc_time_of_day(t: Timestamp) -> int {
    t.epoch_seconds as int % 86400
}

/// Computes the seconds into the UTC day.
pub fn utc_tod_seconds(t: &Timestamp) -> (r: u32)
    requires
        t.wf(),
    ensures
        r == utc_time_of_day(*t),
        r < 86400,
{
    let e: i64 = t.epoch_seconds;
    if e >= 0 {
        let m: u64 = (e as u64) % 86400;
        proof {
            let ei = e as int;
            assert(ei % 86400 == (e as u64) as int % 86400);
        }
        m as u32
    } else {
        let m: u64 = ((-e) as u64) % 86400;
        let r: u64 = if m == 0 {
            0
        } else {
            86400 - m
        };
        proof {
            let ei = e as int;
            let mi = m as int;
            assert(mi == (-ei) % 86400);
            assert((-ei) == 86400 * ((-ei) / 86400) + (-ei) % 86400) by (nonlinear_arith);
            if mi == 0 {
                assert(ei == 86400 * (-((-ei) / 86400)));
                assert(ei % 86400 == 0) by (nonlinear_arith)
                    requires ei == 86400 * (-((-ei) / 86400));
            } else {
                assert(ei == 86400 * (-((-ei) / 86400) - 1) + (86400 - mi));
                assert(ei % 86400 == 86400 - mi) by (nonlinear_arith)
                    requires
                        ei == 86400 * (-((-ei) / 86400) - 1) + (86400 - mi),
                        0 < 86400 - mi < 86400,
                ;
            }
        }
        r as u32
    }
}

} // verus!
