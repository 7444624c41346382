//! Trusted boundary to host facilities: the wall clock, random identifiers,
//! and the user's home directory. Each wrapper makes one outside call and
//! only converts its result.

use vstd::prelude::*;
use crate::time::Timestamp;
use chrono::{Datelike, Timelike, Offset};

verus! {

/// Relies on chrono's `Local::now` with the `Datelike`/`Timelike` accessors
/// and `FixedOffset::local_minus_utc`: `timestamp()` is the Unix second,
/// the calendar fields lie in their documented ranges (month 1–12, day
/// 1–31, hour 0–23, minute and second 0–59, year and timestamp within
/// chrono's representable date span), and the offset is less than a day.
#[verifier::external_body]
pub fn now_local() -> (t: Timestamp)
    ensures
        t.wf(),
{
    let now = chrono::Local::now();
    Timestamp {
        epoch_seconds: now.timestamp(),
        year: now.year(),
        month: now.month(),
        day: now.day(),
        hour: now.hour(),
        minute: now.minute(),
        second: now.second(),
        offset_seconds: now.offset().fix().local_minus_utc(),
    }
}

/// Relies on uuid's `Uuid::new_v4` and its `Display`: a fresh random
/// version-4 identifier rendered in the 36-character hyphenated form.
#[verifier::external_body]
pub fn uuid_v4_string() -> (r: String)
    ensures
        r@.len() == 36,
{
    uuid::Uuid::new_v4().to_string()
}

/// Relies on dirs' `home_dir`: the user's home directory as text, when the
/// host knows one. Nothing more is promised of its value.
#[verifier::external_body]
pub fn home_dir_string() -> (r: Option<String>) {
    dirs::home_dir().map(|p| p.to_string_lossy().into_owned())
}

} // verus!
