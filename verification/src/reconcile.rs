//! Reconciliation of legacy recordings: a file named
//! `recording_YYYYMMDD_HHMMSS.wav` is matched to a meeting without an audio
//! path when its encoded local date equals the meeting's and its encoded
//! time of day is nearest to the meeting's UTC wall clock, within half an
//! hour. A second run changes nothing.

use vstd::prelude::*;
use crate::store::{Meeting, MeetingStore, clone_string, clone_opt_string, meeting_wf, has_meeting};
use crate::time::{Timestamp, compact_date, utc_time_of_day, fmt_compact_date, utc_tod_seconds};
use crate::util::{digit_val, digit_of, str_eq, str_starts_with, str_ends_with};

verus! {

/// The fixed shape `recording_YYYYMMDD_HHMMSS.wav`: 29 characters, the two
/// literal markers, and fourteen digits.
pub open spec fn is_rec_name(n: Seq<char>) -> bool {
    &&& n.len() == 29
    &&& n.subrange(0, 10) == "recording_"@
    &&& n[18] == '_'
    &&& n.subrange(25, 29) == ".wav"@
    &&& forall|i: int| 10 <= i < 18 ==> digit_val(#[trigger] n[i]) >= 0
    &&& forall|i: int| 19 <= i < 25 ==> digit_val(#[trigger] n[i]) >= 0
}

/// The eight date digits of a recording file name.
pub open spec fn rec_name_date(n: Seq<char>) -> Seq<char> {
    n.subrange(10, 18)
}

/// The value of the two digits at `i`.
pub open spec fn two_digit_val(n: Seq<char>, i: int) -> int {
    digit_val(n[i]) * 10 + digit_val(n[i + 1])
}

/// The encoded time of day of a recording file name, in seconds.
pub open spec fn rec_name_tod(n: Seq<char>) -> int {
    two_digit_val(n, 19) * 3600 + two_digit_val(n, 21) * 60 + two_digit_val(n, 23)
}

/// A parsed legacy recording name: its date digits and time of day.
pub struct RecordingName {
    pub date: String,
    pub tod_seconds: u32,
}

/// Parses a file name of the `recording_YYYYMMDD_HHMMSS.wav` shape.
pub fn parse_recording_name(name: &str) -> (r: Option<RecordingName>)
    ensures
        match r {
            Option::Some(p) => is_rec_name(name@) && p.date@ == rec_name_date(name@)
                && p.tod_seconds == rec_name_tod(name@) && p.tod_seconds < 363000,
            Option::None => !is_rec_name(name@),
        },
{
    proof {
        reveal_strlit("recording_");
        reveal_strlit(".wav");
    }
    let len: usize = name.unicode_len();
    if len != 29 {
        return None;
    }
    if !str_starts_with(name, "recording_") {
        return None;
    }
    if name.get_char(18) != '_' {
        return None;
    }
    if !str_ends_with(name, ".wav") {
        return None;
    }
    let mut i: usize = 10;
    while i < 18
        invariant
            len == name@.len(),
            len == 29,
            10 <= i <= 18,
            forall|j: int| 10 <= j < i as int ==> digit_val(#[trigger] name@[j]) >= 0,
        decreases 18 - i,
    {
        if digit_of(name.get_char(i)).is_none() {
            return None;
        }
        i = i + 1;
    }
    let d0 = digit_of(name.get_char(19));
    let d1 = digit_of(name.get_char(20));
    let d2 = digit_of(name.get_char(21));
    let d3 = digit_of(name.get_char(22));
    let d4 = digit_of(name.get_char(23));
    let d5 = digit_of(name.get_char(24));
    let tod: u32 = match (d0, d1, d2, d3, d4, d5) {
        (Some(a), Some(b), Some(c), Some(d), Some(e), Some(f)) => (a * 10 + b) * 3600 + (c * 10
            + d) * 60 + (e * 10 + f),
        _ => {
            return None;
        },
    };
    let date: String = name.substring_char(10, 18).to_owned();
    proof {
        assert(name@.subrange(0, 10) =~= "recording_"@);
        assert(name@.subrange(25, 29) =~= ".wav"@);
        assert forall|j: int| 19 <= j < 25 implies digit_val(#[trigger] name@[j]) >= 0 by {
            assert(digit_val(name@[19]) >= 0);
            assert(digit_val(name@[20]) >= 0);
            assert(digit_val(name@[21]) >= 0);
            assert(digit_val(name@[22]) >= 0);
            assert(digit_val(name@[23]) >= 0);
            assert(digit_val(name@[24]) >= 0);
        }
        assert(is_rec_name(name@));
        assert(tod == rec_name_tod(name@));
    }
    Some(RecordingName { date, tod_seconds: tod })
}

/// Absolute difference.
pub open spec fn abs_int(a: int) -> int {
    if a >= 0 {
        a
    } else {
        -a
    }
}

/// A meeting still missing its audio path.
pub open spec fn needs_path(m: Meeting) -> bool {
    m.audio_file_path is None || (m.audio_file_path->0)@.len() == 0
}

/// `n` names a recording made on the meeting's local date.
pub open spec fn is_candidate(m: Meeting, n: Seq<char>) -> bool {
    is_rec_name(n) && rec_name_date(n) == compact_date(m.created_at)
}

/// Seconds between the meeting's UTC wall clock and the file's encoded time.
pub open spec fn cand_diff(m: Meeting, n: Seq<char>) -> int {
    abs_int(utc_time_of_day(m.created_at) - rec_name_tod(n))
}

/// The candidate file the scan settles on among the first `k` names: the
/// earliest one with the smallest time difference.
pub open spec fn best_of_prefix(m: Meeting, files: Seq<Seq<char>>, k: int) -> Option<int>
    decreases k,
{
    if k <= 0 {
        None
    } else {
        let prev = best_of_prefix(m, files, k - 1);
        if is_candidate(m, files[k - 1]) && (prev is None || cand_diff(m, files[k - 1]) < cand_diff(
            m,
            files[prev->0],
        )) {
            Some(k - 1)
        } else {
            prev
        }
    }
}

/// The candidate the whole scan settles on.
pub open spec fn best_of(m: Meeting, files: Seq<Seq<char>>) -> Option<int> {
    best_of_prefix(m, files, files.len() as int)
}

/// Views of a list of file names.
pub open spec fn file_views(files: Seq<String>) -> Seq<Seq<char>> {
    Seq::new(files.len(), |i: int| files[i]@)
}

/// The match is accepted: the meeting lacks a path and the nearest
/// same-date file is within 1800 seconds.
pub open spec fn would_update(m: Meeting, files: Seq<Seq<char>>) -> bool {
    needs_path(m) && match best_of(m, files) {
        Some(j) => cand_diff(m, files[j]) < 1800,
        None => false,
    }
}

/// The stored path of a matched file: the directory, a separator, the name.
pub open spec fn joined_path(dir: Seq<char>, name: Seq<char>) -> Seq<char> {
    dir + "/"@ + name
}

/// How one reconciliation pass rewrites meeting `m` into `m2`: an accepted
/// match fills the audio path with the matched file and stamps the update;
/// everything else is untouched.
pub open spec fn reconciled_rel(
    m: Meeting,
    m2: Meeting,
    files: Seq<Seq<char>>,
    dir: Seq<char>,
    now: Timestamp,
) -> bool {
    if would_update(m, files) {
        &&& m2.audio_file_path is Some
        &&& (m2.audio_file_path->0)@ == joined_path(dir, files[best_of(m, files)->0])
        &&& m2.updated_at == now
        &&& m2.id == m.id
        &&& m2.title == m.title
        &&& m2.created_at == m.created_at
        &&& m2.duration_seconds == m.duration_seconds
        &&& m2.transcript == m.transcript
        &&& m2.meeting_minutes == m.meeting_minutes
        &&& m2.language == m.language
        &&& m2.ai_provider == m.ai_provider
    } else {
        m2 == m
    }
}

/// How many meetings a pass over `files` would update.
pub open spec fn count_updates(ms: Seq<Meeting>, files: Seq<Seq<char>>) -> int
    decreases ms.len(),
{
    if ms.len() == 0 {
        0
    } else {
        count_updates(ms.drop_last(), files) + if would_update(ms.last(), files) {
            1int
        } else {
            0int
        }
    }
}

/// Reconciliation is idempotent at the level of one meeting: whatever a
/// pass produced is a meeting a second pass leaves alone.
pub proof fn lemma_reconcile_idempotent(
    m: Meeting,
    m2: Meeting,
    files: Seq<Seq<char>>,
    dir: Seq<char>,
    now: Timestamp,
)
    requires
        reconciled_rel(m, m2, files, dir, now),
    ensures
        !would_update(m2, files) || would_update(m, files) == false && would_update(m2, files)
            == would_update(m, files),
        would_update(m, files) ==> !would_update(m2, files),
        !would_update(m, files) ==> m2 == m,
{
    if would_update(m, files) {
        let j = best_of(m, files)->0;
        reveal_strlit("/");
        assert((m2.audio_file_path->0)@.len() == joined_path(dir, files[j]).len());
        assert(joined_path(dir, files[j]).len() >= dir.len() + 1);
        assert(!needs_path(m2));
    }
}

/// Reconciliation is idempotent across the store: after one pass, a second
/// pass over the same files counts no meeting to update.
pub proof fn lemma_reconcile_second_pass_empty(
    ms: Seq<Meeting>,
    ms2: Seq<Meeting>,
    files: Seq<Seq<char>>,
    dir: Seq<char>,
    now: Timestamp,
)
    requires
        ms.len() == ms2.len(),
        forall|i: int|
            0 <= i < ms.len() ==> reconciled_rel(#[trigger] ms[i], ms2[i], files, dir, now),
    ensures
        count_updates(ms2, files) == 0,
    decreases ms.len(),
{
    if ms.len() > 0 {
        let h = ms.drop_last();
        let h2 = ms2.drop_last();
        assert(forall|i: int| 0 <= i < h.len() ==> #[trigger] h[i] == ms[i] && h2[i] == ms2[i]);
        lemma_reconcile_second_pass_empty(h, h2, files, dir, now);
        lemma_reconcile_idempotent(ms.last(), ms2.last(), files, dir, now);
        if !would_update(ms.last(), files) {
            assert(ms2.last() == ms.last());
        }
        assert(!would_update(ms2.last(), files));
    }
}

impl MeetingStore {
    /// One reconciliation pass: for every meeting without an audio path,
    /// adopt the same-date recording file nearest in time when it lies
    /// within half an hour. Returns how many meetings were updated; by
    /// [`lemma_reconcile_second_pass_empty`] a second pass returns zero.
    pub fn reconcile_audio_paths(
        &mut self,
        dir: &String,
        files: &Vec<String>,
        now: Timestamp,
    ) -> (updated: usize)
        requires
            old(self).wf(),
            now.wf(),
            forall|i: int|
                0 <= i < old(self).meetings@.len() ==> now.epoch_seconds >= (#[trigger] old(
                    self,
                ).meetings@[i]).created_at.epoch_seconds,
        ensures
            final(self).wf(),
            final(self).segments@ == old(self).segments@,
            final(self).meetings@.len() == old(self).meetings@.len(),
            forall|i: int|
                0 <= i < old(self).meetings@.len() ==> reconciled_rel(
                    #[trigger] old(self).meetings@[i],
                    final(self).meetings@[i],
                    file_views(files@),
                    dir@,
                    now,
                ),
            updated == count_updates(old(self).meetings@, file_views(files@)),
    {
        let ghost fv = file_views(files@);
        let ghost orig = old(self).meetings@;
        let n: usize = self.meetings.len();
        let nf: usize = files.len();
        let mut updated: usize = 0;
        let mut i: usize = 0;
        while i < n
            invariant
                old(self).wf(),
                now.wf(),
                forall|t: int|
                    0 <= t < orig.len() ==> now.epoch_seconds >= (
                    #[trigger] orig[t]).created_at.epoch_seconds,
                fv == file_views(files@),
                nf == files@.len(),
                orig == old(self).meetings@,
                n == orig.len(),
                self.meetings@.len() == n,
                self.segments@ == old(self).segments@,
                i <= n,
                updated <= i,
                forall|t: int| i as int <= t < n as int ==> #[trigger] self.meetings@[t] == orig[t],
                forall|t: int|
                    0 <= t < i as int ==> reconciled_rel(
                        #[trigger] orig[t],
                        self.meetings@[t],
                        fv,
                        dir@,
                        now,
                    ),
                updated as int == count_updates(orig.take(i as int), fv),
            decreases n - i,
        {
            proof {
                assert(orig.take(i as int + 1).drop_last() =~= orig.take(i as int));
                assert(orig.take(i as int + 1).last() == orig[i as int]);
            }
            let needs: bool = match &self.meetings[i].audio_file_path {
                None => true,
                Some(p) => p.unicode_len() == 0,
            };
            let md: String = fmt_compact_date(&self.meetings[i].created_at);
            let tod_m: u32 = utc_tod_seconds(&self.meetings[i].created_at);
            let mut best_idx: usize = 0;
            let mut best_diff: u32 = 0;
            let mut have_best: bool = false;
            let mut k: usize = 0;
            while k < nf
                invariant
                    nf == files@.len(),
                    fv == file_views(files@),
                    i < n,
                    n == self.meetings@.len(),
                    self.meetings@[i as int] == orig[i as int],
                    orig[i as int].created_at.wf(),
                    md@ == compact_date(orig[i as int].created_at),
                    tod_m == utc_time_of_day(orig[i as int].created_at),
                    tod_m < 86400,
                    k <= nf,
                    !have_best ==> best_of_prefix(orig[i as int], fv, k as int) is None,
                    have_best ==> {
                        &&& best_idx < k
                        &&& best_of_prefix(orig[i as int], fv, k as int) == Some(best_idx as int)
                        &&& best_diff == cand_diff(orig[i as int], fv[best_idx as int])
                    },
                decreases nf - k,
            {
                let parsed = parse_recording_name(files[k].as_str());
                let mut cand: bool = false;
                let mut diff: u32 = 0;
                match parsed {
                    Some(p) => {
                        if str_eq(p.date.as_str(), md.as_str()) {
                            cand = true;
                            diff = if tod_m >= p.tod_seconds {
                                tod_m - p.tod_seconds
                            } else {
                                p.tod_seconds - tod_m
                            };
                        }
                    },
                    None => {},
                }
                proof {
                    assert(fv[k as int] == files@[k as int]@);
                    assert(cand == is_candidate(orig[i as int], fv[k as int]));
                    if cand {
                        assert(diff == cand_diff(orig[i as int], fv[k as int]));
                    }
                }
                if cand && (!have_best || diff < best_diff) {
                    best_idx = k;
                    best_diff = diff;
                    have_best = true;
                }
                k = k + 1;
            }
            if needs && have_best && best_diff < 1800 {
                let m = &self.meetings[i];
                let mut path: String = clone_string(dir);
                path.append("/");
                path.append(files[best_idx].as_str());
                let replacement = Meeting {
                    id: clone_string(&m.id),
                    title: clone_string(&m.title),
                    created_at: m.created_at,
                    updated_at: now,
                    duration_seconds: m.duration_seconds,
                    audio_file_path: Some(path),
                    transcript: clone_opt_string(&m.transcript),
                    meeting_minutes: clone_opt_string(&m.meeting_minutes),
                    language: clone_opt_string(&m.language),
                    ai_provider: clone_opt_string(&m.ai_provider),
                };
                self.meetings.set(i, replacement);
                updated = updated + 1;
                proof {
                    assert(would_update(orig[i as int], fv));
                    assert(reconciled_rel(orig[i as int], self.meetings@[i as int], fv, dir@, now));
                }
            } else {
                proof {
                    assert(!would_update(orig[i as int], fv));
                    assert(reconciled_rel(orig[i as int], self.meetings@[i as int], fv, dir@, now));
                }
            }
            i = i + 1;
        }
        proof {
            assert(orig.take(n as int) =~= orig);
            assert forall|t: int|
                0 <= t < self.meetings@.len() implies (#[trigger] self.meetings@[t]).id@
                == orig[t].id@ by {
                if would_update(orig[t], fv) {
                } else {
                }
            }
            assert forall|i2: int, j2: int|
                0 <= i2 < j2 < self.meetings@.len() implies (#[trigger] self.meetings@[i2]).id@
                != (#[trigger] self.meetings@[j2]).id@ by {
                assert(orig[i2].id@ != orig[j2].id@);
            }
            assert forall|t: int|
                0 <= t < self.meetings@.len() implies meeting_wf_at(self.meetings@, t) by {
                assert(meeting_wf(orig[t]));
            }
            assert forall|t: int|
                0 <= t < self.segments@.len() implies has_meeting_for_segment(
                self.meetings@,
                self.segments@,
                t,
            ) by {
                let mid = self.segments@[t].meeting_id@;
                assert(has_meeting(orig, mid));
                let j = choose|j: int| 0 <= j < orig.len() && (#[trigger] orig[j]).id@ == mid;
                assert(self.meetings@[j].id@ == mid);
            }
        }
        updated
    }
}

/// Meeting `t` of `ms` is well formed.
pub open spec fn meeting_wf_at(ms: Seq<Meeting>, t: int) -> bool {
    meeting_wf(ms[t])
}

/// Segment `t` of `ss` has its meeting in `ms`.
pub open spec fn has_meeting_for_segment(
    ms: Seq<Meeting>,
    ss: Seq<crate::store::MeetingSegment>,
    t: int,
) -> bool {
    has_meeting(ms, ss[t].meeting_id@)
}

} // verus!
