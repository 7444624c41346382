//! Composite store operations behind the command surface: title and
//! minutes updates, and the wholesale replacement of a meeting's
//! transcript and segments after a recognition run.

use vstd::prelude::*;
use crate::errors::RecorderError;
use crate::host::uuid_v4_string;
use crate::store::{
    Meeting, MeetingSegment, MeetingStore, has_meeting, merged_meeting, clone_meeting,
    clone_string, clone_opt_string, drop_segments_of, meeting_ids_unique, find_meeting,
};
use crate::time::Timestamp;
use crate::transcript::TranscriptionSegment;
use crate::sample::trunc_div;

verus! {

/// With unique identities, the meeting found for an id is the one at any
/// matching index.
pub proof fn lemma_find_unique(ms: Seq<Meeting>, id: Seq<char>, i: int)
    requires
        meeting_ids_unique(ms),
        0 <= i < ms.len(),
        ms[i].id@ == id,
    ensures
        find_meeting(ms, id) == Some(ms[i]),
    decreases ms.len(),
{
    if ms[0].id@ == id {
        assert(i == 0);
    } else {
        assert(i > 0);
        let tail = ms.drop_first();
        assert(forall|a: int| 0 <= a < tail.len() ==> tail[a] == ms[a + 1]);
        lemma_find_unique(tail, id, i - 1);
    }
}

/// Replaces only the title of the meeting carrying `id`; everything else
/// is kept and the update is stamped. A missing identity is `NotFound`.
pub fn update_meeting_title(
    store: &mut MeetingStore,
    id: &String,
    title: String,
    now: Timestamp,
) -> (r: Result<(), RecorderError>)
    requires
        old(store).wf(),
        now.wf(),
        forall|i: int|
            0 <= i < old(store).meetings@.len() ==> now.epoch_seconds >= (#[trigger] old(
                store,
            ).meetings@[i]).created_at.epoch_seconds,
    ensures
        final(store).wf(),
        final(store).segments@ == old(store).segments@,
        match r {
            Result::Ok(()) => {
                &&& has_meeting(old(store).meetings@, id@)
                &&& final(store).meetings@.len() == old(store).meetings@.len()
                &&& forall|i: int|
                    0 <= i < old(store).meetings@.len() ==> #[trigger] final(store).meetings@[i]
                        == (if old(store).meetings@[i].id@ == id@ {
                        Meeting {
                            title: title,
                            updated_at: now,
                            ..old(store).meetings@[i]
                        }
                    } else {
                        old(store).meetings@[i]
                    })
            },
            Result::Err(e) => {
                &&& e == RecorderError::NotFound
                &&& !has_meeting(old(store).meetings@, id@)
                &&& final(store).meetings@ == old(store).meetings@
            },
        },
{
    let found: Option<Meeting> = store.get_meeting(id);
    let m: Meeting = match found {
        Some(m) => m,
        None => {
            return Err(RecorderError::NotFound);
        },
    };
    let updated = Meeting {
        id: clone_string(&m.id),
        title,
        created_at: m.created_at,
        updated_at: m.updated_at,
        duration_seconds: m.duration_seconds,
        audio_file_path: clone_opt_string(&m.audio_file_path),
        transcript: clone_opt_string(&m.transcript),
        meeting_minutes: clone_opt_string(&m.meeting_minutes),
        language: clone_opt_string(&m.language),
        ai_provider: clone_opt_string(&m.ai_provider),
    };
    store.update_meeting(&updated, now);
    proof {
        assert forall|i: int|
            0 <= i < old(store).meetings@.len() implies #[trigger] store.meetings@[i] == (if old(
            store,
        ).meetings@[i].id@ == id@ {
            Meeting { title: updated.title, updated_at: now, ..old(store).meetings@[i] }
        } else {
            old(store).meetings@[i]
        }) by {
            if old(store).meetings@[i].id@ == id@ {
                lemma_find_unique(old(store).meetings@, id@, i);
                assert(m == old(store).meetings@[i]);
                assert(store.meetings@[i] == merged_meeting(old(store).meetings@[i], updated, now));
            }
        }
    }
    Ok(())
}

/// Stores generated minutes on the meeting carrying `meeting_id`, stamping
/// the provider that produced them. A missing identity is `NotFound`.
pub fn save_meeting_minutes_to_database(
    store: &mut MeetingStore,
    meeting_id: &String,
    meeting_minutes: String,
    ai_provider: String,
    now: Timestamp,
) -> (r: Result<(), RecorderError>)
    requires
        old(store).wf(),
        now.wf(),
        forall|i: int|
            0 <= i < old(store).meetings@.len() ==> now.epoch_seconds >= (#[trigger] old(
                store,
            ).meetings@[i]).created_at.epoch_seconds,
    ensures
        final(store).wf(),
        final(store).segments@ == old(store).segments@,
        match r {
            Result::Ok(()) => {
                &&& has_meeting(old(store).meetings@, meeting_id@)
                &&& final(store).meetings@.len() == old(store).meetings@.len()
                &&& forall|i: int|
                    0 <= i < old(store).meetings@.len() ==> #[trigger] final(store).meetings@[i]
                        == (if old(store).meetings@[i].id@ == meeting_id@ {
                        Meeting {
                            meeting_minutes: Some(meeting_minutes),
                            ai_provider: Some(ai_provider),
                            updated_at: now,
                            ..old(store).meetings@[i]
                        }
                    } else {
                        old(store).meetings@[i]
                    })
            },
            Result::Err(e) => {
                &&& e == RecorderError::NotFound
                &&& !has_meeting(old(store).meetings@, meeting_id@)
                &&& final(store).meetings@ == old(store).meetings@
            },
        },
{
    let found: Option<Meeting> = store.get_meeting(meeting_id);
    let m: Meeting = match found {
        Some(m) => m,
        None => {
            return Err(RecorderError::NotFound);
        },
    };
    let updated = Meeting {
        id: clone_string(&m.id),
        title: clone_string(&m.title),
        created_at: m.created_at,
        updated_at: m.updated_at,
        duration_seconds: m.duration_seconds,
        audio_file_path: clone_opt_string(&m.audio_file_path),
        transcript: clone_opt_string(&m.transcript),
        meeting_minutes: Some(meeting_minutes),
        language: clone_opt_string(&m.language),
        ai_provider: Some(ai_provider),
    };
    store.update_meeting(&updated, now);
    proof {
        assert forall|i: int|
            0 <= i < old(store).meetings@.len() implies #[trigger] store.meetings@[i] == (if old(
            store,
        ).meetings@[i].id@ == meeting_id@ {
            Meeting {
                meeting_minutes: updated.meeting_minutes,
                ai_provider: updated.ai_provider,
                updated_at: now,
                ..old(store).meetings@[i]
            }
        } else {
            old(store).meetings@[i]
        }) by {
            if old(store).meetings@[i].id@ == meeting_id@ {
                lemma_find_unique(old(store).meetings@, meeting_id@, i);
                assert(m == old(store).meetings@[i]);
                assert(store.meetings@[i] == merged_meeting(old(store).meetings@[i], updated, now));
            }
        }
    }
    Ok(())
}

/// The meeting duration taken from recognizer spans: the largest end time
/// in whole seconds, zero with no spans.
pub open spec fn max_end_seconds(ss: Seq<TranscriptionSegment>, k: int) -> int
    decreases k,
{
    if k <= 0 {
        0
    } else {
        let prev = max_end_seconds(ss, k - 1);
        let cur = trunc_div(ss[k - 1].end as int, 100);
        if cur > prev {
            cur
        } else {
            prev
        }
    }
}

/// Computes the duration recognizer spans imply.
pub fn duration_from_segments(segments: &Vec<TranscriptionSegment>) -> (r: i64)
    requires
        forall|i: int|
            0 <= i < segments@.len() ==> -0x1_0000_0000_0000 <= (#[trigger] segments@[i]).end
                <= 0x1_0000_0000_0000,
    ensures
        r == max_end_seconds(segments@, segments@.len() as int),
{
    let n: usize = segments.len();
    let mut best: i64 = 0;
    let mut i: usize = 0;
    while i < n
        invariant
            n == segments@.len(),
            forall|t: int|
                0 <= t < segments@.len() ==> -0x1_0000_0000_0000 <= (#[trigger] segments@[t]).end
                    <= 0x1_0000_0000_0000,
            i <= n,
            best == max_end_seconds(segments@, i as int),
            -0x1_0000_0000_0000 <= best <= 0x1_0000_0000_0000,
        decreases n - i,
    {
        let e: i64 = segments[i].end;
        let secs: i64 = if e >= 0 {
            ((e as u64) / 100) as i64
        } else {
            -((((-e) as u64) / 100) as i64)
        };
        proof {
            let ei = e as int;
            assert(ei < 0 ==> (-ei) / 100 <= -ei) by (nonlinear_arith);
            assert(ei >= 0 ==> ei / 100 <= ei) by (nonlinear_arith);
            assert(secs == trunc_div(ei, 100));
        }
        if secs > best {
            best = secs;
        }
        i = i + 1;
    }
    best
}

/// A stored row built from one recognizer span: centisecond times and the
/// text carried over, a fresh 36-character identity, no confidence.
pub open spec fn stored_span_rel(
    span: TranscriptionSegment,
    meeting_id: Seq<char>,
    stored: MeetingSegment,
) -> bool {
    &&& stored.meeting_id@ == meeting_id
    &&& stored.start_time == span.start
    &&& stored.end_time == span.end
    &&& stored.text == span.text
    &&& stored.confidence is None
    &&& stored.id@.len() == 36
}

/// The duration a transcript save stores: the spans' largest end in whole
/// seconds, else the fallback the host derived from the audio file.
pub open spec fn transcript_duration(
    segments: Seq<TranscriptionSegment>,
    fallback: Option<i64>,
) -> int {
    if segments.len() > 0 {
        max_end_seconds(segments, segments.len() as int)
    } else {
        match fallback {
            Some(d) => d as int,
            None => 0int,
        }
    }
}

/// How a transcript save rewrites the meeting list: the row carrying
/// `meeting_id` takes the given fields and the computed duration over its
/// own identity, creation time, minutes and provider; every other row is
/// untouched.
pub open spec fn transcript_meetings_updated(
    olds: Seq<Meeting>,
    news: Seq<Meeting>,
    meeting_id: Seq<char>,
    title: String,
    transcript: String,
    audio_file_path: Option<String>,
    language: Option<String>,
    dur: int,
    now: Timestamp,
) -> bool {
    &&& news.len() == olds.len()
    &&& forall|i: int|
        0 <= i < olds.len() ==> {
            let row = #[trigger] news[i];
            if olds[i].id@ == meeting_id {
                &&& row.id == olds[i].id
                &&& row.title == title
                &&& row.created_at == olds[i].created_at
                &&& row.updated_at == now
                &&& row.duration_seconds is Some
                &&& row.duration_seconds->0 as int == dur
                &&& row.audio_file_path == audio_file_path
                &&& row.transcript == Some(transcript)
                &&& row.meeting_minutes == olds[i].meeting_minutes
                &&& row.language == language
                &&& row.ai_provider == olds[i].ai_provider
            } else {
                row == olds[i]
            }
        }
}

/// What a failed span insertion leaves behind: the meeting row already
/// carries the update, the kept rows stand unchanged, and a leading slice
/// — never all — of the spans is stored.
pub open spec fn transcript_partial(
    old_meetings: Seq<Meeting>,
    old_segments: Seq<MeetingSegment>,
    new_meetings: Seq<Meeting>,
    new_segments: Seq<MeetingSegment>,
    meeting_id: Seq<char>,
    title: String,
    transcript: String,
    segments: Seq<TranscriptionSegment>,
    audio_file_path: Option<String>,
    language: Option<String>,
    fallback_duration: Option<i64>,
    now: Timestamp,
) -> bool {
    &&& transcript_meetings_updated(
        old_meetings,
        new_meetings,
        meeting_id,
        title,
        transcript,
        audio_file_path,
        language,
        transcript_duration(segments, fallback_duration),
        now,
    )
    &&& drop_segments_of(old_segments, meeting_id).len() <= new_segments.len()
    &&& new_segments.len() < drop_segments_of(old_segments, meeting_id).len() + segments.len()
    &&& forall|j: int|
        0 <= j < drop_segments_of(old_segments, meeting_id).len()
            ==> #[trigger] new_segments[j] == drop_segments_of(old_segments, meeting_id)[j]
    &&& forall|j: int|
        drop_segments_of(old_segments, meeting_id).len() <= j < new_segments.len() ==> {
            let stored = #[trigger] new_segments[j];
            stored_span_rel(
                segments[j - drop_segments_of(old_segments, meeting_id).len()],
                meeting_id,
                stored,
            )
        }
}

/// Replaces the transcript of the meeting carrying `meeting_id`: the
/// meeting's mutable fields take the given values, its duration comes from
/// the spans (or the fallback the host derived from the audio file), its
/// old segments are removed wholesale, and each span is stored under a
/// fresh identity. A missing meeting is `NotFound` and changes nothing;
/// with no spans the call is owed success. A span a database would refuse,
/// or an identity clash of the random draw, stops the insertion as a
/// `StorageError` with the meeting already updated and exactly the spans
/// before the failing one stored.
pub fn update_meeting_transcript(
    store: &mut MeetingStore,
    meeting_id: &String,
    title: String,
    transcript: String,
    segments: &Vec<TranscriptionSegment>,
    language: Option<String>,
    audio_file_path: Option<String>,
    fallback_duration: Option<i64>,
    now: Timestamp,
) -> (r: Result<Meeting, RecorderError>)
    requires
        old(store).wf(),
        now.wf(),
        forall|i: int|
            0 <= i < old(store).meetings@.len() && (#[trigger] old(store).meetings@[i]).id@
                == meeting_id@ ==> now.epoch_seconds
                >= old(store).meetings@[i].created_at.epoch_seconds,
        forall|i: int|
            0 <= i < segments@.len() ==> -0x1_0000_0000_0000 <= (#[trigger] segments@[i]).end
                <= 0x1_0000_0000_0000,
    ensures
        final(store).wf(),
        has_meeting(old(store).meetings@, meeting_id@) && segments@.len() == 0 ==> r is Ok,
        match r {
            Result::Ok(m) => {
                &&& has_meeting(old(store).meetings@, meeting_id@)
                &&& m.id@ == meeting_id@
                &&& m.title == title
                &&& m.transcript == Some(transcript)
                &&& m.audio_file_path == audio_file_path
                &&& m.language == language
                &&& m.updated_at == now
                &&& m.duration_seconds is Some
                &&& m.duration_seconds->0 as int == transcript_duration(
                    segments@,
                    fallback_duration,
                )
                &&& final(store).meetings@.len() == old(store).meetings@.len()
                &&& forall|i: int|
                    0 <= i < old(store).meetings@.len() ==> #[trigger] final(store).meetings@[i]
                        == (if old(store).meetings@[i].id@ == meeting_id@ {
                        m
                    } else {
                        old(store).meetings@[i]
                    })
                &&& final(store).segments@.len() == drop_segments_of(
                    old(store).segments@,
                    meeting_id@,
                ).len() + segments@.len()
                &&& forall|j: int|
                    0 <= j < drop_segments_of(old(store).segments@, meeting_id@).len()
                        ==> #[trigger] final(store).segments@[j] == drop_segments_of(
                        old(store).segments@,
                        meeting_id@,
                    )[j]
                &&& forall|j: int|
                    0 <= j < segments@.len() ==> {
                        let stored = #[trigger] final(store).segments@[drop_segments_of(
                            old(store).segments@,
                            meeting_id@,
                        ).len() + j];
                        stored_span_rel(segments@[j], meeting_id@, stored)
                    }
            },
            Result::Err(e) => {
                &&& (e == RecorderError::NotFound || e == RecorderError::StorageError)
                &&& (e == RecorderError::NotFound <==> !has_meeting(
                    old(store).meetings@,
                    meeting_id@,
                ))
                &&& (e == RecorderError::NotFound ==> *final(store) == *old(store))
                &&& (e != RecorderError::StorageError || transcript_partial(
                    old(store).meetings@,
                    old(store).segments@,
                    final(store).meetings@,
                    final(store).segments@,
                    meeting_id@,
                    title,
                    transcript,
                    segments@,
                    audio_file_path,
                    language,
                    fallback_duration,
                    now,
                ))
            },
        },
{
    let found: Option<Meeting> = store.get_meeting(meeting_id);
    let m: Meeting = match found {
        Some(m) => m,
        None => {
            return Err(RecorderError::NotFound);
        },
    };
    let duration: i64 = if segments.len() > 0 {
        duration_from_segments(segments)
    } else {
        match fallback_duration {
            Some(d) => d,
            None => 0,
        }
    };
    proof {
        assert(duration as int == transcript_duration(segments@, fallback_duration));
    }
    let updated = Meeting {
        id: clone_string(&m.id),
        title: clone_string(&title),
        created_at: m.created_at,
        updated_at: m.updated_at,
        duration_seconds: Some(duration),
        audio_file_path: clone_opt_string(&audio_file_path),
        transcript: Some(clone_string(&transcript)),
        meeting_minutes: clone_opt_string(&m.meeting_minutes),
        language: clone_opt_string(&language),
        ai_provider: clone_opt_string(&m.ai_provider),
    };
    store.update_meeting(&updated, now);
    let ghost meetings_after = store.meetings@;
    proof {
        let i0 = choose|i: int|
            0 <= i < old(store).meetings@.len() && (#[trigger] old(store).meetings@[i]).id@
                == meeting_id@;
        assert(store.meetings@[i0].id@ == meeting_id@);
        assert(has_meeting(store.meetings@, meeting_id@));
        assert forall|i: int|
            0 <= i < old(store).meetings@.len() implies {
            let row = #[trigger] meetings_after[i];
            if old(store).meetings@[i].id@ == meeting_id@ {
                &&& row.id == old(store).meetings@[i].id
                &&& row.title == title
                &&& row.created_at == old(store).meetings@[i].created_at
                &&& row.updated_at == now
                &&& row.duration_seconds is Some
                &&& row.duration_seconds->0 as int == transcript_duration(
                    segments@,
                    fallback_duration,
                )
                &&& row.audio_file_path == audio_file_path
                &&& row.transcript == Some(transcript)
                &&& row.meeting_minutes == old(store).meetings@[i].meeting_minutes
                &&& row.language == language
                &&& row.ai_provider == old(store).meetings@[i].ai_provider
            } else {
                row == old(store).meetings@[i]
            }
        } by {
            if old(store).meetings@[i].id@ == meeting_id@ {
                lemma_find_unique(old(store).meetings@, meeting_id@, i);
                assert(m == old(store).meetings@[i]);
                assert(meetings_after[i] == merged_meeting(old(store).meetings@[i], updated, now));
            }
        }
        assert(transcript_meetings_updated(
            old(store).meetings@,
            meetings_after,
            meeting_id@,
            title,
            transcript,
            audio_file_path,
            language,
            transcript_duration(segments@, fallback_duration),
            now,
        ));
    }
    store.delete_meeting_segments(meeting_id);
    let ghost base = store.segments@;
    let n: usize = segments.len();
    let mut j: usize = 0;
    while j < n
        invariant
            store.wf(),
            n == segments@.len(),
            j <= n,
            store.meetings@ == meetings_after,
            base == drop_segments_of(old(store).segments@, meeting_id@),
            has_meeting(store.meetings@, meeting_id@),
            has_meeting(old(store).meetings@, meeting_id@),
            transcript_meetings_updated(
                old(store).meetings@,
                store.meetings@,
                meeting_id@,
                title,
                transcript,
                audio_file_path,
                language,
                transcript_duration(segments@, fallback_duration),
                now,
            ),
            store.segments@.len() == base.len() + j,
            forall|t: int| 0 <= t < base.len() ==> #[trigger] store.segments@[t] == base[t],
            forall|t: int|
                0 <= t < j as int ==> {
                    let stored = #[trigger] store.segments@[base.len() + t];
                    stored_span_rel(segments@[t], meeting_id@, stored)
                },
        decreases n - j,
    {
        let seg_id: String = uuid_v4_string();
        let seg = MeetingSegment {
            id: seg_id,
            meeting_id: clone_string(meeting_id),
            start_time: segments[j].start,
            end_time: segments[j].end,
            text: clone_string(&segments[j].text),
            confidence: None,
        };
        match store.add_meeting_segment(seg) {
            Ok(()) => {},
            Err(_) => {
                proof {
                    assert forall|t: int|
                        base.len() <= t < store.segments@.len() implies {
                        let stored = #[trigger] store.segments@[t];
                        stored_span_rel(segments@[t - base.len()], meeting_id@, stored)
                    } by {
                        let t0 = t - base.len();
                        assert(store.segments@[base.len() + t0] == store.segments@[t]);
                    }
                }
                return Err(RecorderError::StorageError);
            },
        }
        j = j + 1;
    }
    let result: Meeting = clone_meeting(&updated);
    let final_meeting = Meeting { updated_at: now, ..result };
    proof {
        assert forall|i: int|
            0 <= i < old(store).meetings@.len() implies #[trigger] store.meetings@[i] == (if old(
            store,
        ).meetings@[i].id@ == meeting_id@ {
            final_meeting
        } else {
            old(store).meetings@[i]
        }) by {
            if old(store).meetings@[i].id@ == meeting_id@ {
                lemma_find_unique(old(store).meetings@, meeting_id@, i);
                assert(m == old(store).meetings@[i]);
                assert(meetings_after[i] == merged_meeting(old(store).meetings@[i], updated, now));
                assert(store.meetings@[i] == meetings_after[i]);
                assert(updated.id == old(store).meetings@[i].id);
                assert(updated.created_at == old(store).meetings@[i].created_at);
                assert(merged_meeting(old(store).meetings@[i], updated, now) == final_meeting);
            } else {
                assert(meetings_after[i] == old(store).meetings@[i]);
            }
        }
    }
    Ok(final_meeting)
}

/// What a failed post-hoc save leaves behind when the meeting row was
/// already created: the old rows untouched, one new meeting with a fresh
/// identity carrying the given title and language (and the transcript and
/// path once the update ran), and a leading slice of the spans stored
/// against it.
pub open spec fn saved_partial(
    old_meetings: Seq<Meeting>,
    old_segments: Seq<MeetingSegment>,
    s: MeetingStore,
    title: String,
    transcript: String,
    segments: Seq<TranscriptionSegment>,
    language: Option<String>,
    audio_file_path: Option<String>,
) -> bool {
    &&& s.meetings@.len() == old_meetings.len() + 1
    &&& forall|i: int| 0 <= i < old_meetings.len() ==> #[trigger] s.meetings@[i] == old_meetings[i]
    &&& {
        let row = s.meetings@[old_meetings.len() as int];
        &&& row.id@.len() == 36
        &&& !has_meeting(old_meetings, row.id@)
        &&& row.title == title
        &&& row.language == language
        &&& (row.transcript is None || row.transcript == Some(transcript))
        &&& (row.audio_file_path is None || row.audio_file_path == audio_file_path)
    }
    &&& old_segments.len() <= s.segments@.len() <= old_segments.len() + segments.len()
    &&& forall|j: int| 0 <= j < old_segments.len() ==> #[trigger] s.segments@[j] == old_segments[j]
    &&& forall|j: int|
        old_segments.len() <= j < s.segments@.len() ==> {
            let stored = #[trigger] s.segments@[j];
            stored_span_rel(
                segments[j - old_segments.len()],
                s.meetings@[old_meetings.len() as int].id@,
                stored,
            )
        }
}

/// Stores a post-hoc transcription as a new meeting: creates the meeting,
/// then attaches the transcript and spans to it. The identity and the
/// clock come from the host, so an identity clash surfaces as
/// `StorageError` — with the store unchanged, or holding exactly the one
/// new meeting and a leading slice of its spans.
pub fn save_transcript_to_database(
    store: &mut MeetingStore,
    title: String,
    transcript: String,
    segments: &Vec<TranscriptionSegment>,
    language: Option<String>,
    audio_file_path: Option<String>,
    fallback_duration: Option<i64>,
) -> (r: Result<Meeting, RecorderError>)
    requires
        old(store).wf(),
        forall|i: int|
            0 <= i < segments@.len() ==> -0x1_0000_0000_0000 <= (#[trigger] segments@[i]).end
                <= 0x1_0000_0000_0000,
    ensures
        final(store).wf(),
        match r {
            Result::Ok(m) => {
                &&& m.title == title
                &&& m.transcript == Some(transcript)
                &&& m.audio_file_path == audio_file_path
                &&& m.language == language
                &&& m.id@.len() == 36
                &&& !has_meeting(old(store).meetings@, m.id@)
                &&& has_meeting(final(store).meetings@, m.id@)
                &&& m.duration_seconds is Some
                &&& m.duration_seconds->0 as int == transcript_duration(
                    segments@,
                    fallback_duration,
                )
                &&& final(store).meetings@.len() == old(store).meetings@.len() + 1
                &&& forall|i: int|
                    0 <= i < old(store).meetings@.len() ==> #[trigger] final(store).meetings@[i]
                        == old(store).meetings@[i]
            },
            Result::Err(e) => {
                &&& e == RecorderError::StorageError
                &&& ((final(store).meetings@ == old(store).meetings@ && final(store).segments@
                    == old(store).segments@) || saved_partial(
                    old(store).meetings@,
                    old(store).segments@,
                    *final(store),
                    title,
                    transcript,
                    segments@,
                    language,
                    audio_file_path,
                ))
            },
        },
{
    let created: Meeting = match store.create_meeting(
        clone_string(&title),
        clone_opt_string(&language),
    ) {
        Ok(m) => m,
        Err(e) => {
            return Err(RecorderError::StorageError);
        },
    };
    let ghost after_create = store.meetings@;
    proof {
        assert(after_create[after_create.len() - 1] == created);
        assert(has_meeting(store.meetings@, created.id@));
    }
    let now: Timestamp = crate::host::now_local();
    if now.epoch_seconds < created.created_at.epoch_seconds {
        // A clock step backwards between the two reads; refuse rather than
        // store an update older than the creation.
        proof {
            assert(saved_partial(
                old(store).meetings@,
                old(store).segments@,
                *store,
                title,
                transcript,
                segments@,
                language,
                audio_file_path,
            ));
        }
        return Err(RecorderError::StorageError);
    }
    proof {
        assert forall|i: int|
            0 <= i < store.meetings@.len() && (#[trigger] store.meetings@[i]).id@ == created.id@
            implies now.epoch_seconds >= store.meetings@[i].created_at.epoch_seconds by {
            if i < store.meetings@.len() - 1 {
                assert(store.meetings@[i].id@ != created.id@);
            }
        }
        assert forall|j: int|
            0 <= j < store.segments@.len() implies (#[trigger] store.segments@[j]).meeting_id@
            != created.id@ by {
            let mid = store.segments@[j].meeting_id@;
            assert(has_meeting(old(store).meetings@, mid));
            let t = choose|t: int|
                0 <= t < old(store).meetings@.len() && (#[trigger] old(
                    store,
                ).meetings@[t]).id@ == mid;
        }
        crate::store::lemma_drop_segments_noop(store.segments@, created.id@);
    }
    let ghost pre_attach = *store;
    let result = update_meeting_transcript(
        store,
        &created.id,
        title,
        transcript,
        segments,
        language,
        audio_file_path,
        fallback_duration,
        now,
    );
    match result {
        Ok(m) => {
            proof {
                assert(m.id@ == created.id@);
                assert(!has_meeting(old(store).meetings@, m.id@));
                assert forall|i: int|
                    0 <= i < old(store).meetings@.len() implies #[trigger] store.meetings@[i]
                    == old(store).meetings@[i] by {
                    assert(after_create[i] == old(store).meetings@[i]);
                    assert(!(old(store).meetings@[i].id@ == created.id@));
                    assert(after_create[i].id@ != created.id@);
                }
                assert(has_meeting(store.meetings@, m.id@)) by {
                    let i0 = choose|i: int|
                        0 <= i < pre_attach.meetings@.len() && (#[trigger] pre_attach.meetings@[i]).id@
                            == created.id@;
                    assert(store.meetings@[i0].id@ == created.id@);
                }
            }
            Ok(m)
        },
        Err(_) => {
            proof {
                assert(!has_meeting(old(store).meetings@, created.id@));
                assert forall|i: int|
                    0 <= i < old(store).meetings@.len() implies #[trigger] store.meetings@[i]
                    == old(store).meetings@[i] by {
                    assert(after_create[i] == old(store).meetings@[i]);
                    assert(after_create[i].id@ != created.id@);
                }
                assert(store.meetings@[old(store).meetings@.len() as int].id == created.id);
                assert(saved_partial(
                    old(store).meetings@,
                    old(store).segments@,
                    *store,
                    title,
                    transcript,
                    segments@,
                    language,
                    audio_file_path,
                ));
            }
            Err(RecorderError::StorageError)
        },
    }
}

/// One line of the audio-path report for a meeting: its title, the start
/// of its identity, and whether its audio file is present on disk.
pub open spec fn path_report_line(title: Seq<char>, id: Seq<char>, status: Seq<char>) -> Seq<char> {
    "Meeting: \'"@ + title + "\' ("@ + id + ") - "@ + status
}

/// Builds one line of the audio-path report; the host supplies whether the
/// file at the stored path exists.
pub fn audio_path_report_line(m: &Meeting, file_exists: bool) -> (r: String)
    ensures
        r@ == path_report_line(
            m.title@,
            m.id@,
            match m.audio_file_path {
                Some(p) => (if file_exists {
                    "audio file exists: "@ + p@
                } else {
                    "audio file missing: "@ + p@
                }),
                None => "no audio path stored"@,
            },
        ),
{
    let mut s: String = String::new();
    s.append("Meeting: \'");
    s.append(m.title.as_str());
    s.append("\' (");
    s.append(m.id.as_str());
    s.append(") - ");
    match &m.audio_file_path {
        Some(p) => {
            if file_exists {
                s.append("audio file exists: ");
            } else {
                s.append("audio file missing: ");
            }
            s.append(p.as_str());
        },
        None => {
            s.append("no audio path stored");
        },
    }
    proof {
        assert(s@ =~= path_report_line(
            m.title@,
            m.id@,
            match m.audio_file_path {
                Some(p) => (if file_exists {
                    "audio file exists: "@ + p@
                } else {
                    "audio file missing: "@ + p@
                }),
                None => "no audio path stored"@,
            },
        ));
    }
    s
}

} // verus!
