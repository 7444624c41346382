//! The session persistence model: meetings, their transcript segments, and
//! the relational rules between them — unique identities, the
//! segment-to-meeting foreign key with cascading delete, and the orderings
//! the queries promise.

use vstd::prelude::*;
use crate::errors::RecorderError;
use crate::host::{uuid_v4_string, now_local};
use crate::time::Timestamp;
use crate::util::{str_eq, str_contains, str_has, lower_chars, to_ascii_lower};

verus! {

/// The persisted aggregate for one recording session.
#[derive(Debug, Clone)]
pub struct Meeting {
    pub id: String,
    pub title: String,
    pub created_at: Timestamp,
    pub updated_at: Timestamp,
    pub duration_seconds: Option<i64>,
    pub audio_file_path: Option<String>,
    pub transcript: Option<String>,
    pub meeting_minutes: Option<String>,
    pub language: Option<String>,
    pub ai_provider: Option<String>,
}

/// One timestamped transcript span of a meeting; times are centiseconds.
#[derive(Debug, Clone)]
pub struct MeetingSegment {
    pub id: String,
    pub meeting_id: String,
    /// Start of the span, in centiseconds from the recording start.
    pub start_time: i64,
    /// End of the span, in centiseconds from the recording start.
    pub end_time: i64,
    pub text: String,
    /// Recognizer confidence in thousandths, when it reports one.
    pub confidence: Option<i64>,
}

/// Timestamps are valid and no meeting was updated before it was created.
pub open spec fn meeting_wf(m: Meeting) -> bool {
    &&& m.created_at.wf()
    &&& m.updated_at.wf()
    &&& m.updated_at.epoch_seconds >= m.created_at.epoch_seconds
}

/// A segment spans a non-negative, forward interval.
pub open spec fn segment_wf(s: MeetingSegment) -> bool {
    0 <= s.start_time <= s.end_time
}

/// Some meeting in `ms` carries `id`.
pub open spec fn has_meeting(ms: Seq<Meeting>, id: Seq<char>) -> bool {
    exists|i: int| 0 <= i < ms.len() && #[trigger] ms[i].id@ == id
}

/// No two meetings share an identity.
pub open spec fn meeting_ids_unique(ms: Seq<Meeting>) -> bool {
    forall|i: int, j: int|
        0 <= i < j < ms.len() ==> (#[trigger] ms[i]).id@ != (#[trigger] ms[j]).id@
}

/// No two segments share an identity.
pub open spec fn segment_ids_unique(ss: Seq<MeetingSegment>) -> bool {
    forall|i: int, j: int|
        0 <= i < j < ss.len() ==> (#[trigger] ss[i]).id@ != (#[trigger] ss[j]).id@
}

/// The first meeting of `ms` carrying `id`, if any.
pub open spec fn find_meeting(ms: Seq<Meeting>, id: Seq<char>) -> Option<Meeting>
    decreases ms.len(),
{
    if ms.len() == 0 {
        None
    } else if ms[0].id@ == id {
        Some(ms[0])
    } else {
        find_meeting(ms.drop_first(), id)
    }
}

/// `ms` without the meetings carrying `id`.
pub open spec fn drop_meetings_with_id(ms: Seq<Meeting>, id: Seq<char>) -> Seq<Meeting> {
    ms.filter(|m: Meeting| m.id@ != id)
}

/// `ss` without the segments of the meeting carrying `id`.
pub open spec fn drop_segments_of(ss: Seq<MeetingSegment>, id: Seq<char>) -> Seq<MeetingSegment> {
    ss.filter(|s: MeetingSegment| s.meeting_id@ != id)
}

/// The in-memory relational store. The host shell mirrors it to its SQL
/// database; every rule about its contents is enforced and proved here.
pub struct MeetingStore {
    pub meetings: Vec<Meeting>,
    pub segments: Vec<MeetingSegment>,
}

impl MeetingStore {
    /// The store's invariant: identities are unique, rows are well formed,
    /// and every segment belongs to a meeting that exists.
    pub open spec fn wf(self) -> bool {
        &&& meeting_ids_unique(self.meetings@)
        &&& segment_ids_unique(self.segments@)
        &&& forall|i: int|
            0 <= i < self.meetings@.len() ==> meeting_wf(#[trigger] self.meetings@[i])
        &&& forall|i: int|
            0 <= i < self.segments@.len() ==> segment_wf(#[trigger] self.segments@[i])
        &&& forall|i: int|
            0 <= i < self.segments@.len() ==> has_meeting(
                self.meetings@,
                (#[trigger] self.segments@[i]).meeting_id@,
            )
    }

    /// An empty store.
    pub fn new() -> (r: MeetingStore)
        ensures
            r.wf(),
            r.meetings@.len() == 0,
            r.segments@.len() == 0,
    {
        MeetingStore { meetings: Vec::new(), segments: Vec::new() }
    }

    /// Index of the meeting carrying `id`, tied to [`find_meeting`].
    fn find_index(&self, id: &str) -> (r: Option<usize>)
        ensures
            match r {
                Option::Some(i) => i < self.meetings@.len() && self.meetings@[i as int].id@ == id@
                    && find_meeting(self.meetings@, id@) == Some(self.meetings@[i as int]),
                Option::None => !has_meeting(self.meetings@, id@) && find_meeting(
                    self.meetings@,
                    id@,
                ) is None,
            },
    {
        let n: usize = self.meetings.len();
        let mut i: usize = 0;
        while i < n
            invariant
                n == self.meetings@.len(),
                i <= n,
                forall|j: int| 0 <= j < i as int ==> (#[trigger] self.meetings@[j]).id@ != id@,
            decreases n - i,
        {
            if str_eq(self.meetings[i].id.as_str(), id) {
                proof {
                    lemma_find_meeting_skip(self.meetings@, id@, i as int);
                }
                return Some(i);
            }
            i = i + 1;
        }
        proof {
            lemma_find_meeting_skip(self.meetings@, id@, n as int);
            assert(self.meetings@.skip(n as int) =~= Seq::<Meeting>::empty());
        }
        None
    }

    /// Creates a meeting with a fresh identity and the current wall time;
    /// both timestamps start equal and all optional fields empty. The
    /// identity clash that a primary key would reject is a `StorageError`.
    pub fn create_meeting(&mut self, title: String, language: Option<String>) -> (r: Result<
        Meeting,
        RecorderError,
    >)
        requires
            old(self).wf(),
        ensures
            final(self).wf(),
            final(self).segments@ == old(self).segments@,
            match r {
                Result::Ok(m) => {
                    &&& final(self).meetings@ == old(self).meetings@.push(m)
                    &&& m.title == title
                    &&& m.language == language
                    &&& m.id@.len() == 36
                    &&& !has_meeting(old(self).meetings@, m.id@)
                    &&& m.created_at == m.updated_at
                    &&& m.created_at.wf()
                    &&& m.duration_seconds is None
                    &&& m.audio_file_path is None
                    &&& m.transcript is None
                    &&& m.meeting_minutes is None
                    &&& m.ai_provider is None
                },
                Result::Err(e) => e == RecorderError::StorageError && final(self).meetings@ == old(
                    self,
                ).meetings@,
            },
    {
        let id: String = uuid_v4_string();
        let now: Timestamp = now_local();
        if let Some(_) = self.find_index(id.as_str()) {
            return Err(RecorderError::StorageError);
        }
        let m = Meeting {
            id,
            title,
            created_at: now,
            updated_at: now,
            duration_seconds: None,
            audio_file_path: None,
            transcript: None,
            meeting_minutes: None,
            language,
            ai_provider: None,
        };
        let copy = clone_meeting(&m);
        self.meetings.push(m);
        proof {
            assert forall|i: int, j: int|
                0 <= i < j < self.meetings@.len() implies (#[trigger] self.meetings@[i]).id@ != (
            #[trigger] self.meetings@[j]).id@ by {
                if j == self.meetings@.len() - 1 {
                    assert(self.meetings@[i].id@ != copy.id@);
                }
            }
            assert forall|i: int|
                0 <= i < self.segments@.len() implies has_meeting(
                self.meetings@,
                (#[trigger] self.segments@[i]).meeting_id@,
            ) by {
                let mid = self.segments@[i].meeting_id@;
                assert(has_meeting(old(self).meetings@, mid));
                let j = choose|j: int|
                    0 <= j < old(self).meetings@.len() && (#[trigger] old(
                        self,
                    ).meetings@[j]).id@ == mid;
                assert(self.meetings@[j].id@ == mid);
            }
        }
        Ok(copy)
    }

    /// Replaces the mutable fields of the meeting carrying `m.id` and stamps
    /// it updated at `now`; identity and creation time stay. A missing
    /// identity changes nothing, as an UPDATE matching no row would.
    pub fn update_meeting(&mut self, m: &Meeting, now: Timestamp)
        requires
            old(self).wf(),
            now.wf(),
            forall|i: int|
                0 <= i < old(self).meetings@.len() && (#[trigger] old(self).meetings@[i]).id@
                    == m.id@ ==> now.epoch_seconds >= old(self).meetings@[i].created_at.epoch_seconds,
        ensures
            final(self).wf(),
            final(self).segments@ == old(self).segments@,
            final(self).meetings@.len() == old(self).meetings@.len(),
            forall|i: int|
                0 <= i < old(self).meetings@.len() ==> #[trigger] final(self).meetings@[i] == (
                if old(self).meetings@[i].id@ == m.id@ {
                    merged_meeting(old(self).meetings@[i], *m, now)
                } else {
                    old(self).meetings@[i]
                }),
    {
        let idx = self.find_index(m.id.as_str());
        if let Some(i) = idx {
            let orig_created: Timestamp = self.meetings[i].created_at;
            let orig_id: String = clone_string(&self.meetings[i].id);
            let replacement = Meeting {
                id: orig_id,
                title: clone_string(&m.title),
                created_at: orig_created,
                updated_at: now,
                duration_seconds: m.duration_seconds,
                audio_file_path: clone_opt_string(&m.audio_file_path),
                transcript: clone_opt_string(&m.transcript),
                meeting_minutes: clone_opt_string(&m.meeting_minutes),
                language: clone_opt_string(&m.language),
                ai_provider: clone_opt_string(&m.ai_provider),
            };
            self.meetings.set(i, replacement);
            proof {
                assert(forall|k: int|
                    0 <= k < self.meetings@.len() ==> (#[trigger] self.meetings@[k]).id@ == old(
                        self,
                    ).meetings@[k].id@);
                assert forall|k: int|
                    0 <= k < self.segments@.len() implies has_meeting(
                    self.meetings@,
                    (#[trigger] self.segments@[k]).meeting_id@,
                ) by {
                    let mid = self.segments@[k].meeting_id@;
                    assert(has_meeting(old(self).meetings@, mid));
                    let j = choose|j: int|
                        0 <= j < old(self).meetings@.len() && (#[trigger] old(
                            self,
                        ).meetings@[j]).id@ == mid;
                    assert(self.meetings@[j].id@ == mid);
                }
                assert forall|k: int|
                    0 <= k < old(self).meetings@.len() implies #[trigger] final(self).meetings@[k]
                    == (if old(self).meetings@[k].id@ == m.id@ {
                    merged_meeting(old(self).meetings@[k], *m, now)
                } else {
                    old(self).meetings@[k]
                }) by {
                    if k != i as int {
                        assert(old(self).meetings@[k].id@ != m.id@);
                    }
                }
            }
        }
    }

    /// The meeting carrying `id`, if the store holds one.
    pub fn get_meeting(&self, id: &String) -> (r: Option<Meeting>)
        ensures
            r == find_meeting(self.meetings@, id@),
            r is Some <==> has_meeting(self.meetings@, id@),
            r is Some ==> (r->0).id@ == id@,
    {
        match self.find_index(id.as_str()) {
            Some(i) => Some(clone_meeting(&self.meetings[i])),
            None => None,
        }
    }

    /// Removes the meeting carrying `id` and, with it, every one of its
    /// segments: deletion cascades, and no orphan segment stays behind.
    pub fn delete_meeting(&mut self, id: &String)
        requires
            old(self).wf(),
        ensures
            final(self).wf(),
            final(self).meetings@ == drop_meetings_with_id(old(self).meetings@, id@),
            final(self).segments@ == drop_segments_of(old(self).segments@, id@),
            forall|i: int|
                0 <= i < final(self).segments@.len() ==> (#[trigger] final(self).segments@[i]).meeting_id@
                    != id@,
            !has_meeting(final(self).meetings@, id@),
    {
        let ghost old_meetings = self.meetings@;
        let ghost old_segments = self.segments@;
        let n: usize = self.meetings.len();
        let mut kept: Vec<Meeting> = Vec::new();
        let mut i: usize = 0;
        while i < n
            invariant
                n == old_meetings.len(),
                self.meetings@ == old_meetings,
                i <= n,
                kept@ == drop_meetings_with_id(old_meetings.take(i as int), id@),
            decreases n - i,
        {
            proof {
                reveal(Seq::filter);
                assert(old_meetings.take(i as int + 1).drop_last() =~= old_meetings.take(i as int));
                assert(old_meetings.take(i as int + 1).last() == old_meetings[i as int]);
            }
            if !str_eq(self.meetings[i].id.as_str(), id.as_str()) {
                let m = clone_meeting(&self.meetings[i]);
                kept.push(m);
            }
            i = i + 1;
        }
        self.meetings = kept;
        let ns: usize = self.segments.len();
        let mut kept_s: Vec<MeetingSegment> = Vec::new();
        let mut k: usize = 0;
        while k < ns
            invariant
                ns == old_segments.len(),
                self.segments@ == old_segments,
                k <= ns,
                kept_s@ == drop_segments_of(old_segments.take(k as int), id@),
            decreases ns - k,
        {
            proof {
                reveal(Seq::filter);
                assert(old_segments.take(k as int + 1).drop_last() =~= old_segments.take(k as int));
                assert(old_segments.take(k as int + 1).last() == old_segments[k as int]);
            }
            if !str_eq(self.segments[k].meeting_id.as_str(), id.as_str()) {
                let s = clone_segment(&self.segments[k]);
                kept_s.push(s);
            }
            k = k + 1;
        }
        self.segments = kept_s;
        proof {
            assert(old_meetings.take(n as int) =~= old_meetings);
            assert(old_segments.take(ns as int) =~= old_segments);
            lemma_drop_meetings_props(old_meetings, id@);
            lemma_drop_segments_props(old_meetings, old_segments, id@);
            let fm = drop_meetings_with_id(old_meetings, id@);
            assert forall|i: int|
                0 <= i < self.segments@.len() implies has_meeting(
                self.meetings@,
                (#[trigger] self.segments@[i]).meeting_id@,
            ) by {
                let mid = self.segments@[i].meeting_id@;
                assert(has_meeting(old_meetings, mid));
                let j = choose|j: int|
                    0 <= j < old_meetings.len() && (#[trigger] old_meetings[j]).id@ == mid;
                assert(mid != id@);
                assert(fm.contains(old_meetings[j]));
                let t = choose|t: int| 0 <= t < fm.len() && fm[t] == old_meetings[j];
                assert(self.meetings@[t].id@ == mid);
            }
            assert forall|i: int| !(0 <= i < fm.len() && (#[trigger] fm[i]).id@ == id@) by {}
        }
    }

    /// Adds one transcript segment. What a database would refuse — a
    /// duplicate identity, a missing meeting, a backwards time span — is a
    /// `StorageError`, and the store is unchanged.
    pub fn add_meeting_segment(&mut self, seg: MeetingSegment) -> (r: Result<(), RecorderError>)
        requires
            old(self).wf(),
        ensures
            final(self).wf(),
            final(self).meetings@ == old(self).meetings@,
            match r {
                Result::Ok(()) => {
                    &&& final(self).segments@ == old(self).segments@.push(seg)
                    &&& segment_wf(seg)
                    &&& has_meeting(old(self).meetings@, seg.meeting_id@)
                },
                Result::Err(e) => {
                    &&& e == RecorderError::StorageError
                    &&& final(self).segments@ == old(self).segments@
                    &&& !(segment_wf(seg) && has_meeting(old(self).meetings@, seg.meeting_id@)
                        && (forall|i: int|
                        0 <= i < old(self).segments@.len() ==> (#[trigger] old(
                            self,
                        ).segments@[i]).id@ != seg.id@))
                },
            },
    {
        if seg.start_time < 0 || seg.start_time > seg.end_time {
            return Err(RecorderError::StorageError);
        }
        if self.find_index(seg.meeting_id.as_str()).is_none() {
            return Err(RecorderError::StorageError);
        }
        let ns: usize = self.segments.len();
        let mut k: usize = 0;
        while k < ns
            invariant
                old(self).wf(),
                self.meetings@ == old(self).meetings@,
                self.segments@ == old(self).segments@,
                ns == self.segments@.len(),
                k <= ns,
                forall|j: int| 0 <= j < k as int ==> (#[trigger] self.segments@[j]).id@ != seg.id@,
            decreases ns - k,
        {
            if str_eq(self.segments[k].id.as_str(), seg.id.as_str()) {
                return Err(RecorderError::StorageError);
            }
            k = k + 1;
        }
        self.segments.push(seg);
        proof {
            assert forall|i: int, j: int|
                0 <= i < j < self.segments@.len() implies (#[trigger] self.segments@[i]).id@ != (
            #[trigger] self.segments@[j]).id@ by {}
        }
        Ok(())
    }

    /// Removes every segment of the meeting carrying `meeting_id`.
    pub fn delete_meeting_segments(&mut self, meeting_id: &String)
        requires
            old(self).wf(),
        ensures
            final(self).wf(),
            final(self).meetings@ == old(self).meetings@,
            final(self).segments@ == drop_segments_of(old(self).segments@, meeting_id@),
    {
        let ghost old_segments = self.segments@;
        let ns: usize = self.segments.len();
        let mut kept_s: Vec<MeetingSegment> = Vec::new();
        let mut k: usize = 0;
        while k < ns
            invariant
                ns == old_segments.len(),
                self.segments@ == old_segments,
                k <= ns,
                kept_s@ == drop_segments_of(old_segments.take(k as int), meeting_id@),
            decreases ns - k,
        {
            proof {
                reveal(Seq::filter);
                assert(old_segments.take(k as int + 1).drop_last() =~= old_segments.take(k as int));
                assert(old_segments.take(k as int + 1).last() == old_segments[k as int]);
            }
            if !str_eq(self.segments[k].meeting_id.as_str(), meeting_id.as_str()) {
                let s = clone_segment(&self.segments[k]);
                kept_s.push(s);
            }
            k = k + 1;
        }
        self.segments = kept_s;
        proof {
            assert(old_segments.take(ns as int) =~= old_segments);
            lemma_drop_segments_props(self.meetings@, old_segments, meeting_id@);
        }
    }
}

/// The meeting as [`MeetingStore::update_meeting`] rewrites it: `m`'s
/// mutable fields over the original's identity and creation time.
pub open spec fn merged_meeting(orig: Meeting, m: Meeting, now: Timestamp) -> Meeting {
    Meeting {
        id: orig.id,
        title: m.title,
        created_at: orig.created_at,
        updated_at: now,
        duration_seconds: m.duration_seconds,
        audio_file_path: m.audio_file_path,
        transcript: m.transcript,
        meeting_minutes: m.meeting_minutes,
        language: m.language,
        ai_provider: m.ai_provider,
    }
}

/// An exact copy of a string.
pub fn clone_string(s: &String) -> (r: String)
    ensures
        r == *s,
{
    s.clone()
}

/// An exact copy of an optional string.
pub fn clone_opt_string(o: &Option<String>) -> (r: Option<String>)
    ensures
        r == *o,
{
    match o {
        Some(s) => Some(clone_string(s)),
        None => None,
    }
}

/// An exact copy of a meeting.
pub fn clone_meeting(m: &Meeting) -> (r: Meeting)
    ensures
        r == *m,
{
    Meeting {
        id: clone_string(&m.id),
        title: clone_string(&m.title),
        created_at: m.created_at,
        updated_at: m.updated_at,
        duration_seconds: m.duration_seconds,
        audio_file_path: clone_opt_string(&m.audio_file_path),
        transcript: clone_opt_string(&m.transcript),
        meeting_minutes: clone_opt_string(&m.meeting_minutes),
        language: clone_opt_string(&m.language),
        ai_provider: clone_opt_string(&m.ai_provider),
    }
}

/// An exact copy of a segment.
pub fn clone_segment(s: &MeetingSegment) -> (r: MeetingSegment)
    ensures
        r == *s,
{
    MeetingSegment {
        id: clone_string(&s.id),
        meeting_id: clone_string(&s.meeting_id),
        start_time: s.start_time,
        end_time: s.end_time,
        text: clone_string(&s.text),
        confidence: s.confidence,
    }
}

proof fn lemma_find_meeting_skip(ms: Seq<Meeting>, id: Seq<char>, i: int)
    requires
        0 <= i <= ms.len(),
        forall|j: int| 0 <= j < i ==> (#[trigger] ms[j]).id@ != id,
    ensures
        find_meeting(ms, id) == find_meeting(ms.skip(i), id),
    decreases i,
{
    if i == 0 {
        assert(ms.skip(0) =~= ms);
    } else {
        lemma_find_meeting_skip(ms, id, i - 1);
        let tail = ms.skip(i - 1);
        assert(tail[0] == ms[i - 1]);
        assert(tail.drop_first() =~= ms.skip(i));
    }
}
/// Dropping the meetings carrying `id` keeps uniqueness and
/// well-formedness, keeps every element of the original list, and leaves
/// no meeting with `id` behind.
proof fn lemma_drop_meetings_props(ms: Seq<Meeting>, id: Seq<char>)
    requires
        meeting_ids_unique(ms),
        forall|i: int| 0 <= i < ms.len() ==> meeting_wf(#[trigger] ms[i]),
    ensures
        meeting_ids_unique(drop_meetings_with_id(ms, id)),
        forall|i: int|
            0 <= i < drop_meetings_with_id(ms, id).len() ==> meeting_wf(
                #[trigger] drop_meetings_with_id(ms, id)[i],
            ),
        forall|i: int|
            0 <= i < drop_meetings_with_id(ms, id).len() ==> ms.contains(
                #[trigger] drop_meetings_with_id(ms, id)[i],
            ),
        forall|i: int|
            0 <= i < drop_meetings_with_id(ms, id).len() ==> (#[trigger] drop_meetings_with_id(
                ms,
                id,
            )[i]).id@ != id,
        forall|j: int|
            0 <= j < ms.len() && (#[trigger] ms[j]).id@ != id ==> drop_meetings_with_id(
                ms,
                id,
            ).contains(ms[j]),
    decreases ms.len(),
{
    reveal(Seq::filter);
    let fm = drop_meetings_with_id(ms, id);
    broadcast use Seq::lemma_filter_pred;
    if ms.len() > 0 {
        let head = ms.drop_last();
        let x = ms.last();
        assert(forall|i: int| 0 <= i < head.len() ==> head[i] == ms[i]);
        lemma_drop_meetings_props(head, id);
        let fh = drop_meetings_with_id(head, id);
        assert(fm == if x.id@ != id {
            fh.push(x)
        } else {
            fh
        });
        assert forall|i: int| 0 <= i < fm.len() implies ms.contains(#[trigger] fm[i]) by {
            if i < fh.len() {
                assert(head.contains(fh[i]));
                let j = choose|j: int| 0 <= j < head.len() && head[j] == fh[i];
                assert(ms[j] == fh[i]);
            } else {
                assert(fm[i] == x);
                assert(ms[ms.len() - 1] == x);
            }
        }
        if x.id@ != id {
            assert forall|i: int, j: int|
                0 <= i < j < fm.len() implies (#[trigger] fm[i]).id@ != (#[trigger] fm[j]).id@ by {
                if j == fm.len() - 1 {
                    assert(head.contains(fh[i]));
                    let t = choose|t: int| 0 <= t < head.len() && head[t] == fh[i];
                    assert(ms[t].id@ != x.id@);
                }
            }
        }
        assert forall|j: int|
            0 <= j < ms.len() && (#[trigger] ms[j]).id@ != id implies fm.contains(ms[j]) by {
            if j < ms.len() - 1 {
                assert(head[j] == ms[j]);
                assert(fh.contains(ms[j]));
                let t = choose|t: int| 0 <= t < fh.len() && fh[t] == ms[j];
                assert(fm[t] == ms[j]);
            } else {
                assert(fm[fm.len() - 1] == x);
            }
        }
    }
}

/// Dropping the segments of the meeting carrying `id` keeps uniqueness and
/// well-formedness, keeps each remaining segment\'s meeting, and leaves no
/// segment of that meeting behind.
proof fn lemma_drop_segments_props(ms: Seq<Meeting>, ss: Seq<MeetingSegment>, id: Seq<char>)
    requires
        segment_ids_unique(ss),
        forall|i: int| 0 <= i < ss.len() ==> segment_wf(#[trigger] ss[i]),
        forall|i: int| 0 <= i < ss.len() ==> has_meeting(ms, (#[trigger] ss[i]).meeting_id@),
    ensures
        segment_ids_unique(drop_segments_of(ss, id)),
        forall|i: int|
            0 <= i < drop_segments_of(ss, id).len() ==> segment_wf(
                #[trigger] drop_segments_of(ss, id)[i],
            ),
        forall|i: int|
            0 <= i < drop_segments_of(ss, id).len() ==> has_meeting(
                ms,
                (#[trigger] drop_segments_of(ss, id)[i]).meeting_id@,
            ),
        forall|i: int|
            0 <= i < drop_segments_of(ss, id).len() ==> (#[trigger] drop_segments_of(
                ss,
                id,
            )[i]).meeting_id@ != id,
    decreases ss.len(),
{
    reveal(Seq::filter);
    let fs = drop_segments_of(ss, id);
    broadcast use Seq::lemma_filter_pred;
    if ss.len() > 0 {
        let head = ss.drop_last();
        let x = ss.last();
        assert(forall|i: int| 0 <= i < head.len() ==> head[i] == ss[i]);
        assert(forall|i: int|
            0 <= i < head.len() ==> has_meeting(ms, (#[trigger] head[i]).meeting_id@));
        lemma_drop_segments_props(ms, head, id);
        let fh = drop_segments_of(head, id);
        assert(fs == if x.meeting_id@ != id {
            fh.push(x)
        } else {
            fh
        });
        if x.meeting_id@ != id {
            assert(has_meeting(ms, x.meeting_id@));
            assert forall|i: int, j: int|
                0 <= i < j < fs.len() implies (#[trigger] fs[i]).id@ != (#[trigger] fs[j]).id@ by {
                if j == fs.len() - 1 {
                    lemma_drop_segments_contained(head, id, i);
                    let t = choose|t: int| 0 <= t < head.len() && head[t] == fh[i];
                    assert(ss[t].id@ != x.id@);
                }
            }
        }
    }
}

/// Each element of the filtered segment list occurs in the original.
proof fn lemma_drop_segments_contained(ss: Seq<MeetingSegment>, id: Seq<char>, i: int)
    requires
        0 <= i < drop_segments_of(ss, id).len(),
    ensures
        ss.contains(drop_segments_of(ss, id)[i]),
    decreases ss.len(),
{
    reveal(Seq::filter);
    let fs = drop_segments_of(ss, id);
    if ss.len() > 0 {
        let head = ss.drop_last();
        let x = ss.last();
        let fh = drop_segments_of(head, id);
        if i < fh.len() {
            lemma_drop_segments_contained(head, id, i);
            let j = choose|j: int| 0 <= j < head.len() && head[j] == fh[i];
            assert(ss[j] == fh[i]);
        } else {
            assert(fs[i] == x);
            assert(ss[ss.len() - 1] == x);
        }
    }
}

/// The segments belonging to the meeting carrying `id`.
pub open spec fn segments_of(ss: Seq<MeetingSegment>, id: Seq<char>) -> Seq<MeetingSegment> {
    ss.filter(|s: MeetingSegment| s.meeting_id@ == id)
}

/// `q` occurs in the title, the transcript, or the minutes of `m`,
/// compared case-insensitively over ASCII as the database's `LIKE` would.
pub open spec fn matches_query(m: Meeting, q: Seq<char>) -> bool {
    ||| str_has(lower_chars(m.title@), lower_chars(q))
    ||| (m.transcript is Some && str_has(lower_chars(m.transcript->0@), lower_chars(q)))
    ||| (m.meeting_minutes is Some && str_has(
        lower_chars(m.meeting_minutes->0@),
        lower_chars(q),
    ))
}

/// The meetings matched by a search for `q`.
pub open spec fn select_matching(ms: Seq<Meeting>, q: Seq<char>) -> Seq<Meeting> {
    ms.filter(|m: Meeting| matches_query(m, q))
}

/// Newest-first order on meetings.
pub open spec fn sorted_newest_first(ms: Seq<Meeting>) -> bool {
    forall|i: int, j: int|
        0 <= i < j < ms.len() ==> (#[trigger] ms[i]).created_at.epoch_seconds >= (
        #[trigger] ms[j]).created_at.epoch_seconds
}

/// Ascending order of segments by start time.
pub open spec fn sorted_by_start(ss: Seq<MeetingSegment>) -> bool {
    forall|i: int, j: int|
        0 <= i < j < ss.len() ==> (#[trigger] ss[i]).start_time <= (#[trigger] ss[j]).start_time
}

impl MeetingStore {
    /// Every meeting, newest first by creation time.
    pub fn get_all_meetings(&self) -> (r: Vec<Meeting>)
        ensures
            r@.to_multiset() == self.meetings@.to_multiset(),
            sorted_newest_first(r@),
    {
        let n: usize = self.meetings.len();
        let mut all: Vec<Meeting> = Vec::new();
        let mut i: usize = 0;
        while i < n
            invariant
                n == self.meetings@.len(),
                i <= n,
                all@ == self.meetings@.take(i as int),
            decreases n - i,
        {
            let m = clone_meeting(&self.meetings[i]);
            all.push(m);
            proof {
                assert(all@ =~= self.meetings@.take(i as int + 1));
            }
            i = i + 1;
        }
        proof {
            assert(self.meetings@.take(n as int) =~= self.meetings@);
        }
        sort_meetings_desc(all)
    }

    /// The meetings whose title, transcript, or minutes contain `query`,
    /// newest first.
    pub fn search_meetings(&self, query: &String) -> (r: Vec<Meeting>)
        ensures
            r@.to_multiset() == select_matching(self.meetings@, query@).to_multiset(),
            sorted_newest_first(r@),
    {
        let ghost orig = self.meetings@;
        let n: usize = self.meetings.len();
        let mut hits: Vec<Meeting> = Vec::new();
        let mut i: usize = 0;
        while i < n
            invariant
                n == orig.len(),
                self.meetings@ == orig,
                i <= n,
                hits@ == select_matching(orig.take(i as int), query@),
            decreases n - i,
        {
            proof {
                reveal(Seq::filter);
                assert(orig.take(i as int + 1).drop_last() =~= orig.take(i as int));
                assert(orig.take(i as int + 1).last() == orig[i as int]);
            }
            let needle: String = to_ascii_lower(query.as_str());
            let m = &self.meetings[i];
            let title_l: String = to_ascii_lower(m.title.as_str());
            let mut is_hit: bool = str_contains(title_l.as_str(), needle.as_str());
            if !is_hit {
                if let Some(t) = &m.transcript {
                    let tl: String = to_ascii_lower(t.as_str());
                    is_hit = str_contains(tl.as_str(), needle.as_str());
                }
            }
            if !is_hit {
                if let Some(t) = &m.meeting_minutes {
                    let tl: String = to_ascii_lower(t.as_str());
                    is_hit = str_contains(tl.as_str(), needle.as_str());
                }
            }
            proof {
                assert(is_hit == matches_query(orig[i as int], query@));
            }
            if is_hit {
                let hit = clone_meeting(&self.meetings[i]);
                hits.push(hit);
            }
            i = i + 1;
        }
        proof {
            assert(orig.take(n as int) =~= orig);
        }
        sort_meetings_desc(hits)
    }

    /// The segments of the meeting carrying `meeting_id`, ordered by start
    /// time; every span runs forward and belongs to that meeting.
    pub fn get_meeting_segments(&self, meeting_id: &String) -> (r: Vec<MeetingSegment>)
        requires
            self.wf(),
        ensures
            r@.to_multiset() == segments_of(self.segments@, meeting_id@).to_multiset(),
            sorted_by_start(r@),
            forall|i: int| 0 <= i < r@.len() ==> segment_wf(#[trigger] r@[i]),
            forall|i: int|
                0 <= i < r@.len() ==> (#[trigger] r@[i]).meeting_id@ == meeting_id@,
    {
        let ghost orig = self.segments@;
        let ns: usize = self.segments.len();
        let mut sel: Vec<MeetingSegment> = Vec::new();
        let mut k: usize = 0;
        while k < ns
            invariant
                ns == orig.len(),
                self.segments@ == orig,
                k <= ns,
                sel@ == segments_of(orig.take(k as int), meeting_id@),
            decreases ns - k,
        {
            proof {
                reveal(Seq::filter);
                assert(orig.take(k as int + 1).drop_last() =~= orig.take(k as int));
                assert(orig.take(k as int + 1).last() == orig[k as int]);
            }
            if str_eq(self.segments[k].meeting_id.as_str(), meeting_id.as_str()) {
                let seg = clone_segment(&self.segments[k]);
                sel.push(seg);
            }
            k = k + 1;
        }
        proof {
            assert(orig.take(ns as int) =~= orig);
            lemma_segments_of_props(orig, meeting_id@);
        }
        let r = sort_segments_asc(sel);
        proof {
            broadcast use vstd::seq_lib::group_to_multiset_ensures;
            let fs = segments_of(orig, meeting_id@);
            assert forall|i: int|
                0 <= i < r@.len() implies segment_wf(#[trigger] r@[i]) && r@[i].meeting_id@
                == meeting_id@ by {
                assert(r@.contains(r@[i]));
                assert(r@.to_multiset().count(r@[i]) > 0);
                assert(fs.to_multiset().count(r@[i]) > 0);
                assert(fs.contains(r@[i]));
                let j = choose|j: int| 0 <= j < fs.len() && fs[j] == r@[i];
            }
        }
        r
    }
}

/// Sorts meetings newest first by creation time (selection of the latest).
fn sort_meetings_desc(v: Vec<Meeting>) -> (r: Vec<Meeting>)
    ensures
        r@.to_multiset() == v@.to_multiset(),
        sorted_newest_first(r@),
{
    let ghost orig = v@;
    let mut rest = v;
    let mut out: Vec<Meeting> = Vec::new();
    proof {
        broadcast use vstd::seq_lib::group_to_multiset_ensures;
        assert(out@.to_multiset().add(rest@.to_multiset()) =~= orig.to_multiset());
    }
    while rest.len() > 0
        invariant
            out@.to_multiset().add(rest@.to_multiset()) == orig.to_multiset(),
            sorted_newest_first(out@),
            forall|a: int, b: int|
                0 <= a < out@.len() && 0 <= b < rest@.len() ==> (
                #[trigger] out@[a]).created_at.epoch_seconds >= (
                #[trigger] rest@[b]).created_at.epoch_seconds,
        decreases rest@.len(),
    {
        let mut best: usize = 0;
        let mut t: usize = 1;
        while t < rest.len()
            invariant
                rest@.len() > 0,
                best < rest@.len(),
                t <= rest@.len(),
                forall|j: int|
                    0 <= j < t as int ==> rest@[best as int].created_at.epoch_seconds >= (
                    #[trigger] rest@[j]).created_at.epoch_seconds,
            decreases rest@.len() - t,
        {
            if rest[t].created_at.epoch_seconds > rest[best].created_at.epoch_seconds {
                best = t;
            }
            t = t + 1;
        }
        let ghost old_out = out@;
        let ghost old_rest = rest@;
        let x = rest.remove(best);
        out.push(x);
        proof {
            broadcast use vstd::seq_lib::group_to_multiset_ensures;
            assert(old_rest.contains(old_rest[best as int]));
            assert(out@.to_multiset().add(rest@.to_multiset()) =~= orig.to_multiset());
            assert forall|a: int, b: int|
                0 <= a < out@.len() && 0 <= b < rest@.len() implies (
            #[trigger] out@[a]).created_at.epoch_seconds >= (
            #[trigger] rest@[b]).created_at.epoch_seconds by {
                assert(rest@[b] == if b < best as int {
                    old_rest[b]
                } else {
                    old_rest[b + 1]
                });
            }
        }
    }
    out
}

/// Sorts segments ascending by start time (selection of the earliest).
fn sort_segments_asc(v: Vec<MeetingSegment>) -> (r: Vec<MeetingSegment>)
    ensures
        r@.to_multiset() == v@.to_multiset(),
        sorted_by_start(r@),
{
    let ghost orig = v@;
    let mut rest = v;
    let mut out: Vec<MeetingSegment> = Vec::new();
    proof {
        broadcast use vstd::seq_lib::group_to_multiset_ensures;
        assert(out@.to_multiset().add(rest@.to_multiset()) =~= orig.to_multiset());
    }
    while rest.len() > 0
        invariant
            out@.to_multiset().add(rest@.to_multiset()) == orig.to_multiset(),
            sorted_by_start(out@),
            forall|a: int, b: int|
                0 <= a < out@.len() && 0 <= b < rest@.len() ==> (#[trigger] out@[a]).start_time
                    <= (#[trigger] rest@[b]).start_time,
        decreases rest@.len(),
    {
        let mut best: usize = 0;
        let mut t: usize = 1;
        while t < rest.len()
            invariant
                rest@.len() > 0,
                best < rest@.len(),
                t <= rest@.len(),
                forall|j: int|
                    0 <= j < t as int ==> rest@[best as int].start_time <= (
                    #[trigger] rest@[j]).start_time,
            decreases rest@.len() - t,
        {
            if rest[t].start_time < rest[best].start_time {
                best = t;
            }
            t = t + 1;
        }
        let ghost old_out = out@;
        let ghost old_rest = rest@;
        let x = rest.remove(best);
        out.push(x);
        proof {
            broadcast use vstd::seq_lib::group_to_multiset_ensures;
            assert(old_rest.contains(old_rest[best as int]));
            assert(out@.to_multiset().add(rest@.to_multiset()) =~= orig.to_multiset());
            assert forall|a: int, b: int|
                0 <= a < out@.len() && 0 <= b < rest@.len() implies (
            #[trigger] out@[a]).start_time <= (#[trigger] rest@[b]).start_time by {
                assert(rest@[b] == if b < best as int {
                    old_rest[b]
                } else {
                    old_rest[b + 1]
                });
            }
        }
    }
    out
}

/// Every selected segment belongs to the meeting and spans forward.
proof fn lemma_segments_of_props(ss: Seq<MeetingSegment>, id: Seq<char>)
    requires
        forall|i: int| 0 <= i < ss.len() ==> segment_wf(#[trigger] ss[i]),
    ensures
        forall|i: int|
            0 <= i < segments_of(ss, id).len() ==> segment_wf(#[trigger] segments_of(ss, id)[i]),
        forall|i: int|
            0 <= i < segments_of(ss, id).len() ==> (#[trigger] segments_of(
                ss,
                id,
            )[i]).meeting_id@ == id,
    decreases ss.len(),
{
    reveal(Seq::filter);
    broadcast use Seq::lemma_filter_pred;
    let fs = segments_of(ss, id);
    if ss.len() > 0 {
        let head = ss.drop_last();
        let x = ss.last();
        assert(forall|i: int| 0 <= i < head.len() ==> head[i] == ss[i]);
        lemma_segments_of_props(head, id);
        let fh = segments_of(head, id);
        assert(fs == if x.meeting_id@ == id {
            fh.push(x)
        } else {
            fh
        });
    }
}

/// Filtering by a meeting identity no stored segment carries changes
/// nothing.
pub proof fn lemma_drop_segments_noop(ss: Seq<MeetingSegment>, id: Seq<char>)
    requires
        forall|j: int| 0 <= j < ss.len() ==> (#[trigger] ss[j]).meeting_id@ != id,
    ensures
        drop_segments_of(ss, id) == ss,
    decreases ss.len(),
{
    reveal(Seq::filter);
    if ss.len() > 0 {
        let head = ss.drop_last();
        assert(forall|j: int| 0 <= j < head.len() ==> head[j] == ss[j]);
        lemma_drop_segments_noop(head, id);
        assert(drop_segments_of(ss, id) =~= ss);
    }
}

} // verus!
