//! The relational rules of the meeting store: identities, orderings,
//! cascade deletion, and search.

use meeting_recorder::store::{Meeting, MeetingSegment, MeetingStore};
use meeting_recorder::time::Timestamp;
use meeting_recorder::errors::RecorderError;

fn ts(epoch: i64, hour: u32, minute: u32, second: u32) -> Timestamp {
    Timestamp {
        epoch_seconds: epoch,
        year: 2025,
        month: 8,
        day: 4,
        hour,
        minute,
        second,
        offset_seconds: 0,
    }
}

fn seg(id: &str, meeting_id: &str, start: i64, end: i64, text: &str) -> MeetingSegment {
    MeetingSegment {
        id: id.to_string(),
        meeting_id: meeting_id.to_string(),
        start_time: start,
        end_time: end,
        text: text.to_string(),
        confidence: None,
    }
}

#[test]
fn create_and_get_meeting() {
    let mut store = MeetingStore::new();
    let m = store.create_meeting("Standup".to_string(), Some("en".to_string())).unwrap();
    assert_eq!(m.id.len(), 36);
    assert_eq!(m.title, "Standup");
    assert_eq!(m.language.as_deref(), Some("en"));
    assert!(m.duration_seconds.is_none());
    let got = store.get_meeting(&m.id).unwrap();
    assert_eq!(got.id, m.id);
    assert_eq!(got.title, "Standup");
}

#[test]
fn get_missing_meeting_is_none() {
    let store = MeetingStore::new();
    assert!(store.get_meeting(&"no-such-id".to_string()).is_none());
}

#[test]
fn update_meeting_replaces_mutable_fields_and_stamps_update() {
    let mut store = MeetingStore::new();
    let m = store.create_meeting("Before".to_string(), None).unwrap();
    let mut changed = m;
    changed.title = "After".to_string();
    changed.transcript = Some("words".to_string());
    let later = ts(changed.created_at.epoch_seconds + 60, 10, 1, 0);
    store.update_meeting(&changed, later);
    let got = store.get_meeting(&changed.id).unwrap();
    assert_eq!(got.title, "After");
    assert_eq!(got.transcript.as_deref(), Some("words"));
    assert_eq!(got.updated_at.epoch_seconds, later.epoch_seconds);
    assert_eq!(got.created_at.epoch_seconds, changed.created_at.epoch_seconds);
}

#[test]
fn delete_cascades_to_segments() {
    let mut store = MeetingStore::new();
    let m = store.create_meeting("Doomed".to_string(), None).unwrap();
    let other = store.create_meeting("Kept".to_string(), None).unwrap();
    store.add_meeting_segment(seg("s1", &m.id, 0, 100, "one")).unwrap();
    store.add_meeting_segment(seg("s2", &m.id, 100, 200, "two")).unwrap();
    store.add_meeting_segment(seg("s3", &m.id, 200, 300, "three")).unwrap();
    store.add_meeting_segment(seg("s4", &other.id, 0, 50, "keep")).unwrap();
    store.delete_meeting(&m.id);
    assert!(store.get_meeting(&m.id).is_none());
    assert!(store.get_meeting_segments(&m.id).is_empty());
    assert_eq!(store.get_meeting_segments(&other.id).len(), 1);
}

#[test]
fn segments_come_back_ordered_by_start_time() {
    let mut store = MeetingStore::new();
    let m = store.create_meeting("Ordered".to_string(), None).unwrap();
    store.add_meeting_segment(seg("b", &m.id, 500, 700, "late")).unwrap();
    store.add_meeting_segment(seg("a", &m.id, 0, 100, "early")).unwrap();
    store.add_meeting_segment(seg("c", &m.id, 200, 300, "middle")).unwrap();
    let got = store.get_meeting_segments(&m.id);
    assert_eq!(got.len(), 3);
    assert_eq!(got[0].text, "early");
    assert_eq!(got[1].text, "middle");
    assert_eq!(got[2].text, "late");
    for w in got.windows(2) {
        assert!(w[0].start_time <= w[1].start_time);
    }
}

#[test]
fn segment_spans_always_run_forward() {
    let mut store = MeetingStore::new();
    let m = store.create_meeting("Spans".to_string(), None).unwrap();
    assert_eq!(
        store.add_meeting_segment(seg("bad", &m.id, 300, 100, "backwards")).unwrap_err(),
        RecorderError::StorageError
    );
    assert_eq!(
        store.add_meeting_segment(seg("neg", &m.id, -5, 100, "negative")).unwrap_err(),
        RecorderError::StorageError
    );
    assert!(store.get_meeting_segments(&m.id).is_empty());
}

#[test]
fn segment_needs_existing_meeting() {
    let mut store = MeetingStore::new();
    assert_eq!(
        store.add_meeting_segment(seg("s", "ghost-meeting", 0, 1, "x")).unwrap_err(),
        RecorderError::StorageError
    );
}

#[test]
fn duplicate_segment_identity_is_refused() {
    let mut store = MeetingStore::new();
    let m = store.create_meeting("Dups".to_string(), None).unwrap();
    store.add_meeting_segment(seg("same", &m.id, 0, 1, "a")).unwrap();
    assert_eq!(
        store.add_meeting_segment(seg("same", &m.id, 1, 2, "b")).unwrap_err(),
        RecorderError::StorageError
    );
}

#[test]
fn get_all_meetings_is_newest_first() {
    let mut store = MeetingStore::new();
    let a = store.create_meeting("A".to_string(), None).unwrap();
    let b = store.create_meeting("B".to_string(), None).unwrap();
    let c = store.create_meeting("C".to_string(), None).unwrap();
    let all = store.get_all_meetings();
    assert_eq!(all.len(), 3);
    for w in all.windows(2) {
        assert!(w[0].created_at.epoch_seconds >= w[1].created_at.epoch_seconds);
    }
    let ids: Vec<&str> = all.iter().map(|m| m.id.as_str()).collect();
    assert!(ids.contains(&a.id.as_str()));
    assert!(ids.contains(&b.id.as_str()));
    assert!(ids.contains(&c.id.as_str()));
}

#[test]
fn search_matches_title_transcript_and_minutes() {
    let mut store = MeetingStore::new();
    let m1 = store.create_meeting("Budget review".to_string(), None).unwrap();
    let m2 = store.create_meeting("Standup".to_string(), None).unwrap();
    let mut with_transcript = store.get_meeting(&m2.id).unwrap();
    with_transcript.transcript = Some("we discussed the budget at length".to_string());
    let later = ts(with_transcript.created_at.epoch_seconds + 1, 0, 0, 1);
    store.update_meeting(&with_transcript, later);
    let m3 = store.create_meeting("Retro".to_string(), None).unwrap();
    let hits = store.search_meetings(&"budget".to_string());
    let ids: Vec<&str> = hits.iter().map(|m| m.id.as_str()).collect();
    assert!(ids.contains(&m1.id.as_str()));
    assert!(ids.contains(&m2.id.as_str()));
    assert!(!ids.contains(&m3.id.as_str()));
}

#[test]
fn search_with_no_match_is_empty() {
    let mut store = MeetingStore::new();
    store.create_meeting("Only this".to_string(), None).unwrap();
    assert!(store.search_meetings(&"zebra".to_string()).is_empty());
}

#[test]
fn delete_segments_leaves_other_meetings_alone() {
    let mut store = MeetingStore::new();
    let a = store.create_meeting("A".to_string(), None).unwrap();
    let b = store.create_meeting("B".to_string(), None).unwrap();
    store.add_meeting_segment(seg("1", &a.id, 0, 1, "x")).unwrap();
    store.add_meeting_segment(seg("2", &b.id, 0, 1, "y")).unwrap();
    store.delete_meeting_segments(&a.id);
    assert!(store.get_meeting_segments(&a.id).is_empty());
    assert_eq!(store.get_meeting_segments(&b.id).len(), 1);
}
