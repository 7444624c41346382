//! Legacy audio-file reconciliation: name parsing, date/time matching, and
//! idempotence.

use meeting_recorder::reconcile::parse_recording_name;
use meeting_recorder::store::{Meeting, MeetingStore};
use meeting_recorder::time::Timestamp;

fn local_ts(epoch: i64, hour: u32, minute: u32, second: u32) -> Timestamp {
    Timestamp {
        epoch_seconds: epoch,
        year: 2025,
        month: 8,
        day: 4,
        hour,
        minute,
        second,
        offset_seconds: 0,
    }
}

/// Epoch second whose UTC time of day is `h:m:s` on 2025-08-04.
fn epoch_at(h: i64, m: i64, s: i64) -> i64 {
    // 2025-08-04T00:00:00Z
    1754265600 + h * 3600 + m * 60 + s
}

#[test]
fn parse_accepts_the_canonical_name() {
    let p = parse_recording_name("recording_20250804_233559.wav").unwrap();
    assert_eq!(p.date, "20250804");
    assert_eq!(p.tod_seconds, 23 * 3600 + 35 * 60 + 59);
}

#[test]
fn parse_rejects_other_names() {
    assert!(parse_recording_name("recording_2025084_233559.wav").is_none());
    assert!(parse_recording_name("recording_20250804_2335.wav").is_none());
    assert!(parse_recording_name("note_20250804_233559.wav").is_none());
    assert!(parse_recording_name("recording_20250804_233559.mp3").is_none());
    assert!(parse_recording_name("recording_20250804x233559.wav").is_none());
    assert!(parse_recording_name("").is_none());
}

#[test]
fn reconcile_links_nearby_same_date_file() {
    let created = local_ts(epoch_at(23, 30, 0), 23, 30, 0);
    let mut store = MeetingStore::new();
    let m = store.create_meeting("Late night".to_string(), None).unwrap();
    let id = m.id.clone();
    // The store stamps creation with the wall clock; pin it for the test.
    let mut store = MeetingStore {
        meetings: vec![Meeting { created_at: created, updated_at: created, ..store.get_meeting(&id).unwrap() }],
        segments: Vec::new(),
    };
    let files = vec!["recording_20250804_233559.wav".to_string(), "notes.txt".to_string()];
    let now = local_ts(epoch_at(23, 59, 0), 23, 59, 0);
    let updated = store.reconcile_audio_paths(&"/rec".to_string(), &files, now);
    assert_eq!(updated, 1);
    let got = store.get_meeting(&id).unwrap();
    assert_eq!(got.audio_file_path.as_deref(), Some("/rec/recording_20250804_233559.wav"));
}

#[test]
fn reconcile_is_idempotent_on_a_second_run() {
    let created = local_ts(epoch_at(23, 30, 0), 23, 30, 0);
    let mut store = MeetingStore::new();
    let m = store.create_meeting("Once".to_string(), None).unwrap();
    let id = m.id.clone();
    let mut store = MeetingStore {
        meetings: vec![Meeting { created_at: created, updated_at: created, ..store.get_meeting(&id).unwrap() }],
        segments: Vec::new(),
    };
    let files = vec!["recording_20250804_233559.wav".to_string()];
    let now = local_ts(epoch_at(23, 59, 0), 23, 59, 0);
    let first = store.reconcile_audio_paths(&"/rec".to_string(), &files, now);
    assert_eq!(first, 1);
    let second = store.reconcile_audio_paths(&"/rec".to_string(), &files, now);
    assert_eq!(second, 0);
}

#[test]
fn reconcile_skips_files_too_far_in_time() {
    let created = local_ts(epoch_at(10, 0, 0), 10, 0, 0);
    let mut store = MeetingStore::new();
    let m = store.create_meeting("Morning".to_string(), None).unwrap();
    let id = m.id.clone();
    let mut store = MeetingStore {
        meetings: vec![Meeting { created_at: created, updated_at: created, ..store.get_meeting(&id).unwrap() }],
        segments: Vec::new(),
    };
    // Same date but 13.5 hours away: outside the 1800-second window.
    let files = vec!["recording_20250804_233000.wav".to_string()];
    let now = local_ts(epoch_at(11, 0, 0), 11, 0, 0);
    let updated = store.reconcile_audio_paths(&"/rec".to_string(), &files, now);
    assert_eq!(updated, 0);
    assert!(store.get_meeting(&id).unwrap().audio_file_path.is_none());
}

#[test]
fn reconcile_prefers_the_nearest_candidate() {
    let created = local_ts(epoch_at(23, 30, 0), 23, 30, 0);
    let mut store = MeetingStore::new();
    let m = store.create_meeting("Pick".to_string(), None).unwrap();
    let id = m.id.clone();
    let mut store = MeetingStore {
        meetings: vec![Meeting { created_at: created, updated_at: created, ..store.get_meeting(&id).unwrap() }],
        segments: Vec::new(),
    };
    let files = vec![
        "recording_20250804_231000.wav".to_string(),
        "recording_20250804_232900.wav".to_string(),
        "recording_20250804_234500.wav".to_string(),
    ];
    let now = local_ts(epoch_at(23, 59, 0), 23, 59, 0);
    let updated = store.reconcile_audio_paths(&"/rec".to_string(), &files, now);
    assert_eq!(updated, 1);
    let got = store.get_meeting(&id).unwrap();
    assert_eq!(got.audio_file_path.as_deref(), Some("/rec/recording_20250804_232900.wav"));
}
