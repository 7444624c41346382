//! Composite command flows over the store: title edits, minutes storage,
//! and the wholesale transcript replacement.

use meeting_recorder::commands::{
    update_meeting_title, save_meeting_minutes_to_database, update_meeting_transcript,
    duration_from_segments,
};
use meeting_recorder::store::MeetingStore;
use meeting_recorder::transcript::TranscriptionSegment;
use meeting_recorder::time::Timestamp;
use meeting_recorder::errors::RecorderError;

fn later_than(t: Timestamp, secs: i64) -> Timestamp {
    Timestamp { epoch_seconds: t.epoch_seconds + secs, ..t }
}

#[test]
fn title_edit_keeps_everything_else() {
    let mut store = MeetingStore::new();
    let m = store.create_meeting("Old title".to_string(), Some("en".to_string())).unwrap();
    let now = later_than(m.created_at, 10);
    update_meeting_title(&mut store, &m.id, "New title".to_string(), now).unwrap();
    let got = store.get_meeting(&m.id).unwrap();
    assert_eq!(got.title, "New title");
    assert_eq!(got.language.as_deref(), Some("en"));
    assert_eq!(got.updated_at.epoch_seconds, now.epoch_seconds);
}

#[test]
fn title_edit_of_a_missing_meeting_is_not_found() {
    let mut store = MeetingStore::new();
    let now = Timestamp {
        epoch_seconds: 0,
        year: 2025,
        month: 1,
        day: 1,
        hour: 0,
        minute: 0,
        second: 0,
        offset_seconds: 0,
    };
    assert_eq!(
        update_meeting_title(&mut store, &"ghost".to_string(), "t".to_string(), now).unwrap_err(),
        RecorderError::NotFound
    );
}

#[test]
fn minutes_are_stored_with_their_provider() {
    let mut store = MeetingStore::new();
    let m = store.create_meeting("Sync".to_string(), None).unwrap();
    let now = later_than(m.created_at, 5);
    save_meeting_minutes_to_database(
        &mut store,
        &m.id,
        "## Minutes".to_string(),
        "ollama".to_string(),
        now,
    )
    .unwrap();
    let got = store.get_meeting(&m.id).unwrap();
    assert_eq!(got.meeting_minutes.as_deref(), Some("## Minutes"));
    assert_eq!(got.ai_provider.as_deref(), Some("ollama"));
}

#[test]
fn duration_is_the_last_segment_end_in_whole_seconds() {
    let segs = vec![
        TranscriptionSegment { start: 0, end: 150, text: "a".to_string() },
        TranscriptionSegment { start: 150, end: 930, text: "b".to_string() },
        TranscriptionSegment { start: 400, end: 620, text: "c".to_string() },
    ];
    assert_eq!(duration_from_segments(&segs), 9);
    let none: Vec<TranscriptionSegment> = Vec::new();
    assert_eq!(duration_from_segments(&none), 0);
}

#[test]
fn transcript_replacement_rewrites_meeting_and_segments() {
    let mut store = MeetingStore::new();
    let m = store.create_meeting("Raw".to_string(), None).unwrap();
    store
        .add_meeting_segment(meeting_recorder::store::MeetingSegment {
            id: "stale".to_string(),
            meeting_id: m.id.clone(),
            start_time: 0,
            end_time: 1,
            text: "stale".to_string(),
            confidence: None,
        })
        .unwrap();
    let now = later_than(m.created_at, 30);
    let segs = vec![
        TranscriptionSegment { start: 0, end: 120, text: "first".to_string() },
        TranscriptionSegment { start: 120, end: 260, text: "second".to_string() },
    ];
    let updated = update_meeting_transcript(
        &mut store,
        &m.id,
        "Titled".to_string(),
        "first second".to_string(),
        &segs,
        Some("en".to_string()),
        Some("/rec/a.wav".to_string()),
        None,
        now,
    )
    .unwrap();
    assert_eq!(updated.title, "Titled");
    assert_eq!(updated.transcript.as_deref(), Some("first second"));
    assert_eq!(updated.duration_seconds, Some(2));
    let stored = store.get_meeting_segments(&m.id);
    assert_eq!(stored.len(), 2);
    assert_eq!(stored[0].text, "first");
    assert_eq!(stored[1].text, "second");
    assert!(stored.iter().all(|s| s.text != "stale"));
    assert_eq!(stored[0].id.len(), 36);
}

#[test]
fn transcript_replacement_uses_the_fallback_duration_without_segments() {
    let mut store = MeetingStore::new();
    let m = store.create_meeting("Empty".to_string(), None).unwrap();
    let now = later_than(m.created_at, 3);
    let none: Vec<TranscriptionSegment> = Vec::new();
    let updated = update_meeting_transcript(
        &mut store,
        &m.id,
        "Empty".to_string(),
        "".to_string(),
        &none,
        None,
        None,
        Some(42),
        now,
    )
    .unwrap();
    assert_eq!(updated.duration_seconds, Some(42));
    assert!(store.get_meeting_segments(&m.id).is_empty());
}

#[test]
fn transcript_replacement_of_a_missing_meeting_is_not_found() {
    let mut store = MeetingStore::new();
    let now = Timestamp {
        epoch_seconds: 10,
        year: 2025,
        month: 1,
        day: 1,
        hour: 0,
        minute: 0,
        second: 0,
        offset_seconds: 0,
    };
    let none: Vec<TranscriptionSegment> = Vec::new();
    let r = update_meeting_transcript(
        &mut store,
        &"ghost".to_string(),
        "t".to_string(),
        "x".to_string(),
        &none,
        None,
        None,
        None,
        now,
    );
    assert_eq!(r.unwrap_err(), RecorderError::NotFound);
}

#[test]
fn post_hoc_save_creates_a_meeting_with_transcript() {
    let mut store = MeetingStore::new();
    let segs = vec![
        TranscriptionSegment { start: 0, end: 450, text: "alpha".to_string() },
    ];
    let m = meeting_recorder::commands::save_transcript_to_database(
        &mut store,
        "Imported".to_string(),
        "alpha".to_string(),
        &segs,
        Some("en".to_string()),
        Some("/rec/i.wav".to_string()),
        None,
    )
    .unwrap();
    assert_eq!(m.title, "Imported");
    assert_eq!(m.transcript.as_deref(), Some("alpha"));
    assert_eq!(m.duration_seconds, Some(4));
    let stored = store.get_meeting(&m.id).unwrap();
    assert_eq!(stored.transcript.as_deref(), Some("alpha"));
    assert_eq!(store.get_meeting_segments(&m.id).len(), 1);
}

#[test]
fn audio_path_report_lines_name_the_status() {
    let mut store = MeetingStore::new();
    let m = store.create_meeting("Reported".to_string(), None).unwrap();
    let line = meeting_recorder::commands::audio_path_report_line(&m, false);
    assert_eq!(line, format!("Meeting: 'Reported' ({}) - no audio path stored", m.id));
    let mut with_path = store.get_meeting(&m.id).unwrap();
    with_path.audio_file_path = Some("/rec/x.wav".to_string());
    let line = meeting_recorder::commands::audio_path_report_line(&with_path, true);
    assert_eq!(
        line,
        format!("Meeting: 'Reported' ({}) - audio file exists: /rec/x.wav", m.id)
    );
}
