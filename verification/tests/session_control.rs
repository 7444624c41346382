//! The session state machine: lifecycle transitions, gains, switches.

use meeting_recorder::session::{
    SessionControl, recording_file, recordings_dir, models_dir, db_file, exports_dir,
    default_meeting_title,
};
use meeting_recorder::time::Timestamp;
use meeting_recorder::errors::RecorderError;

fn ts() -> Timestamp {
    Timestamp {
        epoch_seconds: 1754265600,
        year: 2025,
        month: 8,
        day: 4,
        hour: 0,
        minute: 0,
        second: 0,
        offset_seconds: 0,
    }
}

#[test]
fn stop_without_start_is_not_recording() {
    let mut s = SessionControl::new();
    assert_eq!(s.stop_recording(100, 0).unwrap_err(), RecorderError::NotRecording);
}

#[test]
fn start_then_immediate_stop_reports_zero_duration() {
    let mut s = SessionControl::new();
    let id = "aaaaaaaa-bbbb-cccc-dddd-eeeeeeeeeeee".to_string();
    let home = "/home/u".to_string();
    let info = s.start_recording(&id, &home, 1000).unwrap();
    assert!(s.is_recording);
    assert_eq!(info.meeting_id, id);
    assert_eq!(
        info.audio_file_path,
        "/home/u/Documents/MeetingRecorder/MeetingRecordings/recording_aaaaaaaa-bbbb-cccc-dddd-eeeeeeeeeeee.wav"
    );
    let res = s.stop_recording(1000, 123).unwrap();
    assert!(res.success);
    assert_eq!(res.duration_seconds, 0);
    assert_eq!(res.sample_count, 123);
    assert_eq!(res.audio_file_path.as_deref(), Some(info.audio_file_path.as_str()));
    assert!(!s.is_recording);
}

#[test]
fn starting_twice_is_already_recording() {
    let mut s = SessionControl::new();
    let id = "m1".to_string();
    let home = "/h".to_string();
    s.start_recording(&id, &home, 5).unwrap();
    assert_eq!(
        s.start_recording(&id, &home, 6).unwrap_err(),
        RecorderError::AlreadyRecording
    );
}

#[test]
fn stop_reports_elapsed_whole_seconds() {
    let mut s = SessionControl::new();
    s.start_recording(&"m".to_string(), &"/h".to_string(), 100).unwrap();
    let res = s.stop_recording(147, 0).unwrap();
    assert_eq!(res.duration_seconds, 47);
    assert_eq!(
        res.message,
        "Recording stopped and saved successfully (Duration: 47s)"
    );
}

#[test]
fn gains_accept_the_allowed_range_only() {
    let mut s = SessionControl::new();
    assert_eq!(s.get_gain_settings(), (250, 150));
    s.set_gain_settings(0, 1000).unwrap();
    assert_eq!(s.get_gain_settings(), (0, 1000));
    assert_eq!(s.set_gain_settings(-1, 500).unwrap_err(), RecorderError::OutOfRange);
    assert_eq!(s.set_gain_settings(500, 1001).unwrap_err(), RecorderError::OutOfRange);
    assert_eq!(s.get_gain_settings(), (0, 1000));
}

#[test]
fn realtime_needs_a_loaded_model() {
    let mut s = SessionControl::new();
    assert_eq!(
        s.enable_realtime_transcription().unwrap_err(),
        RecorderError::NotInitialized
    );
    s.set_model_ready();
    s.enable_realtime_transcription().unwrap();
    assert!(s.realtime_enabled);
    s.disable_realtime_transcription();
    assert!(!s.realtime_enabled);
}

#[test]
fn device_selection_keeps_unset_slots() {
    let mut s = SessionControl::new();
    s.set_audio_devices(Some("Mic A".to_string()), None);
    assert_eq!(s.get_selected_devices(), (Some("Mic A".to_string()), None));
    s.set_audio_devices(None, Some("BlackHole 2ch".to_string()));
    assert_eq!(
        s.get_selected_devices(),
        (Some("Mic A".to_string()), Some("BlackHole 2ch".to_string()))
    );
}

#[test]
fn status_lines_reflect_the_state() {
    let mut s = SessionControl::new();
    assert_eq!(s.get_recording_status(50, 0), "Not recording");
    s.start_recording(&"m".to_string(), &"/h".to_string(), 40).unwrap();
    assert_eq!(s.get_recording_status(50, 800), "Recording: 10s, 800 samples");
}

#[test]
fn layout_paths_follow_the_home_directory() {
    let home = "/home/u".to_string();
    assert_eq!(
        recordings_dir(&home),
        "/home/u/Documents/MeetingRecorder/MeetingRecordings"
    );
    assert_eq!(
        models_dir(&home),
        "/home/u/Documents/MeetingRecorder/MeetingRecordings/models"
    );
    assert_eq!(db_file(&home), "/home/u/Documents/MeetingRecorder/meetings.db");
    assert_eq!(exports_dir(&home), "/home/u/Documents/MeetingRecorder/exports");
    assert_eq!(
        recording_file(&home, &"xyz".to_string()),
        "/home/u/Documents/MeetingRecorder/MeetingRecordings/recording_xyz.wav"
    );
}

#[test]
fn default_title_carries_the_local_stamp() {
    assert_eq!(default_meeting_title(&ts()), "Meeting 2025-08-04 00:00:00");
}

#[test]
fn save_files_reports_the_output_path() {
    let mut s = SessionControl::new();
    assert_eq!(s.save_files().unwrap_err(), RecorderError::NotRecording);
    s.start_recording(&"m".to_string(), &"/h".to_string(), 0).unwrap();
    let msg = s.save_files().unwrap();
    assert_eq!(
        msg,
        "Files saved to: /h/Documents/MeetingRecorder/MeetingRecordings/recording_m.wav"
    );
}
