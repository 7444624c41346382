//! Export documents: file naming, Markdown and text layout, and JSON that
//! an independent parser reads back unchanged.

use meeting_recorder::export::{
    export_file_name, export_as_markdown, export_as_txt, export_as_json, join_lines,
    check_export_format, default_transcript_filename, default_minutes_filename,
    transcript_file_header, ExportOptions,
};
use meeting_recorder::store::{Meeting, MeetingSegment};
use meeting_recorder::time::Timestamp;
use meeting_recorder::errors::RecorderError;

fn ts() -> Timestamp {
    Timestamp {
        epoch_seconds: 1754350559,
        year: 2025,
        month: 8,
        day: 4,
        hour: 23,
        minute: 35,
        second: 59,
        offset_seconds: 7 * 3600,
    }
}

fn meeting() -> Meeting {
    Meeting {
        id: "id-123".to_string(),
        title: "Weekly sync".to_string(),
        created_at: ts(),
        updated_at: ts(),
        duration_seconds: Some(120),
        audio_file_path: Some("/rec/recording_id-123.wav".to_string()),
        transcript: Some("we \"quoted\" things\nacross lines".to_string()),
        meeting_minutes: Some("## Summary".to_string()),
        language: Some("en".to_string()),
        ai_provider: Some("openai".to_string()),
    }
}

fn segs() -> Vec<MeetingSegment> {
    vec![
        MeetingSegment {
            id: "s1".to_string(),
            meeting_id: "id-123".to_string(),
            start_time: 0,
            end_time: 150,
            text: "hello there".to_string(),
        confidence: None,
        },
        MeetingSegment {
            id: "s2".to_string(),
            meeting_id: "id-123".to_string(),
            start_time: 150,
            end_time: 420,
            text: "general kenobi".to_string(),
            confidence: Some(950),
        },
    ]
}

fn all_options(fmt: &str) -> ExportOptions {
    ExportOptions {
        format: fmt.to_string(),
        include_transcript: true,
        include_audio: true,
        include_summary: true,
        include_segments: true,
    }
}

#[test]
fn export_names_are_sanitized_and_stamped() {
    let name = export_file_name(&"Weekly sync: Q3/4!".to_string(), &ts(), &"md".to_string());
    assert_eq!(name, "Weekly_sync__Q3_4__20250804_233559.md");
}

#[test]
fn unsupported_formats_are_refused() {
    assert!(check_export_format(&"txt".to_string()).is_ok());
    assert!(check_export_format(&"json".to_string()).is_ok());
    assert!(check_export_format(&"md".to_string()).is_ok());
    assert_eq!(
        check_export_format(&"pdf".to_string()).unwrap_err(),
        RecorderError::UnsupportedFormat
    );
}

#[test]
fn markdown_contains_every_segment_text_verbatim() {
    let lines = export_as_markdown(&meeting(), &segs(), &all_options("md"));
    assert!(lines.iter().any(|l| l == "hello there"));
    assert!(lines.iter().any(|l| l == "general kenobi"));
    assert_eq!(lines[0], "# Weekly sync");
    assert!(lines.iter().any(|l| l == "### Segment 1"));
    assert!(lines.iter().any(|l| l == "**Time:** 1.50s - 4.20s"));
    assert!(lines.iter().any(|l| l == "## AI Meeting Summary"));
    assert!(lines.iter().any(|l| l == "**File Path:** `/rec/recording_id-123.wav`"));
}

#[test]
fn markdown_sections_follow_the_switches() {
    let mut o = all_options("md");
    o.include_segments = false;
    o.include_summary = false;
    let lines = export_as_markdown(&meeting(), &segs(), &o);
    assert!(!lines.iter().any(|l| l == "hello there"));
    assert!(!lines.iter().any(|l| l == "## AI Meeting Summary"));
    assert!(lines.iter().any(|l| l == "## Full Transcript"));
}

#[test]
fn txt_export_lists_numbered_segments() {
    let lines = export_as_txt(&meeting(), &segs(), &all_options("txt"));
    assert_eq!(lines[0], "MEETING EXPORT");
    assert!(lines.iter().any(|l| l == "Title: Weekly sync"));
    assert!(lines.iter().any(|l| l == "Duration: 120 seconds"));
    assert!(lines.iter().any(|l| l == "[1] 0.00s - 1.50s: hello there"));
    assert!(lines.iter().any(|l| l == "[2] 1.50s - 4.20s: general kenobi"));
    assert!(lines.iter().any(|l| l == "File: /rec/recording_id-123.wav"));
}

#[test]
fn joined_lines_end_each_line_with_a_newline() {
    let lines = vec!["a".to_string(), "".to_string(), "b".to_string()];
    assert_eq!(join_lines(&lines), "a\n\nb\n");
}

#[test]
fn json_export_reparses_to_the_same_fields() {
    let m = meeting();
    let text = export_as_json(&m, &segs(), &all_options("json"), &ts());
    let v: serde_json::Value = serde_json::from_str(&text).unwrap();
    assert_eq!(v["meeting"]["id"], "id-123");
    assert_eq!(v["meeting"]["title"], "Weekly sync");
    assert_eq!(v["meeting"]["created_at"], "2025-08-04T23:35:59+07:00");
    assert_eq!(v["meeting"]["duration_seconds"], 120);
    assert_eq!(v["meeting"]["language"], "en");
    assert_eq!(v["meeting"]["ai_provider"], "openai");
    assert_eq!(v["transcript"], "we \"quoted\" things\nacross lines");
    assert_eq!(v["meeting_minutes"], "## Summary");
    assert_eq!(v["audio_file_path"], "/rec/recording_id-123.wav");
    assert_eq!(v["export_options"]["format"], "json");
    assert_eq!(v["export_options"]["include_segments"], true);
    let arr = v["segments"].as_array().unwrap();
    assert_eq!(arr.len(), 2);
    assert_eq!(arr[0]["text"], "hello there");
    assert_eq!(arr[1]["start_time"], 1.5);
    assert_eq!(arr[1]["end_time"], 4.2);
}

#[test]
fn json_export_omits_sections_that_were_not_asked_for() {
    let o = ExportOptions {
        format: "json".to_string(),
        include_transcript: false,
        include_audio: false,
        include_summary: false,
        include_segments: false,
    };
    let text = export_as_json(&meeting(), &segs(), &o, &ts());
    let v: serde_json::Value = serde_json::from_str(&text).unwrap();
    assert!(v.get("transcript").is_none());
    assert!(v.get("segments").is_none());
    assert!(v.get("audio_file_path").is_none());
    assert_eq!(v["meeting"]["id"], "id-123");
}

#[test]
fn generated_file_names_carry_the_dashed_stamp() {
    assert_eq!(default_transcript_filename(&ts()), "meeting_2025-08-04_23-35-59.txt");
    assert_eq!(default_minutes_filename(&ts()), "meeting_minutes_2025-08-04_23-35-59.md");
}

#[test]
fn transcript_headers_stamp_and_name_the_file() {
    let h = transcript_file_header(&ts(), &"meeting_x.txt".to_string());
    assert!(h.starts_with("Meeting Transcript\nGenerated: 2025-08-04 23:35:59 UTC\nFile: meeting_x.txt\n"));
    assert!(h.ends_with("==================================================\n\n"));
}
