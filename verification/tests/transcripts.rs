//! Transcript assembly rules and the model preference order.

use meeting_recorder::transcript::{
    is_audio_too_short, short_audio_text, no_speech_text, assemble_plain_text,
    build_transcription_result, pick_model, fmt_duration, file_report, TranscriptionSegment,
    MIN_TRANSCRIBE_SAMPLES,
};

#[test]
fn audio_under_the_gate_is_too_short() {
    assert!(is_audio_too_short(0));
    assert!(is_audio_too_short(MIN_TRANSCRIBE_SAMPLES - 1));
    assert!(!is_audio_too_short(MIN_TRANSCRIBE_SAMPLES));
    assert_eq!(short_audio_text(), "(Audio too short for transcription)");
}

#[test]
fn zero_segments_yield_no_speech() {
    let raw: Vec<TranscriptionSegment> = Vec::new();
    let r = build_transcription_result(&raw);
    assert!(r.segments.is_empty());
    assert_eq!(r.full_text, "(No speech detected)");
    assert_eq!(no_speech_text(), "(No speech detected)");
}

#[test]
fn whitespace_only_segments_also_yield_no_speech() {
    let raw = vec![TranscriptionSegment { start: 0, end: 100, text: "   ".to_string() }];
    let r = build_transcription_result(&raw);
    assert!(r.segments.is_empty());
    assert_eq!(r.full_text, "(No speech detected)");
}

#[test]
fn segments_are_trimmed_and_joined_with_single_spaces() {
    let raw = vec![
        TranscriptionSegment { start: 0, end: 150, text: " Hello".to_string() },
        TranscriptionSegment { start: 150, end: 200, text: "  ".to_string() },
        TranscriptionSegment { start: 200, end: 420, text: " world ".to_string() },
    ];
    let r = build_transcription_result(&raw);
    assert_eq!(r.segments.len(), 2);
    assert_eq!(r.segments[0].text, "Hello");
    assert_eq!(r.segments[0].start, 0);
    assert_eq!(r.segments[0].end, 150);
    assert_eq!(r.segments[1].text, "world");
    assert_eq!(r.full_text, "Hello world");
}

#[test]
fn plain_assembly_joins_and_trims() {
    let texts = vec![" one".to_string(), "two ".to_string()];
    assert_eq!(assemble_plain_text(&texts), "one two");
    let empties = vec!["".to_string(), "   ".to_string()];
    assert_eq!(assemble_plain_text(&empties), "(No speech detected)");
}

#[test]
fn model_preference_takes_the_best_present_file() {
    let names = vec![
        "ggml-base.en.bin".to_string(),
        "ggml-medium.bin".to_string(),
        "notes.txt".to_string(),
    ];
    assert_eq!(pick_model(&names).as_deref(), Some("ggml-medium.bin"));
    let only_base = vec!["ggml-base.en.bin".to_string()];
    assert_eq!(pick_model(&only_base).as_deref(), Some("ggml-base.en.bin"));
    let none = vec!["readme.md".to_string()];
    assert!(pick_model(&none).is_none());
}

#[test]
fn durations_are_whole_seconds_and_truncated_hundredths() {
    assert_eq!(fmt_duration(16000), "1.00");
    assert_eq!(fmt_duration(24000), "1.50");
    assert_eq!(fmt_duration(0), "0.00");
    assert_eq!(fmt_duration(1599), "0.09");
}

#[test]
fn file_reports_carry_path_duration_and_transcript() {
    let r = file_report(&"/tmp/a.wav".to_string(), 32000, &"hi there".to_string());
    assert_eq!(
        r,
        "File: /tmp/a.wav\nDuration: 2.00s\nSamples: 32000\n\nTranscript:\nhi there"
    );
}
