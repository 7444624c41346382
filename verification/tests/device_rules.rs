//! Device-name rules: annotation stripping, keyword classification, and
//! the system-source auto-detection order.

use meeting_recorder::devices::{
    device_name_matches, find_device, find_system_device, name_is_loopback,
    name_is_system_output, pick_system_device, build_device_report, SystemDevicePick,
};
use meeting_recorder::errors::RecorderError;

#[test]
fn default_annotation_does_not_change_identity() {
    assert!(device_name_matches("USB Mic (Default)", "USB Mic"));
    assert!(device_name_matches("USB Mic", "USB Mic (Default)"));
    assert!(device_name_matches("USB Mic", "USB Mic"));
    assert!(!device_name_matches("USB Mic", "Other Mic"));
}

#[test]
fn find_device_returns_the_first_clean_match() {
    let names = vec![
        "Other".to_string(),
        "USB Mic (Default)".to_string(),
        "USB Mic".to_string(),
    ];
    assert_eq!(find_device(&names, "USB Mic"), Some(1));
    assert_eq!(find_device(&names, "Missing"), None);
}

#[test]
fn loopback_keywords_are_case_insensitive() {
    assert!(name_is_loopback("BlackHole 2ch"));
    assert!(name_is_loopback("Soundflower (2ch)"));
    assert!(name_is_loopback("My Virtual Cable"));
    assert!(!name_is_loopback("Built-in Microphone"));
    assert!(name_is_system_output("Stereo Mix (Realtek)"));
    assert!(name_is_system_output("What U Hear"));
    assert!(!name_is_system_output("Headphones"));
}

#[test]
fn system_source_prefers_loopback_inputs_over_outputs() {
    let inputs = vec!["Built-in Mic".to_string(), "BlackHole 2ch".to_string()];
    let outputs = vec!["Stereo Mix".to_string()];
    match pick_system_device(&inputs, &outputs) {
        SystemDevicePick::InputLoopback(i) => assert_eq!(i, 1),
        _ => panic!("expected the loopback input"),
    }
}

#[test]
fn system_source_falls_back_to_system_outputs() {
    let inputs = vec!["Built-in Mic".to_string()];
    let outputs = vec!["Headphones".to_string(), "Stereo Mix".to_string()];
    match pick_system_device(&inputs, &outputs) {
        SystemDevicePick::OutputDevice(i) => assert_eq!(i, 1),
        _ => panic!("expected the system output"),
    }
}

#[test]
fn no_qualifying_device_leaves_microphone_only() {
    let inputs = vec!["Built-in Mic".to_string()];
    let outputs = vec!["Headphones".to_string()];
    assert!(matches!(pick_system_device(&inputs, &outputs), SystemDevicePick::NoDevice));
}

#[test]
fn device_report_lists_and_labels_devices() {
    let inputs = vec!["Built-in Mic".to_string(), "BlackHole 2ch".to_string()];
    let outputs = vec!["Speakers".to_string()];
    let report = build_device_report(
        &inputs,
        &Some("Built-in Mic".to_string()),
        &outputs,
        &Some("Speakers".to_string()),
    )
    .unwrap();
    assert_eq!(report.input_devices.len(), 2);
    assert_eq!(report.input_devices[0].name, "Built-in Mic");
    assert!(report.input_devices[0].is_default);
    assert_eq!(report.input_devices[0].device_type, "input");
    assert!(!report.input_devices[1].is_default);
    assert_eq!(report.output_devices.len(), 2);
    assert_eq!(report.output_devices[0].name, "Speakers (System Audio)");
    assert_eq!(report.output_devices[0].device_type, "output");
    assert_eq!(report.output_devices[1].name, "BlackHole 2ch (Loopback)");
    assert_eq!(report.output_devices[1].device_type, "loopback");
}

#[test]
fn no_inputs_at_all_fails_enumeration() {
    let inputs: Vec<String> = Vec::new();
    let outputs = vec!["Speakers".to_string()];
    assert_eq!(
        build_device_report(&inputs, &None, &outputs, &None).unwrap_err(),
        RecorderError::EnumerationFailed
    );
}

#[test]
fn diagnostics_summary_counts_marked_lines() {
    let lines = vec![
        "[ok] Microphone: USB Mic".to_string(),
        "[warn] No dedicated system audio device found".to_string(),
        "[ok] Audio stream creation and playback successful".to_string(),
        "[fail] Stream test failed".to_string(),
    ];
    let summary = meeting_recorder::devices::summarize_diagnostics(&lines);
    assert!(summary.starts_with("Audio System Test Complete\n\n[ok] Microphone"));
    assert!(summary.ends_with("\nSummary: 2 passed, 1 warnings, 1 errors"));
}

#[test]
fn system_selection_strips_every_list_annotation() {
    let names = vec!["Built-in Mic".to_string(), "BlackHole 2ch (Default)".to_string()];
    assert_eq!(find_system_device(&names, "BlackHole 2ch (Loopback)"), Some(1));
    assert_eq!(find_system_device(&names, "Speakers (System Audio)"), None);
}
