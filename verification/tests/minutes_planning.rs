//! Minutes-generation planning: environment defaults, prompts, and the
//! reading of provider replies.

use meeting_recorder::minutes::{
    EnvSettings, plan_openai_minutes, plan_ollama_minutes, extract_first_choice, classify_status,
    parse_u32_or,
};
use meeting_recorder::errors::RecorderError;

fn empty_env() -> EnvSettings {
    EnvSettings {
        openai_api_key: None,
        openai_model: None,
        openai_max_tokens: None,
        openai_temperature: None,
        ollama_host: None,
        ollama_model: None,
    }
}

#[test]
fn missing_api_key_is_env_missing() {
    let env = empty_env();
    let r = plan_openai_minutes(&"we talked".to_string(), &None, &env);
    assert_eq!(r.unwrap_err(), RecorderError::EnvMissing);
}

#[test]
fn empty_transcript_is_rejected_after_the_key_check() {
    let mut env = empty_env();
    env.openai_api_key = Some("SECRET-REDACTED".to_string());
    let r = plan_openai_minutes(&"   ".to_string(), &None, &env);
    assert_eq!(r.unwrap_err(), RecorderError::EmptyTranscript);
}

#[test]
fn openai_plan_applies_the_documented_defaults() {
    let mut env = empty_env();
    env.openai_api_key = Some("SECRET-REDACTED".to_string());
    let p = plan_openai_minutes(&"we talked".to_string(), &None, &env).unwrap();
    assert_eq!(p.model, "gpt-4o-mini");
    assert_eq!(p.max_tokens, 2000);
    assert_eq!(p.temperature_text, "0.3");
    assert!(p.system_prompt.starts_with("You are an expert meeting assistant."));
    assert!(p.system_prompt.contains("professional English business language"));
    assert!(p.system_prompt.ends_with("ENERGY: [High/Medium/Low]"));
    assert_eq!(
        p.user_prompt,
        "Please generate meeting minutes from this transcript:\n\nwe talked"
    );
}

#[test]
fn openai_plan_honours_the_environment() {
    let mut env = empty_env();
    env.openai_api_key = Some("SECRET-REDACTED".to_string());
    env.openai_model = Some("gpt-4o".to_string());
    env.openai_max_tokens = Some("512".to_string());
    env.openai_temperature = Some("0.7".to_string());
    let p = plan_openai_minutes(&"talk".to_string(), &Some("id".to_string()), &env).unwrap();
    assert_eq!(p.model, "gpt-4o");
    assert_eq!(p.max_tokens, 512);
    assert_eq!(p.temperature_text, "0.7");
    assert!(p.system_prompt.contains("Bahasa Indonesia"));
}

#[test]
fn token_parsing_falls_back_on_anything_unreadable() {
    assert_eq!(parse_u32_or(&Some("1234".to_string()), 2000), 1234);
    assert_eq!(parse_u32_or(&Some("12x4".to_string()), 2000), 2000);
    assert_eq!(parse_u32_or(&Some("".to_string()), 2000), 2000);
    assert_eq!(parse_u32_or(&Some("999999999999999".to_string()), 2000), 2000);
    assert_eq!(parse_u32_or(&None, 2000), 2000);
}

#[test]
fn ollama_plan_applies_the_documented_defaults() {
    let env = empty_env();
    let p = plan_ollama_minutes(&"we talked".to_string(), &None, &env).unwrap();
    assert_eq!(p.host, "http://localhost:11434");
    assert_eq!(p.model, "llama3.1:8b");
    assert!(p.prompt.contains("ENERGY: [High/Medium/Low]"));
    assert!(p.prompt.ends_with("Please generate meeting minutes from this transcript:\n\nwe talked"));
}

#[test]
fn ollama_plan_rejects_an_empty_transcript() {
    let env = empty_env();
    assert_eq!(
        plan_ollama_minutes(&"\n\t ".to_string(), &None, &env).unwrap_err(),
        RecorderError::EmptyTranscript
    );
}

#[test]
fn first_choice_is_the_minutes_and_none_is_a_provider_failure() {
    let contents = vec!["## Minutes".to_string(), "ignored".to_string()];
    assert_eq!(extract_first_choice(&contents).unwrap(), "## Minutes");
    let none: Vec<String> = Vec::new();
    assert_eq!(extract_first_choice(&none).unwrap_err(), RecorderError::ProviderFailure);
}

#[test]
fn status_codes_outside_success_fail_the_provider() {
    assert!(classify_status(200).is_ok());
    assert!(classify_status(299).is_ok());
    assert_eq!(classify_status(401).unwrap_err(), RecorderError::ProviderFailure);
    assert_eq!(classify_status(199).unwrap_err(), RecorderError::ProviderFailure);
    assert_eq!(classify_status(500).unwrap_err(), RecorderError::ProviderFailure);
}
