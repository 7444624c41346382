//! Planning of meeting-minutes generation: environment defaults, the
//! language-aware prompt, and the reading of the provider's reply. The two
//! providers — a remote chat API and a local model runtime — are reached by
//! the host shell; everything here is a pure function of the transcript,
//! the language tag, and the environment strings.

use vstd::prelude::*;
use crate::errors::RecorderError;
use crate::store::clone_string;
use crate::util::{str_eq, trim_chars, trim_spaces, digit_val};

verus! {

/// The environment values the planners read, as the host shell found them.
pub struct EnvSettings {
    pub openai_api_key: Option<String>,
    pub openai_model: Option<String>,
    pub openai_max_tokens: Option<String>,
    pub openai_temperature: Option<String>,
    pub ollama_host: Option<String>,
    pub ollama_model: Option<String>,
}

/// The instruction for a language tag; unknown tags and no tag fall back
/// to English.
pub open spec fn lang_instruction(lang: Option<Seq<char>>) -> Seq<char> {
    if lang == Some("id"@) {
        "Generate the meeting minutes in Indonesian (Bahasa Indonesia). Use professional Indonesian business language."@
    } else if lang == Some("es"@) {
        "Generate the meeting minutes in Spanish. Use professional Spanish business language."@
    } else if lang == Some("fr"@) {
        "Generate the meeting minutes in French. Use professional French business language."@
    } else if lang == Some("de"@) {
        "Generate the meeting minutes in German. Use professional German business language."@
    } else if lang == Some("it"@) {
        "Generate the meeting minutes in Italian. Use professional Italian business language."@
    } else if lang == Some("pt"@) {
        "Generate the meeting minutes in Portuguese. Use professional Portuguese business language."@
    } else if lang == Some("nl"@) {
        "Generate the meeting minutes in Dutch. Use professional Dutch business language."@
    } else if lang == Some("ru"@) {
        "Generate the meeting minutes in Russian. Use professional Russian business language."@
    } else if lang == Some("ja"@) {
        "Generate the meeting minutes in Japanese. Use professional Japanese business language."@
    } else if lang == Some("ko"@) {
        "Generate the meeting minutes in Korean. Use professional Korean business language."@
    } else if lang == Some("zh"@) {
        "Generate the meeting minutes in Chinese. Use professional Chinese business language."@
    } else if lang == Some("ar"@) {
        "Generate the meeting minutes in Arabic. Use professional Arabic business language."@
    } else if lang == Some("hi"@) {
        "Generate the meeting minutes in Hindi. Use professional Hindi business language."@
    } else if lang == Some("tr"@) {
        "Generate the meeting minutes in Turkish. Use professional Turkish business language."@
    } else {
        "Generate the meeting minutes in English. Use professional English business language."@
    }
}

/// The view of an optional string.
pub open spec fn opt_view(o: Option<String>) -> Option<Seq<char>> {
    match o {
        Some(s) => Some(s@),
        None => None,
    }
}

/// Picks the language instruction for a tag.
pub fn language_instruction(lang: &Option<String>) -> (r: &'static str)
    ensures
        r@ == lang_instruction(opt_view(*lang)),
{
    proof {
        reveal_strlit("id");
        reveal_strlit("es");
        reveal_strlit("fr");
        reveal_strlit("de");
        reveal_strlit("it");
        reveal_strlit("pt");
        reveal_strlit("nl");
        reveal_strlit("ru");
        reveal_strlit("ja");
        reveal_strlit("ko");
        reveal_strlit("zh");
        reveal_strlit("ar");
        reveal_strlit("hi");
        reveal_strlit("tr");
    }
    match lang {
        None => {
            "Generate the meeting minutes in English. Use professional English business language."
        },
        Some(code) => {
            let c: &str = code.as_str();
            if str_eq(c, "id") {
                "Generate the meeting minutes in Indonesian (Bahasa Indonesia). Use professional Indonesian business language."
            } else if str_eq(c, "es") {
                "Generate the meeting minutes in Spanish. Use professional Spanish business language."
            } else if str_eq(c, "fr") {
                "Generate the meeting minutes in French. Use professional French business language."
            } else if str_eq(c, "de") {
                "Generate the meeting minutes in German. Use professional German business language."
            } else if str_eq(c, "it") {
                "Generate the meeting minutes in Italian. Use professional Italian business language."
            } else if str_eq(c, "pt") {
                "Generate the meeting minutes in Portuguese. Use professional Portuguese business language."
            } else if str_eq(c, "nl") {
                "Generate the meeting minutes in Dutch. Use professional Dutch business language."
            } else if str_eq(c, "ru") {
                "Generate the meeting minutes in Russian. Use professional Russian business language."
            } else if str_eq(c, "ja") {
                "Generate the meeting minutes in Japanese. Use professional Japanese business language."
            } else if str_eq(c, "ko") {
                "Generate the meeting minutes in Korean. Use professional Korean business language."
            } else if str_eq(c, "zh") {
                "Generate the meeting minutes in Chinese. Use professional Chinese business language."
            } else if str_eq(c, "ar") {
                "Generate the meeting minutes in Arabic. Use professional Arabic business language."
            } else if str_eq(c, "hi") {
                "Generate the meeting minutes in Hindi. Use professional Hindi business language."
            } else if str_eq(c, "tr") {
                "Generate the meeting minutes in Turkish. Use professional Turkish business language."
            } else {
                "Generate the meeting minutes in English. Use professional English business language."
            }
        },
    }
}

/// The system prompt for the remote chat provider around the language
/// instruction: section plan, markdown guidance, and the structured
/// `KEY_TOPICS`/`SENTIMENT`/`ENERGY` trailer.
pub open spec fn openai_system_prompt_text(lang: Option<Seq<char>>) -> Seq<char> {
    "You are an expert meeting assistant. Transform the following meeting transcript into well-structured meeting minutes. "@
        + lang_instruction(lang)
        + "\n\nInclude the following sections:\n\n1. **Meeting Summary** - Brief overview of the meeting\n2. **Key Discussion Points** - Main topics discussed\n3. **Decisions Made** - Any decisions or conclusions reached\n4. **Action Items** - Tasks assigned with responsible parties (if mentioned)\n5. **Next Steps** - Follow-up actions or future meetings\n\nFormat the output in clear, professional language with proper headings and bullet points. Use markdown formatting including:\n- **Bold text** for emphasis\n- Bullet points for lists\n- Tables for structured data (use proper markdown table syntax with | separators)\n- Code blocks for technical content\n\nWhen presenting structured information like action items, deadlines, or data comparisons, use markdown tables with this format:\n| Column 1 | Column 2 | Column 3 |\n|----------|----------|----------|\n| Data 1   | Data 2   | Data 3   |\n\nIf specific names or roles aren't mentioned, use generic terms like \"Participant A\", \"Team Member\", etc. Maintain the same language throughout the entire document.\n\nIMPORTANT: End your response with exactly this format:\n---\nKEY_TOPICS: [comma-separated list of 3-5 topics]\nSENTIMENT: [Positive/Neutral/Negative]\nENERGY: [High/Medium/Low]"@
}

/// The shorter system prompt for the local model runtime.
pub open spec fn ollama_system_prompt_text(lang: Option<Seq<char>>) -> Seq<char> {
    "You are an expert meeting assistant. Transform the following meeting transcript into well-structured meeting minutes. "@
        + lang_instruction(lang)
        + "\n\nInclude the following sections:\n\n1. **Meeting Summary** - Brief overview of the meeting\n2. **Key Discussion Points** - Main topics discussed\n3. **Decisions Made** - Any decisions or conclusions reached\n4. **Action Items** - Tasks assigned with responsible parties (if mentioned)\n5. **Next Steps** - Follow-up actions or future meetings\n\nFormat the output in clear, professional language with proper headings and bullet points. If specific names or roles aren't mentioned, use generic terms like \"Participant A\", \"Team Member\", etc. Maintain the same language throughout the entire document.\n\nIMPORTANT: End your response with exactly this format:\n---\nKEY_TOPICS: [comma-separated list of 3-5 topics]\nSENTIMENT: [Positive/Neutral/Negative]\nENERGY: [High/Medium/Low]"@
}

/// The user prompt around the transcript.
pub open spec fn user_prompt_text(transcript: Seq<char>) -> Seq<char> {
    "Please generate meeting minutes from this transcript:\n\n"@ + transcript
}

/// The value of a digit string, most significant first.
pub open spec fn digits_value(s: Seq<char>) -> int
    decreases s.len(),
{
    if s.len() == 0 {
        0
    } else {
        digits_value(s.drop_last()) * 10 + digit_val(s.last())
    }
}

/// `s` is one or more decimal digits.
pub open spec fn all_digits(s: Seq<char>) -> bool {
    s.len() >= 1 && forall|i: int| 0 <= i < s.len() ==> digit_val(#[trigger] s[i]) >= 0
}

proof fn lemma_digits_value_grows(s: Seq<char>, k: int)
    requires
        0 <= k <= s.len(),
        forall|i: int| 0 <= i < s.len() ==> digit_val(#[trigger] s[i]) >= 0,
    ensures
        digits_value(s.take(k)) <= digits_value(s),
    decreases s.len() - k,
{
    if k < s.len() {
        lemma_digits_value_grows(s, k + 1);
        assert(s.take(k + 1).drop_last() =~= s.take(k));
        assert(s.take(k + 1).last() == s[k]);
        let v = digits_value(s.take(k));
        assert(forall|i: int| 0 <= i < s.take(k).len() ==> digit_val(#[trigger] s.take(k)[i]) >= 0);
        lemma_digits_value_nonneg(s.take(k));
        assert(v >= 0);
        assert(v * 10 + digit_val(s[k]) >= v) by (nonlinear_arith)
            requires v >= 0 && digit_val(s[k]) >= 0;
    } else {
        assert(s.take(k) =~= s);
    }
}

proof fn lemma_digits_value_nonneg(s: Seq<char>)
    ensures
        (forall|i: int| 0 <= i < s.len() ==> digit_val(#[trigger] s[i]) >= 0) ==> digits_value(s)
            >= 0,
    decreases s.len(),
{
    if s.len() > 0 {
        lemma_digits_value_nonneg(s.drop_last());
        assert(forall|i: int| 0 <= i < s.drop_last().len() ==> s.drop_last()[i] == s[i]);
        if forall|i: int| 0 <= i < s.len() ==> digit_val(#[trigger] s[i]) >= 0 {
            let v = digits_value(s.drop_last());
            assert(v * 10 + digit_val(s.last()) >= 0) by (nonlinear_arith)
                requires v >= 0 && digit_val(s.last()) >= 0;
        }
    }
}

/// Reads a digit string as a 32-bit number; anything else — an empty
/// value, a stray character, a value past the 32-bit range — yields the
/// given default, as the host configuration parser would.
pub fn parse_u32_or(s: &Option<String>, default: u32) -> (r: u32)
    ensures
        match s {
            Option::Some(t) => {
                if all_digits(t@) && digits_value(t@) <= 0xFFFF_FFFF {
                    r == digits_value(t@)
                } else {
                    r == default
                }
            },
            Option::None => r == default,
        },
{
    let t: &String = match s {
        Some(t) => t,
        None => {
            return default;
        },
    };
    let text: &str = t.as_str();
    let n: usize = text.unicode_len();
    if n == 0 {
        return default;
    }
    let mut acc: u64 = 0;
    let mut i: usize = 0;
    while i < n
        invariant
            opt_view(*s) == Some(text@),
            default == default,
            n == text@.len(),
            n >= 1,
            i <= n,
            forall|j: int| 0 <= j < i as int ==> digit_val(#[trigger] text@[j]) >= 0,
            acc == digits_value(text@.take(i as int)),
            acc <= 0xFFFF_FFFF * 10 + 9,
        decreases n - i,
    {
        let c: char = text.get_char(i);
        let d: u32 = match crate::util::digit_of(c) {
            Some(d) => d,
            None => {
                return default;
            },
        };
        if acc > 0xFFFF_FFFF {
            proof {
                lemma_digits_value_grows_all(text@, i as int);
            }
            return default;
        }
        acc = acc * 10 + (d as u64);
        proof {
            assert(text@.take(i as int + 1).drop_last() =~= text@.take(i as int));
            assert(text@.take(i as int + 1).last() == text@[i as int]);
        }
        i = i + 1;
    }
    proof {
        assert(text@.take(n as int) =~= text@);
    }
    if acc > 0xFFFF_FFFF {
        return default;
    }
    acc as u32
}

/// A prefix already past the 32-bit range keeps the whole string past it.
proof fn lemma_digits_value_grows_all(s: Seq<char>, k: int)
    requires
        0 <= k <= s.len(),
        forall|j: int| 0 <= j < k ==> digit_val(#[trigger] s[j]) >= 0,
        digits_value(s.take(k)) > 0xFFFF_FFFF,
    ensures
        (forall|j: int| 0 <= j < s.len() ==> digit_val(#[trigger] s[j]) >= 0) ==> digits_value(s)
            > 0xFFFF_FFFF,
{
    if forall|j: int| 0 <= j < s.len() ==> digit_val(#[trigger] s[j]) >= 0 {
        lemma_digits_value_grows(s, k);
    }
}

/// The request the host shell sends to the remote chat provider.
#[derive(Debug)]
pub struct OpenAiPlan {
    pub api_key: String,
    pub model: String,
    pub max_tokens: u32,
    /// Raw temperature text; the shell parses it, default `0.3`.
    pub temperature_text: String,
    pub system_prompt: String,
    pub user_prompt: String,
}

/// Plans a remote minutes request. Without `OPENAI_API_KEY` this is
/// `EnvMissing`; a transcript that trims to nothing is `EmptyTranscript`.
/// Otherwise the model, token, and temperature defaults apply and the
/// prompts are built exactly.
pub fn plan_openai_minutes(
    transcript: &String,
    language: &Option<String>,
    env: &EnvSettings,
) -> (r: Result<OpenAiPlan, RecorderError>)
    ensures
        match r {
            Result::Ok(p) => {
                &&& env.openai_api_key is Some
                &&& trim_chars(transcript@).len() > 0
                &&& p.api_key == env.openai_api_key->0
                &&& p.model@ == (match env.openai_model {
                    Some(m) => m@,
                    None => "gpt-4o-mini"@,
                })
                &&& ({
                    let mt = &env.openai_max_tokens;
                    match mt {
                        Some(t) => {
                            if all_digits(t@) && digits_value(t@) <= 0xFFFF_FFFF {
                                p.max_tokens == digits_value(t@)
                            } else {
                                p.max_tokens == 2000
                            }
                        },
                        None => p.max_tokens == 2000,
                    }
                })
                &&& p.temperature_text@ == (match env.openai_temperature {
                    Some(t) => t@,
                    None => "0.3"@,
                })
                &&& p.system_prompt@ == openai_system_prompt_text(opt_view(*language))
                &&& p.user_prompt@ == user_prompt_text(transcript@)
            },
            Result::Err(e) => {
                &&& (e == RecorderError::EnvMissing <==> env.openai_api_key is None)
                &&& (e == RecorderError::EmptyTranscript ==> env.openai_api_key is Some
                    && trim_chars(transcript@).len() == 0)
                &&& (e == RecorderError::EnvMissing || e == RecorderError::EmptyTranscript)
            },
        },
{
    let api_key: String = match &env.openai_api_key {
        Some(k) => clone_string(k),
        None => {
            return Err(RecorderError::EnvMissing);
        },
    };
    let trimmed: String = trim_spaces(transcript.as_str());
    if trimmed.as_str().is_empty() {
        return Err(RecorderError::EmptyTranscript);
    }
    let model: String = match &env.openai_model {
        Some(m) => clone_string(m),
        None => {
            let mut d: String = String::new();
            d.append("gpt-4o-mini");
            proof {
                assert(d@ =~= "gpt-4o-mini"@);
            }
            d
        },
    };
    let max_tokens: u32 = parse_u32_or(&env.openai_max_tokens, 2000);
    let temperature_text: String = match &env.openai_temperature {
        Some(t) => clone_string(t),
        None => {
            let mut d: String = String::new();
            d.append("0.3");
            proof {
                assert(d@ =~= "0.3"@);
            }
            d
        },
    };
    let instruction: &'static str = language_instruction(language);
    let mut system_prompt: String = String::new();
    system_prompt.append(
        "You are an expert meeting assistant. Transform the following meeting transcript into well-structured meeting minutes. ",
    );
    system_prompt.append(instruction);
    system_prompt.append(
        "\n\nInclude the following sections:\n\n1. **Meeting Summary** - Brief overview of the meeting\n2. **Key Discussion Points** - Main topics discussed\n3. **Decisions Made** - Any decisions or conclusions reached\n4. **Action Items** - Tasks assigned with responsible parties (if mentioned)\n5. **Next Steps** - Follow-up actions or future meetings\n\nFormat the output in clear, professional language with proper headings and bullet points. Use markdown formatting including:\n- **Bold text** for emphasis\n- Bullet points for lists\n- Tables for structured data (use proper markdown table syntax with | separators)\n- Code blocks for technical content\n\nWhen presenting structured information like action items, deadlines, or data comparisons, use markdown tables with this format:\n| Column 1 | Column 2 | Column 3 |\n|----------|----------|----------|\n| Data 1   | Data 2   | Data 3   |\n\nIf specific names or roles aren't mentioned, use generic terms like \"Participant A\", \"Team Member\", etc. Maintain the same language throughout the entire document.\n\nIMPORTANT: End your response with exactly this format:\n---\nKEY_TOPICS: [comma-separated list of 3-5 topics]\nSENTIMENT: [Positive/Neutral/Negative]\nENERGY: [High/Medium/Low]",
    );
    let mut user_prompt: String = String::new();
    user_prompt.append("Please generate meeting minutes from this transcript:\n\n");
    user_prompt.append(transcript.as_str());
    proof {
        assert(system_prompt@ =~= openai_system_prompt_text(opt_view(*language)));
        assert(user_prompt@ =~= user_prompt_text(transcript@));
    }
    Ok(OpenAiPlan { api_key, model, max_tokens, temperature_text, system_prompt, user_prompt })
}

/// The request the host shell sends to the local model runtime.
#[derive(Debug)]
pub struct OllamaPlan {
    pub host: String,
    pub model: String,
    pub prompt: String,
}

/// Plans a local minutes request: a transcript that trims to nothing is
/// `EmptyTranscript`; otherwise the host and model defaults apply and the
/// single prompt joins the system text and the user text.
pub fn plan_ollama_minutes(
    transcript: &String,
    language: &Option<String>,
    env: &EnvSettings,
) -> (r: Result<OllamaPlan, RecorderError>)
    ensures
        match r {
            Result::Ok(p) => {
                &&& trim_chars(transcript@).len() > 0
                &&& p.host@ == (match env.ollama_host {
                    Some(h) => h@,
                    None => "http://localhost:11434"@,
                })
                &&& p.model@ == (match env.ollama_model {
                    Some(m) => m@,
                    None => "llama3.1:8b"@,
                })
                &&& p.prompt@ == ollama_system_prompt_text(opt_view(*language)) + "\n\n"@
                    + user_prompt_text(transcript@)
            },
            Result::Err(e) => e == RecorderError::EmptyTranscript && trim_chars(transcript@).len()
                == 0,
        },
{
    let trimmed: String = trim_spaces(transcript.as_str());
    if trimmed.as_str().is_empty() {
        return Err(RecorderError::EmptyTranscript);
    }
    let host: String = match &env.ollama_host {
        Some(h) => clone_string(h),
        None => {
            let mut d: String = String::new();
            d.append("http://localhost:11434");
            proof {
                assert(d@ =~= "http://localhost:11434"@);
            }
            d
        },
    };
    let model: String = match &env.ollama_model {
        Some(m) => clone_string(m),
        None => {
            let mut d: String = String::new();
            d.append("llama3.1:8b");
            proof {
                assert(d@ =~= "llama3.1:8b"@);
            }
            d
        },
    };
    let instruction: &'static str = language_instruction(language);
    let mut prompt: String = String::new();
    prompt.append(
        "You are an expert meeting assistant. Transform the following meeting transcript into well-structured meeting minutes. ",
    );
    prompt.append(instruction);
    prompt.append(
        "\n\nInclude the following sections:\n\n1. **Meeting Summary** - Brief overview of the meeting\n2. **Key Discussion Points** - Main topics discussed\n3. **Decisions Made** - Any decisions or conclusions reached\n4. **Action Items** - Tasks assigned with responsible parties (if mentioned)\n5. **Next Steps** - Follow-up actions or future meetings\n\nFormat the output in clear, professional language with proper headings and bullet points. If specific names or roles aren't mentioned, use generic terms like \"Participant A\", \"Team Member\", etc. Maintain the same language throughout the entire document.\n\nIMPORTANT: End your response with exactly this format:\n---\nKEY_TOPICS: [comma-separated list of 3-5 topics]\nSENTIMENT: [Positive/Neutral/Negative]\nENERGY: [High/Medium/Low]",
    );
    prompt.append("\n\n");
    prompt.append("Please generate meeting minutes from this transcript:\n\n");
    prompt.append(transcript.as_str());
    proof {
        assert(prompt@ =~= ollama_system_prompt_text(opt_view(*language)) + "\n\n"@
            + user_prompt_text(transcript@));
    }
    Ok(OllamaPlan { host, model, prompt })
}

/// Reads the remote provider's choice list: the first choice's content is
/// the minutes; an empty list is a `ProviderFailure`.
pub fn extract_first_choice(contents: &Vec<String>) -> (r: Result<String, RecorderError>)
    ensures
        match r {
            Result::Ok(text) => contents@.len() > 0 && text == contents@[0],
            Result::Err(e) => e == RecorderError::ProviderFailure && contents@.len() == 0,
        },
{
    if contents.len() == 0 {
        return Err(RecorderError::ProviderFailure);
    }
    Ok(clone_string(&contents[0]))
}

/// Classifies an HTTP status: anything outside the success range is a
/// `ProviderFailure`.
pub fn classify_status(code: u16) -> (r: Result<(), RecorderError>)
    ensures
        match r {
            Result::Ok(()) => 200 <= code <= 299,
            Result::Err(e) => e == RecorderError::ProviderFailure && !(200 <= code <= 299),
        },
{
    if code >= 200 && code <= 299 {
        Ok(())
    } else {
        Err(RecorderError::ProviderFailure)
    }
}

} // verus!
