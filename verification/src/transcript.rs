//! Transcript assembly around the speech recognizer: the short-audio gate,
//! the joining of recognizer segments into one text, the no-speech fallback,
//! and the model-file preference order. The recognizer itself is an outside
//! collaborator; everything here is a function of what it returned.

use vstd::prelude::*;
use crate::util::{trim_chars, trim_spaces, str_eq, dec_digits, fmt_u64, two_digits, fmt_2};

verus! {

/// Fewer samples than this (a tenth of a second at 16 kHz) are not worth
/// handing to the recognizer.
pub const MIN_TRANSCRIBE_SAMPLES: usize = 1600;

/// One recognizer span: centisecond timestamps and the recognized text.
#[derive(Debug)]
pub struct TranscriptionSegment {
    /// Span start in centiseconds.
    pub start: i64,
    /// Span end in centiseconds.
    pub end: i64,
    pub text: String,
}

/// A whole transcription: the kept spans and the joined text.
#[derive(Debug)]
pub struct TranscriptionResult {
    pub segments: Vec<TranscriptionSegment>,
    pub full_text: String,
}

/// The input is too short to transcribe.
pub open spec fn audio_too_short(len: int) -> bool {
    len < MIN_TRANSCRIBE_SAMPLES as int
}

/// Tests the sample count before any recognizer work.
pub fn is_audio_too_short(len: usize) -> (r: bool)
    ensures
        r == audio_too_short(len as int),
{
    len < MIN_TRANSCRIBE_SAMPLES
}

/// The fixed reply for audio under the minimum length.
pub fn short_audio_text() -> (r: String)
    ensures
        r@ == "(Audio too short for transcription)"@,
{
    let mut s: String = String::new();
    s.append("(Audio too short for transcription)");
    proof {
        assert(s@ =~= "(Audio too short for transcription)"@);
    }
    s
}

/// The fixed reply when the recognizer found nothing.
pub fn no_speech_text() -> (r: String)
    ensures
        r@ == "(No speech detected)"@,
{
    let mut s: String = String::new();
    s.append("(No speech detected)");
    proof {
        assert(s@ =~= "(No speech detected)"@);
    }
    s
}

/// The first `k` texts joined by single spaces, skipping nothing: a space
/// goes in only when something already stands to its left.
pub open spec fn joined_upto(ts: Seq<Seq<char>>, k: int) -> Seq<char>
    decreases k,
{
    if k <= 0 {
        Seq::empty()
    } else {
        let prev = joined_upto(ts, k - 1);
        prev + (if prev.len() > 0 {
            " "@
        } else {
            Seq::empty()
        }) + ts[k - 1]
    }
}

/// The trimmed texts the segment builder keeps: empties are dropped.
pub open spec fn kept_texts(raw: Seq<Seq<char>>, k: int) -> Seq<Seq<char>>
    decreases k,
{
    if k <= 0 {
        Seq::empty()
    } else {
        let prev = kept_texts(raw, k - 1);
        if trim_chars(raw[k - 1]).len() > 0 {
            prev.push(trim_chars(raw[k - 1]))
        } else {
            prev
        }
    }
}

/// The source index of each kept span among the first `k`, in input order:
/// the positions whose text does not trim to nothing.
pub open spec fn kept_sources(raw: Seq<Seq<char>>, k: int) -> Seq<int>
    decreases k,
{
    if k <= 0 {
        Seq::empty()
    } else {
        let prev = kept_sources(raw, k - 1);
        if trim_chars(raw[k - 1]).len() > 0 {
            prev.push(k - 1)
        } else {
            prev
        }
    }
}

/// Every kept-span source index points into the scanned prefix.
proof fn lemma_kept_sources_range(raw: Seq<Seq<char>>, k: int)
    requires
        k >= 0,
    ensures
        forall|t: int|
            0 <= t < kept_sources(raw, k).len() ==> 0 <= #[trigger] kept_sources(raw, k)[t] < k,
    decreases k,
{
    if k > 0 {
        lemma_kept_sources_range(raw, k - 1);
        let cur = kept_sources(raw, k);
        let prev = kept_sources(raw, k - 1);
        assert forall|t: int| 0 <= t < cur.len() implies 0 <= #[trigger] cur[t] < k by {
            if t < prev.len() {
                assert(cur[t] == prev[t]);
                assert(0 <= prev[t] < k - 1);
            }
        }
    }
}

/// Joins whole recognizer texts with single spaces, trims the result, and
/// falls back to the no-speech reply when nothing remains — the rule for
/// plain (chunk) transcription.
pub fn assemble_plain_text(texts: &Vec<String>) -> (r: String)
    ensures
        ({
            let joined = trim_chars(
                joined_upto(
                    Seq::new(texts@.len(), |i: int| texts@[i]@),
                    texts@.len() as int,
                ),
            );
            if joined.len() == 0 {
                r@ == "(No speech detected)"@
            } else {
                r@ == joined
            }
        }),
{
    let ghost views = Seq::new(texts@.len(), |i: int| texts@[i]@);
    let n: usize = texts.len();
    let mut full: String = String::new();
    let mut i: usize = 0;
    while i < n
        invariant
            n == texts@.len(),
            views == Seq::new(texts@.len(), |i: int| texts@[i]@),
            i <= n,
            full@ == joined_upto(views, i as int),
        decreases n - i,
    {
        if !full.as_str().is_empty() {
            full.append(" ");
        }
        full.append(texts[i].as_str());
        proof {
            assert(full@ =~= joined_upto(views, i as int + 1));
        }
        i = i + 1;
    }
    let trimmed: String = trim_spaces(full.as_str());
    if trimmed.as_str().is_empty() {
        no_speech_text()
    } else {
        trimmed
    }
}

/// Builds the segment-level result: each recognizer span keeps its
/// timestamps with its text trimmed, spans whose text trims to nothing are
/// dropped, the kept texts join into the full text, and an empty outcome
/// becomes the no-speech reply.
pub fn build_transcription_result(raw: &Vec<TranscriptionSegment>) -> (r: TranscriptionResult)
    ensures
        ({
            let views = Seq::new(raw@.len(), |i: int| raw@[i].text@);
            let kept = kept_texts(views, raw@.len() as int);
            &&& r.segments@.len() == kept.len()
            &&& forall|i: int|
                0 <= i < r.segments@.len() ==> (#[trigger] r.segments@[i]).text@ == kept[i]
            &&& ({
                let joined = joined_upto(kept, kept.len() as int);
                if joined.len() == 0 {
                    r.full_text@ == "(No speech detected)"@
                } else {
                    r.full_text@ == joined
                }
            })
            &&& r.segments@.len() == kept_sources(views, raw@.len() as int).len()
            &&& forall|i: int|
                0 <= i < r.segments@.len() ==> {
                    let j = kept_sources(views, raw@.len() as int)[i];
                    &&& 0 <= j < raw@.len()
                    &&& (#[trigger] r.segments@[i]).start == raw@[j].start
                    &&& r.segments@[i].end == raw@[j].end
                    &&& r.segments@[i].text@ == trim_chars(raw@[j].text@)
                }
        }),
{
    let ghost views = Seq::new(raw@.len(), |i: int| raw@[i].text@);
    let n: usize = raw.len();
    let mut segments: Vec<TranscriptionSegment> = Vec::new();
    let mut full: String = String::new();
    let mut i: usize = 0;
    while i < n
        invariant
            n == raw@.len(),
            views == Seq::new(raw@.len(), |i: int| raw@[i].text@),
            i <= n,
            segments@.len() == kept_texts(views, i as int).len(),
            forall|t: int|
                0 <= t < segments@.len() ==> (#[trigger] segments@[t]).text@ == kept_texts(
                    views,
                    i as int,
                )[t],
            segments@.len() == kept_sources(views, i as int).len(),
            forall|t: int|
                0 <= t < segments@.len() ==> {
                    let j = kept_sources(views, i as int)[t];
                    &&& (#[trigger] segments@[t]).start == raw@[j].start
                    &&& segments@[t].end == raw@[j].end
                    &&& segments@[t].text@ == trim_chars(raw@[j].text@)
                },
            full@ == joined_upto(kept_texts(views, i as int), segments@.len() as int),
        decreases n - i,
    {
        let ghost prev_kept = kept_texts(views, i as int);
        let text: String = trim_spaces(raw[i].text.as_str());
        if !text.as_str().is_empty() {
            let start: i64 = raw[i].start;
            let endv: i64 = raw[i].end;
            if !full.as_str().is_empty() {
                full.append(" ");
            }
            full.append(text.as_str());
            let ghost pre_push = segments@;
            segments.push(TranscriptionSegment { start, end: endv, text });
            proof {
                let kept = kept_texts(views, i as int + 1);
                assert(kept == prev_kept.push(trim_chars(views[i as int])));
                let sources = kept_sources(views, i as int + 1);
                let prev_sources = kept_sources(views, i as int);
                assert(sources == prev_sources.push(i as int));
                assert forall|t: int|
                    0 <= t < segments@.len() implies {
                    let j = sources[t];
                    &&& (#[trigger] segments@[t]).start == raw@[j].start
                    &&& segments@[t].end == raw@[j].end
                    &&& segments@[t].text@ == trim_chars(raw@[j].text@)
                } by {
                    if t < segments@.len() - 1 {
                        assert(segments@[t] == pre_push[t]);
                        assert(sources[t] == prev_sources[t]);
                    } else {
                        assert(sources[t] == i as int);
                        assert(segments@[t].text@ == trim_chars(views[i as int]));
                    }
                }
                assert forall|t: int|
                    0 <= t < segments@.len() implies (#[trigger] segments@[t]).text@ == kept[t] by {
                    if t < segments@.len() - 1 {
                        assert(kept[t] == prev_kept[t]);
                    }
                }
                assert(joined_upto(kept, kept.len() as int) == joined_upto(
                    kept,
                    kept.len() as int - 1,
                ) + (if joined_upto(kept, kept.len() as int - 1).len() > 0 {
                    " "@
                } else {
                    Seq::<char>::empty()
                }) + kept[kept.len() - 1]);
                assert(joined_upto_same(prev_kept, kept, prev_kept.len() as int)) by {
                    lemma_joined_upto_prefix(prev_kept, kept, prev_kept.len() as int);
                }
                assert(full@ =~= joined_upto(kept, kept.len() as int));
            }
        } else {
            proof {
                assert(kept_texts(views, i as int + 1) == prev_kept);
                assert(kept_sources(views, i as int + 1) == kept_sources(views, i as int));
            }
        }
        i = i + 1;
    }
    proof {
        lemma_kept_sources_range(views, n as int);
    }
    if full.as_str().is_empty() {
        let no_speech: String = no_speech_text();
        TranscriptionResult { segments, full_text: no_speech }
    } else {
        TranscriptionResult { segments, full_text: full }
    }
}

/// The joins of two lists agree up to `k` when the lists do.
pub open spec fn joined_upto_same(a: Seq<Seq<char>>, b: Seq<Seq<char>>, k: int) -> bool {
    joined_upto(a, k) == joined_upto(b, k)
}

proof fn lemma_joined_upto_prefix(a: Seq<Seq<char>>, b: Seq<Seq<char>>, k: int)
    requires
        0 <= k <= a.len(),
        k <= b.len(),
        forall|i: int| 0 <= i < k ==> a[i] == b[i],
    ensures
        joined_upto(a, k) == joined_upto(b, k),
    decreases k,
{
    if k > 0 {
        lemma_joined_upto_prefix(a, b, k - 1);
    }
}

/// The model files the engine will load, best first: multilingual large
/// models down to English-only baselines.
pub open spec fn model_pref(i: int) -> Seq<char> {
    if i == 0 {
        "ggml-large-v3-turbo.bin"@
    } else if i == 1 {
        "ggml-large-v3.bin"@
    } else if i == 2 {
        "ggml-medium.bin"@
    } else if i == 3 {
        "ggml-small.bin"@
    } else if i == 4 {
        "ggml-small.en.bin"@
    } else if i == 5 {
        "ggml-base.en.bin"@
    } else {
        "ggml-medium.en.bin"@
    }
}

/// `p` occurs among the file names.
pub open spec fn name_present(names: Seq<Seq<char>>, p: Seq<char>) -> bool {
    exists|j: int| 0 <= j < names.len() && names[j] == p
}

fn model_pref_str(i: usize) -> (r: &'static str)
    requires
        i < 7,
    ensures
        r@ == model_pref(i as int),
{
    if i == 0 {
        "ggml-large-v3-turbo.bin"
    } else if i == 1 {
        "ggml-large-v3.bin"
    } else if i == 2 {
        "ggml-medium.bin"
    } else if i == 3 {
        "ggml-small.bin"
    } else if i == 4 {
        "ggml-small.en.bin"
    } else if i == 5 {
        "ggml-base.en.bin"
    } else {
        "ggml-medium.en.bin"
    }
}

/// Picks the most preferred model file among those present: the first name
/// of the preference order that occurs in `names`, or nothing when none
/// does — the `ModelMissing` case.
pub fn pick_model(names: &Vec<String>) -> (r: Option<String>)
    ensures
        ({
            let views = Seq::new(names@.len(), |j: int| names@[j]@);
            match r {
                Option::Some(f) => exists|i: int|
                    0 <= i < 7 && f@ == model_pref(i) && name_present(views, #[trigger] model_pref(i))
                        && (forall|i2: int|
                        0 <= i2 < i ==> !name_present(views, #[trigger] model_pref(i2))),
                Option::None => forall|i: int|
                    0 <= i < 7 ==> !name_present(views, #[trigger] model_pref(i)),
            }
        }),
{
    let ghost views = Seq::new(names@.len(), |j: int| names@[j]@);
    let n: usize = names.len();
    let mut i: usize = 0;
    while i < 7
        invariant
            n == names@.len(),
            views == Seq::new(names@.len(), |j: int| names@[j]@),
            i <= 7,
            forall|i2: int| 0 <= i2 < i as int ==> !name_present(views, #[trigger] model_pref(i2)),
        decreases 7 - i,
    {
        let pref: &'static str = model_pref_str(i);
        let mut j: usize = 0;
        while j < n
            invariant
                n == names@.len(),
                views == Seq::new(names@.len(), |j: int| names@[j]@),
                i < 7,
                pref@ == model_pref(i as int),
                j <= n,
                forall|t: int| 0 <= t < j as int ==> views[t] != model_pref(i as int),
                forall|i2: int|
                    0 <= i2 < i as int ==> !name_present(views, #[trigger] model_pref(i2)),
            decreases n - j,
        {
            if str_eq(names[j].as_str(), pref) {
                let owned: String = pref.to_owned();
                proof {
                    assert(views[j as int] == model_pref(i as int));
                    assert(name_present(views, model_pref(i as int)));
                    assert(owned@ == model_pref(i as int));
                    let wi = i as int;
                    assert(0 <= wi < 7 && owned@ == model_pref(wi) && name_present(
                        views,
                        model_pref(wi),
                    ) && (forall|i2: int|
                        0 <= i2 < wi ==> !name_present(views, #[trigger] model_pref(i2))));
                }
                return Some(owned);
            }
            j = j + 1;
        }
        proof {
            assert forall|t: int| !(0 <= t < views.len() && views[t] == model_pref(i as int)) by {}
        }
        i = i + 1;
    }
    None
}

/// The duration text `S.FF` of a 16 kHz sample count: whole seconds and
/// truncated hundredths.
pub open spec fn duration_text(len: int) -> Seq<char> {
    dec_digits(len / 16000) + "."@ + two_digits(len % 16000 * 100 / 16000)
}

/// Formats the duration of `len` samples at 16 kHz as `S.FF`.
pub fn fmt_duration(len: usize) -> (r: String)
    requires
        len <= 0xFFFF_FFFF,
    ensures
        r@ == duration_text(len as int),
{
    let secs: u64 = (len as u64) / 16000;
    let frac: u64 = (len as u64) % 16000 * 100 / 16000;
    let mut s: String = fmt_u64(secs);
    s.append(".");
    proof {
        assert(len as int % 16000 * 100 / 16000 < 100) by (nonlinear_arith)
            requires 0 <= len as int;
    }
    let f: String = fmt_2(frac as u32);
    s.append(f.as_str());
    proof {
        assert(s@ =~= duration_text(len as int));
    }
    s
}

/// The whole-file transcription report handed back by the command surface:
/// the path, the duration and sample count, and the transcript.
pub open spec fn file_report_text(path: Seq<char>, len: int, transcript: Seq<char>) -> Seq<char> {
    "File: "@ + path + "\nDuration: "@ + duration_text(len) + "s\nSamples: "@ + dec_digits(len)
        + "\n\nTranscript:\n"@ + transcript
}

/// Builds the whole-file transcription report.
pub fn file_report(path: &String, sample_len: usize, transcript: &String) -> (r: String)
    requires
        sample_len <= 0xFFFF_FFFF,
    ensures
        r@ == file_report_text(path@, sample_len as int, transcript@),
{
    let mut s: String = String::new();
    s.append("File: ");
    s.append(path.as_str());
    s.append("\nDuration: ");
    let d: String = fmt_duration(sample_len);
    s.append(d.as_str());
    s.append("s\nSamples: ");
    let c: String = fmt_u64(sample_len as u64);
    s.append(c.as_str());
    s.append("\n\nTranscript:\n");
    s.append(transcript.as_str());
    proof {
        assert(s@ =~= file_report_text(path@, sample_len as int, transcript@));
    }
    s
}

} // verus!
