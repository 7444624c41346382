//! Export of a meeting to text, JSON, and Markdown: file naming, string
//! escaping, and the document text itself, each pinned to an exact
//! character-level specification. The host shell only writes the bytes.

use vstd::prelude::*;
use crate::errors::RecorderError;
use crate::store::{Meeting, MeetingSegment, clone_string};
use crate::time::{Timestamp, rfc3339_text, fmt_rfc3339, compact_date, compact_time, fmt_compact_date, fmt_compact_time};
use crate::util::{dec_signed, dec_digits, two_digits, fmt_i64, fmt_u64, fmt_2, str_eq};

verus! {

/// The export options handed in by the host: the format tag and the
/// section switches.
#[derive(Debug, Clone)]
pub struct ExportOptions {
    pub format: String,
    pub include_transcript: bool,
    pub include_audio: bool,
    pub include_summary: bool,
    pub include_segments: bool,
}

/// File-name sanitation: ASCII letters and digits stay, everything else —
/// spaces included — becomes an underscore.
pub open spec fn sanitize_char(c: char) -> char {
    if ('a' <= c && c <= 'z') || ('A' <= c && c <= 'Z') || ('0' <= c && c <= '9') {
        c
    } else {
        '_'
    }
}

/// The sanitized form of a title.
pub open spec fn sanitized(t: Seq<char>) -> Seq<char> {
    Seq::new(t.len(), |i: int| sanitize_char(t[i]))
}

fn sanitize_title(t: &str) -> (r: String)
    ensures
        r@ == sanitized(t@),
{
    let len: usize = t.unicode_len();
    let mut out: String = String::new();
    let mut i: usize = 0;
    while i < len
        invariant
            len == t@.len(),
            i <= len,
            out@ == sanitized(t@).subrange(0, i as int),
        decreases len - i,
    {
        let c: char = t.get_char(i);
        let keep: bool = (c >= 'a' && c <= 'z') || (c >= 'A' && c <= 'Z') || (c >= '0' && c <= '9');
        if keep {
            out = crate::util::push_char(out, c);
        } else {
            out.append("_");
            proof {
                reveal_strlit("_");
            }
        }
        proof {
            assert(out@ =~= sanitized(t@).subrange(0, i as int + 1));
        }
        i = i + 1;
    }
    proof {
        assert(sanitized(t@).subrange(0, len as int) =~= sanitized(t@));
    }
    out
}

/// The export file name: the sanitized title, the compact timestamp, and
/// the format extension.
pub open spec fn export_file_name_text(title: Seq<char>, ts: Timestamp, fmt: Seq<char>) -> Seq<
    char,
> {
    sanitized(title) + "_"@ + compact_date(ts) + "_"@ + compact_time(ts) + "."@ + fmt
}

/// Builds the export file name `<sanitized title>_<YYYYMMDD_HHMMSS>.<fmt>`.
pub fn export_file_name(title: &String, ts: &Timestamp, fmt: &String) -> (r: String)
    requires
        ts.wf(),
    ensures
        r@ == export_file_name_text(title@, *ts, fmt@),
{
    let mut s: String = sanitize_title(title.as_str());
    s.append("_");
    let d: String = fmt_compact_date(ts);
    s.append(d.as_str());
    s.append("_");
    let t: String = fmt_compact_time(ts);
    s.append(t.as_str());
    s.append(".");
    s.append(fmt.as_str());
    proof {
        assert(s@ =~= export_file_name_text(title@, *ts, fmt@));
    }
    s
}

/// Centisecond times rendered as seconds with two decimals.
pub open spec fn centis_text(n: int) -> Seq<char> {
    if n >= 0 {
        dec_digits(n / 100) + "."@ + two_digits(n % 100)
    } else {
        "-"@ + dec_digits((-n) / 100) + "."@ + two_digits((-n) % 100)
    }
}

/// Formats centiseconds as `S.FF`.
pub fn fmt_centis(n: i64) -> (r: String)
    requires
        -0x1_0000_0000_0000 <= n <= 0x1_0000_0000_0000,
    ensures
        r@ == centis_text(n as int),
{
    if n >= 0 {
        let mut s: String = fmt_u64((n as u64) / 100);
        s.append(".");
        let f: String = fmt_2(((n as u64) % 100) as u32);
        s.append(f.as_str());
        proof {
            assert(s@ =~= centis_text(n as int));
        }
        s
    } else {
        let m: u64 = (-n) as u64;
        let mut s: String = String::new();
        s.append("-");
        let w: String = fmt_u64(m / 100);
        s.append(w.as_str());
        s.append(".");
        let f: String = fmt_2((m % 100) as u32);
        s.append(f.as_str());
        proof {
            assert(s@ =~= centis_text(n as int));
        }
        s
    }
}

/// The Markdown heading block of a meeting.
pub open spec fn md_header_lines(m: Meeting) -> Seq<Seq<char>> {
    seq![
        "# "@ + m.title@,
        Seq::<char>::empty(),
        "**Date:** "@ + rfc3339_text(m.created_at),
        "**Duration:** "@ + dec_signed(
            match m.duration_seconds {
                Some(d) => d as int,
                None => 0,
            },
        ) + " seconds"@,
    ] + (match m.language {
        Some(l) => seq!["**Language:** "@ + l@],
        None => Seq::<Seq<char>>::empty(),
    }) + (match m.ai_provider {
        Some(p) => seq!["**AI Provider:** "@ + p@],
        None => Seq::<Seq<char>>::empty(),
    }) + seq![Seq::<char>::empty(), "---"@, Seq::<char>::empty()]
}

/// The Markdown summary section, when asked for and present.
pub open spec fn md_summary_lines(m: Meeting, wanted: bool) -> Seq<Seq<char>> {
    if wanted && m.meeting_minutes is Some {
        seq!["## AI Meeting Summary"@, Seq::<char>::empty(), (m.meeting_minutes->0)@, Seq::<
            char,
        >::empty()]
    } else {
        Seq::empty()
    }
}

/// The Markdown transcript section, when asked for and present.
pub open spec fn md_transcript_lines(m: Meeting, wanted: bool) -> Seq<Seq<char>> {
    if wanted && m.transcript is Some {
        seq!["## Full Transcript"@, Seq::<char>::empty(), (m.transcript->0)@, Seq::<
            char,
        >::empty()]
    } else {
        Seq::empty()
    }
}

/// The Markdown lines of the first `k` segments: a numbered heading, the
/// time span, the text verbatim, a blank line.
pub open spec fn md_segment_lines(segs: Seq<MeetingSegment>, k: int) -> Seq<Seq<char>>
    decreases k,
{
    if k <= 0 {
        Seq::empty()
    } else {
        md_segment_lines(segs, k - 1) + seq![
            "### Segment "@ + dec_digits(k),
            "**Time:** "@ + centis_text(segs[k - 1].start_time as int) + "s - "@ + centis_text(
                segs[k - 1].end_time as int,
            ) + "s"@,
            segs[k - 1].text@,
            Seq::<char>::empty(),
        ]
    }
}

/// The Markdown segments section, when asked for and non-empty.
pub open spec fn md_segments_section(segs: Seq<MeetingSegment>, wanted: bool) -> Seq<Seq<char>> {
    if wanted && segs.len() > 0 {
        seq!["## Transcript Segments"@, Seq::<char>::empty()] + md_segment_lines(
            segs,
            segs.len() as int,
        )
    } else {
        Seq::empty()
    }
}

/// The Markdown audio section, when asked for and present.
pub open spec fn md_audio_lines(m: Meeting, wanted: bool) -> Seq<Seq<char>> {
    if wanted && m.audio_file_path is Some {
        seq!["## Audio File"@, Seq::<char>::empty(), "**File Path:** `"@ + (m.audio_file_path->0)@
            + "`"@]
    } else {
        Seq::empty()
    }
}

/// The whole Markdown document, as lines.
pub open spec fn md_lines(m: Meeting, segs: Seq<MeetingSegment>, o: ExportOptions) -> Seq<
    Seq<char>,
> {
    md_header_lines(m) + md_summary_lines(m, o.include_summary) + md_transcript_lines(
        m,
        o.include_transcript,
    ) + md_segments_section(segs, o.include_segments) + md_audio_lines(m, o.include_audio)
}

/// Markdown keeps every segment's text verbatim: with segments included,
/// each segment's text is one whole line of the export.
pub proof fn lemma_markdown_includes_segment_texts(
    m: Meeting,
    segs: Seq<MeetingSegment>,
    o: ExportOptions,
    i: int,
)
    requires
        o.include_segments,
        0 <= i < segs.len(),
    ensures
        md_lines(m, segs, o).contains(segs[i].text@),
{
    lemma_md_segment_lines_has_text(segs, segs.len() as int, i);
    let section = md_segments_section(segs, true);
    let inner = md_segment_lines(segs, segs.len() as int);
    let j = choose|j: int| 0 <= j < inner.len() && inner[j] == segs[i].text@;
    assert(section[2 + j] == segs[i].text@);
    let all = md_lines(m, segs, o);
    let base = md_header_lines(m).len() as int + md_summary_lines(m, o.include_summary).len() as int
        + md_transcript_lines(m, o.include_transcript).len() as int;
    assert(all[base + 2 + j] == segs[i].text@);
}

proof fn lemma_md_segment_lines_has_text(segs: Seq<MeetingSegment>, k: int, i: int)
    requires
        0 <= i < k <= segs.len(),
    ensures
        exists|j: int|
            0 <= j < md_segment_lines(segs, k).len() && md_segment_lines(segs, k)[j] == segs[i].text@,
    decreases k,
{
    if i == k - 1 {
        let lines = md_segment_lines(segs, k);
        let prev = md_segment_lines(segs, k - 1);
        assert(lines[prev.len() as int + 2] == segs[k - 1].text@);
    } else {
        lemma_md_segment_lines_has_text(segs, k - 1, i);
        let prev = md_segment_lines(segs, k - 1);
        let j = choose|j: int| 0 <= j < prev.len() && prev[j] == segs[i].text@;
        assert(md_segment_lines(segs, k)[j] == segs[i].text@);
    }
}

/// Builds the Markdown export.
#[verifier::rlimit(60)]
pub fn export_as_markdown(m: &Meeting, segs: &Vec<MeetingSegment>, o: &ExportOptions) -> (r: Vec<
    String,
>)
    requires
        m.created_at.wf(),
        forall|i: int|
            0 <= i < segs@.len() ==> 0 <= (#[trigger] segs@[i]).start_time
                <= 0x1_0000_0000_0000 && 0 <= segs@[i].end_time <= 0x1_0000_0000_0000,
        match m.duration_seconds {
            Some(d) => -0x800_0000_0000 <= d <= 0x800_0000_0000,
            None => true,
        },
    ensures
        r@.len() == md_lines(*m, segs@, *o).len(),
        forall|i: int|
            0 <= i < r@.len() ==> (#[trigger] r@[i])@ == md_lines(*m, segs@, *o)[i],
{
    let ghost spec_lines = md_lines(*m, segs@, *o);
    let mut out: Vec<String> = Vec::new();
    let mut line: String = String::new();
    line.append("# ");
    line.append(m.title.as_str());
    out.push(line);
    out.push(String::new());
    let mut line: String = String::new();
    line.append("**Date:** ");
    let d: String = fmt_rfc3339(&m.created_at);
    line.append(d.as_str());
    out.push(line);
    let mut line: String = String::new();
    line.append("**Duration:** ");
    let dur: i64 = match m.duration_seconds {
        Some(d) => d,
        None => 0,
    };
    let ds: String = fmt_i64(dur);
    line.append(ds.as_str());
    line.append(" seconds");
    out.push(line);
    if let Some(l) = &m.language {
        let mut line: String = String::new();
        line.append("**Language:** ");
        line.append(l.as_str());
        out.push(line);
    }
    if let Some(p) = &m.ai_provider {
        let mut line: String = String::new();
        line.append("**AI Provider:** ");
        line.append(p.as_str());
        out.push(line);
    }
    out.push(String::new());
    let mut line: String = String::new();
    line.append("---");
    out.push(line);
    out.push(String::new());
    proof {
        assert forall|i: int|
            0 <= i < out@.len() implies (#[trigger] out@[i])@ == md_header_lines(*m)[i] by {
            assert(out@[i]@ =~= md_header_lines(*m)[i]);
        }
        assert(out@.len() == md_header_lines(*m).len());
    }
    let ghost done = md_header_lines(*m);
    if o.include_summary {
        if let Some(mm) = &m.meeting_minutes {
            let mut line: String = String::new();
            line.append("## AI Meeting Summary");
            out.push(line);
            out.push(String::new());
            out.push(clone_string(mm));
            out.push(String::new());
        }
    }
    proof {
        let sect = md_summary_lines(*m, o.include_summary);
        assert(out@.len() == done.len() + sect.len());
        assert forall|i: int|
            0 <= i < out@.len() implies (#[trigger] out@[i])@ == (done + sect)[i] by {
            if i >= done.len() {
                assert(out@[i]@ =~= sect[i - done.len()]);
            }
        }
    }
    let ghost done = done + md_summary_lines(*m, o.include_summary);
    if o.include_transcript {
        if let Some(t) = &m.transcript {
            let mut line: String = String::new();
            line.append("## Full Transcript");
            out.push(line);
            out.push(String::new());
            out.push(clone_string(t));
            out.push(String::new());
        }
    }
    proof {
        let sect = md_transcript_lines(*m, o.include_transcript);
        assert(out@.len() == done.len() + sect.len());
        assert forall|i: int|
            0 <= i < out@.len() implies (#[trigger] out@[i])@ == (done + sect)[i] by {
            if i >= done.len() {
                assert(out@[i]@ =~= sect[i - done.len()]);
            }
        }
    }
    let ghost done = done + md_transcript_lines(*m, o.include_transcript);
    if o.include_segments && segs.len() > 0 {
        let mut line: String = String::new();
        line.append("## Transcript Segments");
        out.push(line);
        out.push(String::new());
        proof {
            assert(out@.len() == done.len() + 2);
        }
        let n: usize = segs.len();
        let mut k: usize = 0;
        while k < n
            invariant
                n == segs@.len(),
                forall|i: int|
                    0 <= i < segs@.len() ==> 0 <= (#[trigger] segs@[i]).start_time
                        <= 0x1_0000_0000_0000 && 0 <= segs@[i].end_time <= 0x1_0000_0000_0000,
                k <= n,
                out@.len() == done.len() + 2 + md_segment_lines(segs@, k as int).len(),
                forall|i: int|
                    0 <= i < done.len() + 2 ==> (#[trigger] out@[i])@ == (done + seq![
                        "## Transcript Segments"@,
                        Seq::<char>::empty(),
                    ])[i],
                forall|i: int|
                    done.len() + 2 <= i < out@.len() ==> (#[trigger] out@[i])@ == md_segment_lines(
                        segs@,
                        k as int,
                    )[i - done.len() - 2],
            decreases n - k,
        {
            let mut line: String = String::new();
            line.append("### Segment ");
            let num: String = fmt_u64((k as u64) + 1);
            line.append(num.as_str());
            out.push(line);
            let mut line: String = String::new();
            line.append("**Time:** ");
            let st: String = fmt_centis(segs[k].start_time);
            line.append(st.as_str());
            line.append("s - ");
            let en: String = fmt_centis(segs[k].end_time);
            line.append(en.as_str());
            line.append("s");
            out.push(line);
            out.push(clone_string(&segs[k].text));
            out.push(String::new());
            proof {
                let lines_now = md_segment_lines(segs@, k as int + 1);
                let prev = md_segment_lines(segs@, k as int);
                assert(lines_now == prev + seq![
                    "### Segment "@ + dec_digits(k as int + 1),
                    "**Time:** "@ + centis_text(segs@[k as int].start_time as int) + "s - "@
                        + centis_text(segs@[k as int].end_time as int) + "s"@,
                    segs@[k as int].text@,
                    Seq::<char>::empty(),
                ]);
                assert forall|i: int|
                    done.len() + 2 <= i < out@.len() implies (#[trigger] out@[i])@ == lines_now[i
                    - done.len() - 2] by {
                    if i < out@.len() - 4 {
                    } else {
                        assert(out@[i]@ =~= lines_now[i - done.len() - 2]);
                    }
                }
            }
            k = k + 1;
        }
    }
    proof {
        let sect = md_segments_section(segs@, o.include_segments);
        assert(out@.len() == done.len() + sect.len());
        assert forall|i: int|
            0 <= i < out@.len() implies (#[trigger] out@[i])@ == (done + sect)[i] by {}
    }
    let ghost done = done + md_segments_section(segs@, o.include_segments);
    if o.include_audio {
        if let Some(p) = &m.audio_file_path {
            let mut line: String = String::new();
            line.append("## Audio File");
            out.push(line);
            out.push(String::new());
            let mut line: String = String::new();
            line.append("**File Path:** `");
            line.append(p.as_str());
            line.append("`");
            out.push(line);
        }
    }
    proof {
        let sect = md_audio_lines(*m, o.include_audio);
        assert(out@.len() == done.len() + sect.len());
        assert forall|i: int|
            0 <= i < out@.len() implies (#[trigger] out@[i])@ == (done + sect)[i] by {
            if i >= done.len() {
                assert(out@[i]@ =~= sect[i - done.len()]);
            }
        }
        assert(done + sect == spec_lines);
    }
    out
}

/// Joins lines with newline terminators: every line, `\n` after each.
pub open spec fn joined_lines(lines: Seq<Seq<char>>, k: int) -> Seq<char>
    decreases k,
{
    if k <= 0 {
        Seq::empty()
    } else {
        joined_lines(lines, k - 1) + lines[k - 1] + "\n"@
    }
}

/// Joins document lines into one text, a newline after each line.
pub fn join_lines(lines: &Vec<String>) -> (r: String)
    ensures
        r@ == joined_lines(
            Seq::new(lines@.len(), |i: int| lines@[i]@),
            lines@.len() as int,
        ),
{
    let ghost views = Seq::new(lines@.len(), |i: int| lines@[i]@);
    let n: usize = lines.len();
    let mut out: String = String::new();
    let mut i: usize = 0;
    while i < n
        invariant
            n == lines@.len(),
            views == Seq::new(lines@.len(), |i: int| lines@[i]@),
            i <= n,
            out@ == joined_lines(views, i as int),
        decreases n - i,
    {
        out.append(lines[i].as_str());
        out.append("\n");
        proof {
            assert(out@ =~= joined_lines(views, i as int + 1));
        }
        i = i + 1;
    }
    out
}

/// Chooses the writer for a format tag; anything but `txt`, `json`, and
/// `md` is `UnsupportedFormat`.
pub fn check_export_format(fmt: &String) -> (r: Result<(), RecorderError>)
    ensures
        match r {
            Result::Ok(()) => fmt@ == "txt"@ || fmt@ == "json"@ || fmt@ == "md"@,
            Result::Err(e) => e == RecorderError::UnsupportedFormat && fmt@ != "txt"@ && fmt@
                != "json"@ && fmt@ != "md"@,
        },
{
    if str_eq(fmt.as_str(), "txt") || str_eq(fmt.as_str(), "json") || str_eq(fmt.as_str(), "md") {
        Ok(())
    } else {
        Err(RecorderError::UnsupportedFormat)
    }
}

/// The plain-text heading block.
pub open spec fn txt_header_lines(m: Meeting) -> Seq<Seq<char>> {
    seq![
        "MEETING EXPORT"@,
        "=============="@,
        Seq::<char>::empty(),
        "Title: "@ + m.title@,
        "Date: "@ + rfc3339_text(m.created_at),
        "Duration: "@ + dec_signed(
            match m.duration_seconds {
                Some(d) => d as int,
                None => 0,
            },
        ) + " seconds"@,
    ] + (match m.language {
        Some(l) => seq!["Language: "@ + l@],
        None => Seq::<Seq<char>>::empty(),
    }) + (match m.ai_provider {
        Some(p) => seq!["AI Provider: "@ + p@],
        None => Seq::<Seq<char>>::empty(),
    }) + seq![Seq::<char>::empty()]
}

/// The plain-text summary section.
pub open spec fn txt_summary_lines(m: Meeting, wanted: bool) -> Seq<Seq<char>> {
    if wanted && m.meeting_minutes is Some {
        seq!["AI MEETING SUMMARY"@, "=================="@, (m.meeting_minutes->0)@, Seq::<
            char,
        >::empty()]
    } else {
        Seq::empty()
    }
}

/// The plain-text transcript section.
pub open spec fn txt_transcript_lines(m: Meeting, wanted: bool) -> Seq<Seq<char>> {
    if wanted && m.transcript is Some {
        seq!["FULL TRANSCRIPT"@, "==============="@, (m.transcript->0)@, Seq::<char>::empty()]
    } else {
        Seq::empty()
    }
}

/// The plain-text lines of the first `k` segments.
pub open spec fn txt_segment_lines(segs: Seq<MeetingSegment>, k: int) -> Seq<Seq<char>>
    decreases k,
{
    if k <= 0 {
        Seq::empty()
    } else {
        txt_segment_lines(segs, k - 1) + seq![
            "["@ + dec_digits(k) + "] "@ + centis_text(segs[k - 1].start_time as int) + "s - "@
                + centis_text(segs[k - 1].end_time as int) + "s: "@ + segs[k - 1].text@,
        ]
    }
}

/// The plain-text segments section.
pub open spec fn txt_segments_section(segs: Seq<MeetingSegment>, wanted: bool) -> Seq<Seq<char>> {
    if wanted && segs.len() > 0 {
        seq!["TRANSCRIPT SEGMENTS"@, "==================="@] + txt_segment_lines(
            segs,
            segs.len() as int,
        ) + seq![Seq::<char>::empty()]
    } else {
        Seq::empty()
    }
}

/// The plain-text audio section.
pub open spec fn txt_audio_lines(m: Meeting, wanted: bool) -> Seq<Seq<char>> {
    if wanted && m.audio_file_path is Some {
        seq!["AUDIO FILE"@, "=========="@, "File: "@ + (m.audio_file_path->0)@]
    } else {
        Seq::empty()
    }
}

/// The whole plain-text document, as lines.
pub open spec fn txt_lines(m: Meeting, segs: Seq<MeetingSegment>, o: ExportOptions) -> Seq<
    Seq<char>,
> {
    txt_header_lines(m) + txt_summary_lines(m, o.include_summary) + txt_transcript_lines(
        m,
        o.include_transcript,
    ) + txt_segments_section(segs, o.include_segments) + txt_audio_lines(m, o.include_audio)
}

/// Builds the plain-text export.
#[verifier::rlimit(60)]
pub fn export_as_txt(m: &Meeting, segs: &Vec<MeetingSegment>, o: &ExportOptions) -> (r: Vec<
    String,
>)
    requires
        m.created_at.wf(),
        forall|i: int|
            0 <= i < segs@.len() ==> 0 <= (#[trigger] segs@[i]).start_time
                <= 0x1_0000_0000_0000 && 0 <= segs@[i].end_time <= 0x1_0000_0000_0000,
        match m.duration_seconds {
            Some(d) => -0x800_0000_0000 <= d <= 0x800_0000_0000,
            None => true,
        },
    ensures
        r@.len() == txt_lines(*m, segs@, *o).len(),
        forall|i: int|
            0 <= i < r@.len() ==> (#[trigger] r@[i])@ == txt_lines(*m, segs@, *o)[i],
{
    let mut out: Vec<String> = Vec::new();
    let mut line: String = String::new();
    line.append("MEETING EXPORT");
    out.push(line);
    let mut line: String = String::new();
    line.append("==============");
    out.push(line);
    out.push(String::new());
    let mut line: String = String::new();
    line.append("Title: ");
    line.append(m.title.as_str());
    out.push(line);
    let mut line: String = String::new();
    line.append("Date: ");
    let d: String = fmt_rfc3339(&m.created_at);
    line.append(d.as_str());
    out.push(line);
    let mut line: String = String::new();
    line.append("Duration: ");
    let dur: i64 = match m.duration_seconds {
        Some(d) => d,
        None => 0,
    };
    let ds: String = fmt_i64(dur);
    line.append(ds.as_str());
    line.append(" seconds");
    out.push(line);
    if let Some(l) = &m.language {
        let mut line: String = String::new();
        line.append("Language: ");
        line.append(l.as_str());
        out.push(line);
    }
    if let Some(p) = &m.ai_provider {
        let mut line: String = String::new();
        line.append("AI Provider: ");
        line.append(p.as_str());
        out.push(line);
    }
    out.push(String::new());
    proof {
        assert forall|i: int|
            0 <= i < out@.len() implies (#[trigger] out@[i])@ == txt_header_lines(*m)[i] by {
            assert(out@[i]@ =~= txt_header_lines(*m)[i]);
        }
        assert(out@.len() == txt_header_lines(*m).len());
    }
    let ghost done = txt_header_lines(*m);
    if o.include_summary {
        if let Some(mm) = &m.meeting_minutes {
            let mut line: String = String::new();
            line.append("AI MEETING SUMMARY");
            out.push(line);
            let mut line: String = String::new();
            line.append("==================");
            out.push(line);
            out.push(clone_string(mm));
            out.push(String::new());
        }
    }
    proof {
        let sect = txt_summary_lines(*m, o.include_summary);
        assert(out@.len() == done.len() + sect.len());
        assert forall|i: int|
            0 <= i < out@.len() implies (#[trigger] out@[i])@ == (done + sect)[i] by {
            if i >= done.len() {
                assert(out@[i]@ =~= sect[i - done.len()]);
            }
        }
    }
    let ghost done = done + txt_summary_lines(*m, o.include_summary);
    if o.include_transcript {
        if let Some(t) = &m.transcript {
            let mut line: String = String::new();
            line.append("FULL TRANSCRIPT");
            out.push(line);
            let mut line: String = String::new();
            line.append("===============");
            out.push(line);
            out.push(clone_string(t));
            out.push(String::new());
        }
    }
    proof {
        let sect = txt_transcript_lines(*m, o.include_transcript);
        assert(out@.len() == done.len() + sect.len());
        assert forall|i: int|
            0 <= i < out@.len() implies (#[trigger] out@[i])@ == (done + sect)[i] by {
            if i >= done.len() {
                assert(out@[i]@ =~= sect[i - done.len()]);
            }
        }
    }
    let ghost done = done + txt_transcript_lines(*m, o.include_transcript);
    if o.include_segments && segs.len() > 0 {
        let mut line: String = String::new();
        line.append("TRANSCRIPT SEGMENTS");
        out.push(line);
        let mut line: String = String::new();
        line.append("===================");
        out.push(line);
        proof {
            assert(out@.len() == done.len() + 2);
        }
        let n: usize = segs.len();
        let mut k: usize = 0;
        while k < n
            invariant
                n == segs@.len(),
                forall|i: int|
                    0 <= i < segs@.len() ==> 0 <= (#[trigger] segs@[i]).start_time
                        <= 0x1_0000_0000_0000 && 0 <= segs@[i].end_time <= 0x1_0000_0000_0000,
                k <= n,
                out@.len() == done.len() + 2 + txt_segment_lines(segs@, k as int).len(),
                forall|i: int|
                    0 <= i < done.len() + 2 ==> (#[trigger] out@[i])@ == (done + seq![
                        "TRANSCRIPT SEGMENTS"@,
                        "==================="@,
                    ])[i],
                forall|i: int|
                    done.len() + 2 <= i < out@.len() ==> (#[trigger] out@[i])@ == txt_segment_lines(
                        segs@,
                        k as int,
                    )[i - done.len() - 2],
            decreases n - k,
        {
            let mut line: String = String::new();
            line.append("[");
            let num: String = fmt_u64((k as u64) + 1);
            line.append(num.as_str());
            line.append("] ");
            let st: String = fmt_centis(segs[k].start_time);
            line.append(st.as_str());
            line.append("s - ");
            let en: String = fmt_centis(segs[k].end_time);
            line.append(en.as_str());
            line.append("s: ");
            line.append(segs[k].text.as_str());
            out.push(line);
            proof {
                let lines_now = txt_segment_lines(segs@, k as int + 1);
                assert forall|i: int|
                    done.len() + 2 <= i < out@.len() implies (#[trigger] out@[i])@ == lines_now[i
                    - done.len() - 2] by {
                    if i == out@.len() - 1 {
                        assert(out@[i]@ =~= lines_now[i - done.len() - 2]);
                    }
                }
            }
            k = k + 1;
        }
        out.push(String::new());
    }
    proof {
        let sect = txt_segments_section(segs@, o.include_segments);
        assert(out@.len() == done.len() + sect.len());
        assert forall|i: int|
            0 <= i < out@.len() implies (#[trigger] out@[i])@ == (done + sect)[i] by {}
    }
    let ghost done = done + txt_segments_section(segs@, o.include_segments);
    if o.include_audio {
        if let Some(p) = &m.audio_file_path {
            let mut line: String = String::new();
            line.append("AUDIO FILE");
            out.push(line);
            let mut line: String = String::new();
            line.append("==========");
            out.push(line);
            let mut line: String = String::new();
            line.append("File: ");
            line.append(p.as_str());
            out.push(line);
        }
    }
    proof {
        let sect = txt_audio_lines(*m, o.include_audio);
        assert(out@.len() == done.len() + sect.len());
        assert forall|i: int|
            0 <= i < out@.len() implies (#[trigger] out@[i])@ == (done + sect)[i] by {
            if i >= done.len() {
                assert(out@[i]@ =~= sect[i - done.len()]);
            }
        }
        assert(done + sect == txt_lines(*m, segs@, *o));
    }
    out
}

/// The escape of one character inside a JSON string literal.
pub open spec fn esc_char(c: char) -> Seq<char> {
    if c == '"' {
        seq!['\\', '"']
    } else if c == '\\' {
        seq!['\\', '\\']
    } else if c == '\n' {
        seq!['\\', 'n']
    } else if c == '\r' {
        seq!['\\', 'r']
    } else if c == '\t' {
        seq!['\\', 't']
    } else if (c as u32) < 32 {
        seq!['\\', 'u', '0', '0', hex_digit((c as u32) as int / 16), hex_digit(
            (c as u32) as int % 16,
        )]
    } else {
        seq![c]
    }
}

/// One lowercase hexadecimal digit.
pub open spec fn hex_digit(d: int) -> char {
    if d == 0 {
        '0'
    } else if d == 1 {
        '1'
    } else if d == 2 {
        '2'
    } else if d == 3 {
        '3'
    } else if d == 4 {
        '4'
    } else if d == 5 {
        '5'
    } else if d == 6 {
        '6'
    } else if d == 7 {
        '7'
    } else if d == 8 {
        '8'
    } else if d == 9 {
        '9'
    } else if d == 10 {
        'a'
    } else if d == 11 {
        'b'
    } else if d == 12 {
        'c'
    } else if d == 13 {
        'd'
    } else if d == 14 {
        'e'
    } else {
        'f'
    }
}

/// The JSON escape of a whole string.
pub open spec fn json_escaped(s: Seq<char>) -> Seq<char>
    decreases s.len(),
{
    if s.len() == 0 {
        Seq::empty()
    } else {
        json_escaped(s.drop_last()) + esc_char(s.last())
    }
}

/// A JSON string literal of `s`.
pub open spec fn json_string(s: Seq<char>) -> Seq<char> {
    seq!['"'] + json_escaped(s) + seq!['"']
}

/// A JSON string literal or `null`.
pub open spec fn json_opt_string(o: Option<String>) -> Seq<char> {
    match o {
        Some(s) => json_string(s@),
        None => "null"@,
    }
}

/// A JSON number or `null`.
pub open spec fn json_opt_int(o: Option<i64>) -> Seq<char> {
    match o {
        Some(d) => dec_signed(d as int),
        None => "null"@,
    }
}

/// `true` or `false`.
pub open spec fn json_bool(b: bool) -> Seq<char> {
    if b {
        "true"@
    } else {
        "false"@
    }
}

fn hex_digit_str(d: u32) -> (r: &'static str)
    requires
        d < 16,
    ensures
        r@ =~= seq![hex_digit(d as int)],
{
    let r: &'static str = if d == 0 {
        "0"
    } else if d == 1 {
        "1"
    } else if d == 2 {
        "2"
    } else if d == 3 {
        "3"
    } else if d == 4 {
        "4"
    } else if d == 5 {
        "5"
    } else if d == 6 {
        "6"
    } else if d == 7 {
        "7"
    } else if d == 8 {
        "8"
    } else if d == 9 {
        "9"
    } else if d == 10 {
        "a"
    } else if d == 11 {
        "b"
    } else if d == 12 {
        "c"
    } else if d == 13 {
        "d"
    } else if d == 14 {
        "e"
    } else {
        "f"
    };
    proof {
        reveal_strlit("0");
        reveal_strlit("1");
        reveal_strlit("2");
        reveal_strlit("3");
        reveal_strlit("4");
        reveal_strlit("5");
        reveal_strlit("6");
        reveal_strlit("7");
        reveal_strlit("8");
        reveal_strlit("9");
        reveal_strlit("a");
        reveal_strlit("b");
        reveal_strlit("c");
        reveal_strlit("d");
        reveal_strlit("e");
        reveal_strlit("f");
    }
    r
}

/// Appends the JSON string literal of `s`.
fn append_json_string(out: String, s: &str) -> (r: String)
    ensures
        r@ == out@ + json_string(s@),
{
    let mut acc: String = out;
    acc.append("\"");
    let ghost base = acc@;
    let len: usize = s.unicode_len();
    let mut i: usize = 0;
    while i < len
        invariant
            len == s@.len(),
            i <= len,
            acc@ == base + json_escaped(s@.subrange(0, i as int)),
        decreases len - i,
    {
        let c: char = s.get_char(i);
        if c == '"' {
            acc.append("\\\"");
        } else if c == '\\' {
            acc.append("\\\\");
        } else if c == '\n' {
            acc.append("\\n");
        } else if c == '\r' {
            acc.append("\\r");
        } else if c == '\t' {
            acc.append("\\t");
        } else if (c as u32) < 32 {
            acc.append("\\u00");
            let code: u32 = c as u32;
            acc.append(hex_digit_str(code / 16));
            acc.append(hex_digit_str(code % 16));
        } else {
            acc = crate::util::push_char(acc, c);
        }
        proof {
            reveal_strlit("\\\"");
            reveal_strlit("\\\\");
            reveal_strlit("\\n");
            reveal_strlit("\\r");
            reveal_strlit("\\t");
            reveal_strlit("\\u00");
            assert(s@.subrange(0, i as int + 1).drop_last() =~= s@.subrange(0, i as int));
            assert(s@.subrange(0, i as int + 1).last() == s@[i as int]);
            assert(acc@ =~= base + json_escaped(s@.subrange(0, i as int + 1)));
        }
        i = i + 1;
    }
    acc.append("\"");
    proof {
        reveal_strlit("\"");
        assert(s@.subrange(0, len as int) =~= s@);
        assert(acc@ =~= out@ + json_string(s@));
    }
    acc
}

/// Appends a JSON string literal or `null`.
fn append_json_opt_string(out: String, o: &Option<String>) -> (r: String)
    ensures
        r@ == out@ + json_opt_string(*o),
{
    match o {
        Some(s) => append_json_string(out, s.as_str()),
        None => {
            let mut acc: String = out;
            acc.append("null");
            acc
        },
    }
}

/// The JSON object of one segment; times are seconds with two decimals and
/// the confidence is thousandths over one thousand, or `null`.
pub open spec fn json_segment(seg: MeetingSegment) -> Seq<char> {
    "{\"id\":"@ + json_string(seg.id@) + ",\"meeting_id\":"@ + json_string(seg.meeting_id@)
        + ",\"start_time\":"@ + centis_text(seg.start_time as int) + ",\"end_time\":"@
        + centis_text(seg.end_time as int) + ",\"text\":"@ + json_string(seg.text@)
        + ",\"confidence\":"@ + json_opt_int(seg.confidence) + "}"@
}

/// The JSON array of the first `k` segments.
pub open spec fn json_segments(segs: Seq<MeetingSegment>, k: int) -> Seq<char>
    decreases k,
{
    if k <= 0 {
        Seq::empty()
    } else if k == 1 {
        json_segment(segs[0])
    } else {
        json_segments(segs, k - 1) + ","@ + json_segment(segs[k - 1])
    }
}

/// The fixed head of the JSON export: the meeting object, the export
/// stamp, and the option switches.
pub open spec fn json_head_text(m: Meeting, o: ExportOptions, now: Timestamp) -> Seq<char> {
    "{\"meeting\":{\"id\":"@ + json_string(m.id@) + ",\"title\":"@ + json_string(m.title@)
        + ",\"created_at\":"@ + json_string(rfc3339_text(m.created_at)) + ",\"updated_at\":"@
        + json_string(rfc3339_text(m.updated_at)) + ",\"duration_seconds\":"@ + json_opt_int(
        m.duration_seconds,
    ) + ",\"language\":"@ + json_opt_string(m.language) + ",\"ai_provider\":"@ + json_opt_string(
        m.ai_provider,
    ) + "},\"export_timestamp\":"@ + json_string(rfc3339_text(now)) + ",\"export_options\":{\"format\":"@
        + json_string(o.format@) + ",\"include_transcript\":"@ + json_bool(o.include_transcript)
        + ",\"include_audio\":"@ + json_bool(o.include_audio) + ",\"include_summary\":"@
        + json_bool(o.include_summary) + ",\"include_segments\":"@ + json_bool(o.include_segments)
        + "}"@
}

/// The whole JSON export: the meeting object, the export stamp and
/// options, and the sections the options ask for.
pub open spec fn json_text(m: Meeting, segs: Seq<MeetingSegment>, o: ExportOptions, now: Timestamp) -> Seq<char> {
    json_head_text(m, o, now) + (if o.include_transcript {
        ",\"transcript\":"@ + json_opt_string(m.transcript)
    } else {
        Seq::<char>::empty()
    }) + (if o.include_summary {
        ",\"meeting_minutes\":"@ + json_opt_string(m.meeting_minutes)
    } else {
        Seq::<char>::empty()
    }) + (if o.include_audio {
        ",\"audio_file_path\":"@ + json_opt_string(m.audio_file_path)
    } else {
        Seq::<char>::empty()
    }) + (if o.include_segments && segs.len() > 0 {
        ",\"segments\":["@ + json_segments(segs, segs.len() as int) + "]"@
    } else {
        Seq::<char>::empty()
    }) + "}"@
}


/// Builds the fixed head of the JSON export.
#[verifier::rlimit(60)]
fn json_head(m: &Meeting, o: &ExportOptions, now: &Timestamp) -> (r: String)
    requires
        m.created_at.wf(),
        m.updated_at.wf(),
        now.wf(),
        match m.duration_seconds {
            Some(d) => -0x800_0000_0000 <= d <= 0x800_0000_0000,
            None => true,
        },
    ensures
        r@ == json_head_text(*m, *o, *now),
{
    let mut s: String = String::new();
    s.append("{\"meeting\":{\"id\":");
    s = append_json_string(s, m.id.as_str());
    s.append(",\"title\":");
    s = append_json_string(s, m.title.as_str());
    s.append(",\"created_at\":");
    let t: String = fmt_rfc3339(&m.created_at);
    s = append_json_string(s, t.as_str());
    s.append(",\"updated_at\":");
    let t: String = fmt_rfc3339(&m.updated_at);
    s = append_json_string(s, t.as_str());
    s.append(",\"duration_seconds\":");
    s = append_json_opt_i64(s, &m.duration_seconds);
    s.append(",\"language\":");
    s = append_json_opt_string(s, &m.language);
    s.append(",\"ai_provider\":");
    s = append_json_opt_string(s, &m.ai_provider);
    s.append("},\"export_timestamp\":");
    let t: String = fmt_rfc3339(now);
    s = append_json_string(s, t.as_str());
    s.append(",\"export_options\":{\"format\":");
    s = append_json_string(s, o.format.as_str());
    s.append(",\"include_transcript\":");
    s = append_bool(s, o.include_transcript);
    s.append(",\"include_audio\":");
    s = append_bool(s, o.include_audio);
    s.append(",\"include_summary\":");
    s = append_bool(s, o.include_summary);
    s.append(",\"include_segments\":");
    s = append_bool(s, o.include_segments);
    s.append("}");
    proof {
        assert(s@ =~= json_head_text(*m, *o, *now));
    }
    s
}

/// Appends one segment object.
#[verifier::rlimit(60)]
fn append_json_segment(out: String, seg: &MeetingSegment) -> (r: String)
    requires
        0 <= seg.start_time <= 0x1_0000_0000_0000,
        0 <= seg.end_time <= 0x1_0000_0000_0000,
        match seg.confidence {
            Some(c) => -0x800_0000_0000 <= c <= 0x800_0000_0000,
            None => true,
        },
    ensures
        r@ == out@ + json_segment(*seg),
{
    let mut s: String = out;
    s.append("{\"id\":");
    s = append_json_string(s, seg.id.as_str());
    s.append(",\"meeting_id\":");
    s = append_json_string(s, seg.meeting_id.as_str());
    s.append(",\"start_time\":");
    let v: String = fmt_centis(seg.start_time);
    s.append(v.as_str());
    s.append(",\"end_time\":");
    let v: String = fmt_centis(seg.end_time);
    s.append(v.as_str());
    s.append(",\"text\":");
    s = append_json_string(s, seg.text.as_str());
    s.append(",\"confidence\":");
    s = append_json_opt_i64(s, &seg.confidence);
    s.append("}");
    proof {
        assert(s@ =~= out@ + json_segment(*seg));
    }
    s
}

/// The optional scalar sections of the JSON export.
pub open spec fn json_sections_text(m: Meeting, o: ExportOptions) -> Seq<char> {
    (if o.include_transcript {
        ",\"transcript\":"@ + json_opt_string(m.transcript)
    } else {
        Seq::<char>::empty()
    }) + (if o.include_summary {
        ",\"meeting_minutes\":"@ + json_opt_string(m.meeting_minutes)
    } else {
        Seq::<char>::empty()
    }) + (if o.include_audio {
        ",\"audio_file_path\":"@ + json_opt_string(m.audio_file_path)
    } else {
        Seq::<char>::empty()
    })
}

/// The segments array of the JSON export, when asked for and non-empty.
pub open spec fn json_segments_part(segs: Seq<MeetingSegment>, wanted: bool) -> Seq<char> {
    if wanted && segs.len() > 0 {
        ",\"segments\":["@ + json_segments(segs, segs.len() as int) + "]"@
    } else {
        Seq::<char>::empty()
    }
}

#[verifier::rlimit(60)]
fn json_sections(m: &Meeting, o: &ExportOptions) -> (r: String)
    ensures
        r@ == json_sections_text(*m, *o),
{
    let mut s: String = String::new();
    if o.include_transcript {
        s.append(",\"transcript\":");
        s = append_json_opt_string(s, &m.transcript);
    }
    let ghost part1 = s@;
    proof {
        assert(part1 =~= (if o.include_transcript {
            ",\"transcript\":"@ + json_opt_string(m.transcript)
        } else {
            Seq::<char>::empty()
        }));
    }
    if o.include_summary {
        s.append(",\"meeting_minutes\":");
        s = append_json_opt_string(s, &m.meeting_minutes);
    }
    let ghost part2 = s@;
    proof {
        assert(part2 =~= part1 + (if o.include_summary {
            ",\"meeting_minutes\":"@ + json_opt_string(m.meeting_minutes)
        } else {
            Seq::<char>::empty()
        }));
    }
    if o.include_audio {
        s.append(",\"audio_file_path\":");
        s = append_json_opt_string(s, &m.audio_file_path);
    }
    proof {
        assert(s@ =~= part2 + (if o.include_audio {
            ",\"audio_file_path\":"@ + json_opt_string(m.audio_file_path)
        } else {
            Seq::<char>::empty()
        }));
        assert(s@ =~= json_sections_text(*m, *o));
    }
    s
}

#[verifier::rlimit(60)]
fn json_segments_array(segs: &Vec<MeetingSegment>, wanted: bool) -> (r: String)
    requires
        forall|i: int|
            0 <= i < segs@.len() ==> 0 <= (#[trigger] segs@[i]).start_time
                <= 0x1_0000_0000_0000 && 0 <= segs@[i].end_time <= 0x1_0000_0000_0000,
        forall|i: int|
            0 <= i < segs@.len() ==> (match (#[trigger] segs@[i]).confidence {
                Some(c) => -0x800_0000_0000 <= c <= 0x800_0000_0000,
                None => true,
            }),
    ensures
        r@ == json_segments_part(segs@, wanted),
{
    let mut s: String = String::new();
    if wanted && segs.len() > 0 {
        s.append(",\"segments\":[");
        let n: usize = segs.len();
        let ghost arr_base = s@;
        let mut k: usize = 0;
        while k < n
            invariant
                n == segs@.len(),
                1 <= n,
                forall|i: int|
                    0 <= i < segs@.len() ==> 0 <= (#[trigger] segs@[i]).start_time
                        <= 0x1_0000_0000_0000 && 0 <= segs@[i].end_time <= 0x1_0000_0000_0000,
                forall|i: int|
                    0 <= i < segs@.len() ==> (match (#[trigger] segs@[i]).confidence {
                        Some(c) => -0x800_0000_0000 <= c <= 0x800_0000_0000,
                        None => true,
                    }),
                k <= n,
                s@ == arr_base + json_segments(segs@, k as int),
            decreases n - k,
        {
            if k > 0 {
                s.append(",");
            }
            s = append_json_segment(s, &segs[k]);
            proof {
                assert(s@ =~= arr_base + json_segments(segs@, k as int + 1));
            }
            k = k + 1;
        }
        s.append("]");
        proof {
            assert(s@ =~= json_segments_part(segs@, wanted));
        }
    }
    s
}

/// Builds the JSON export.
pub fn export_as_json(
    m: &Meeting,
    segs: &Vec<MeetingSegment>,
    o: &ExportOptions,
    now: &Timestamp,
) -> (r: String)
    requires
        m.created_at.wf(),
        m.updated_at.wf(),
        now.wf(),
        forall|i: int|
            0 <= i < segs@.len() ==> 0 <= (#[trigger] segs@[i]).start_time
                <= 0x1_0000_0000_0000 && 0 <= segs@[i].end_time <= 0x1_0000_0000_0000,
        forall|i: int|
            0 <= i < segs@.len() ==> (match (#[trigger] segs@[i]).confidence {
                Some(c) => -0x800_0000_0000 <= c <= 0x800_0000_0000,
                None => true,
            }),
        match m.duration_seconds {
            Some(d) => -0x800_0000_0000 <= d <= 0x800_0000_0000,
            None => true,
        },
    ensures
        r@ == json_text(*m, segs@, *o, *now),
{
    let mut s: String = json_head(m, o, now);
    let sections: String = json_sections(m, o);
    s.append(sections.as_str());
    let array_part: String = json_segments_array(segs, o.include_segments);
    s.append(array_part.as_str());
    s.append("}");
    proof {
        lemma_json_text_shape(*m, segs@, *o, *now);
        assert(s@ =~= json_head_text(*m, *o, *now) + json_sections_text(*m, *o)
            + json_segments_part(segs@, o.include_segments) + "}"@);
    }
    s
}

/// The JSON text decomposes into its head, its scalar sections, its
/// segments array, and the closing brace.
proof fn lemma_json_text_shape(m: Meeting, segs: Seq<MeetingSegment>, o: ExportOptions, now: Timestamp)
    ensures
        json_text(m, segs, o, now) == json_head_text(m, o, now) + json_sections_text(m, o)
            + json_segments_part(segs, o.include_segments) + "}"@,
{
    let h = json_head_text(m, o, now);
    let t = if o.include_transcript {
        ",\"transcript\":"@ + json_opt_string(m.transcript)
    } else {
        Seq::<char>::empty()
    };
    let su = if o.include_summary {
        ",\"meeting_minutes\":"@ + json_opt_string(m.meeting_minutes)
    } else {
        Seq::<char>::empty()
    };
    let a = if o.include_audio {
        ",\"audio_file_path\":"@ + json_opt_string(m.audio_file_path)
    } else {
        Seq::<char>::empty()
    };
    let g = json_segments_part(segs, o.include_segments);
    lemma_concat_regroup(h, t, su, a, g, "}"@);
}

/// Concatenation regrouped around the middle three parts.
proof fn lemma_concat_regroup(
    h: Seq<char>,
    t: Seq<char>,
    su: Seq<char>,
    a: Seq<char>,
    g: Seq<char>,
    close: Seq<char>,
)
    ensures
        h + t + su + a + g + close == h + (t + su + a) + g + close,
{
    assert(h + t + su + a + g + close =~= h + (t + su + a) + g + close);
}

/// Appends a decimal number or `null`.
fn append_json_opt_i64(out: String, o: &Option<i64>) -> (r: String)
    requires
        match o {
            Some(d) => -0x800_0000_0000 <= *d <= 0x800_0000_0000,
            None => true,
        },
    ensures
        r@ == out@ + json_opt_int(*o),
{
    let mut acc: String = out;
    match o {
        Some(d) => {
            let t: String = fmt_i64(*d);
            acc.append(t.as_str());
        },
        None => {
            acc.append("null");
        },
    }
    acc
}

/// Appends `true` or `false`.
fn append_bool(out: String, b: bool) -> (r: String)
    ensures
        r@ == out@ + json_bool(b),
{
    let mut acc: String = out;
    if b {
        acc.append("true");
    } else {
        acc.append("false");
    }
    acc
}

/// The local stamp used in generated text file names, `YYYY-MM-DD_HH-MM-SS`.
pub open spec fn dashed_stamp(t: Timestamp) -> Seq<char> {
    crate::time::year_digits(t.year as int) + "-"@ + two_digits(t.month as int) + "-"@
        + two_digits(t.day as int) + "_"@ + two_digits(t.hour as int) + "-"@ + two_digits(
        t.minute as int,
    ) + "-"@ + two_digits(t.second as int)
}

fn fmt_dashed_stamp(t: &Timestamp) -> (r: String)
    requires
        t.wf(),
    ensures
        r@ == dashed_stamp(*t),
{
    let mut s: String = crate::time::fmt_year(t.year);
    s.append("-");
    let p: String = fmt_2(t.month);
    s.append(p.as_str());
    s.append("-");
    let p: String = fmt_2(t.day);
    s.append(p.as_str());
    s.append("_");
    let p: String = fmt_2(t.hour);
    s.append(p.as_str());
    s.append("-");
    let p: String = fmt_2(t.minute);
    s.append(p.as_str());
    s.append("-");
    let p: String = fmt_2(t.second);
    s.append(p.as_str());
    proof {
        assert(s@ =~= dashed_stamp(*t));
    }
    s
}

/// The default file name for a saved transcript.
pub fn default_transcript_filename(t: &Timestamp) -> (r: String)
    requires
        t.wf(),
    ensures
        r@ == "meeting_"@ + dashed_stamp(*t) + ".txt"@,
{
    let mut s: String = String::new();
    s.append("meeting_");
    let d: String = fmt_dashed_stamp(t);
    s.append(d.as_str());
    s.append(".txt");
    proof {
        assert(s@ =~= "meeting_"@ + dashed_stamp(*t) + ".txt"@);
    }
    s
}

/// The default file name for saved meeting minutes.
pub fn default_minutes_filename(t: &Timestamp) -> (r: String)
    requires
        t.wf(),
    ensures
        r@ == "meeting_minutes_"@ + dashed_stamp(*t) + ".md"@,
{
    let mut s: String = String::new();
    s.append("meeting_minutes_");
    let d: String = fmt_dashed_stamp(t);
    s.append(d.as_str());
    s.append(".md");
    proof {
        assert(s@ =~= "meeting_minutes_"@ + dashed_stamp(*t) + ".md"@);
    }
    s
}

/// The metadata header written before a saved transcript: the stamp, the
/// file name, and a separator rule of fifty equals signs.
pub open spec fn transcript_header_text(t: Timestamp, file_name: Seq<char>) -> Seq<char> {
    "Meeting Transcript\nGenerated: "@ + crate::time::date_time_text(t) + " UTC\nFile: "@
        + file_name + "\n=================================================="@ + "\n\n"@
}

/// Builds the transcript file header.
pub fn transcript_file_header(t: &Timestamp, file_name: &String) -> (r: String)
    requires
        t.wf(),
    ensures
        r@ == transcript_header_text(*t, file_name@),
{
    let mut s: String = String::new();
    s.append("Meeting Transcript\nGenerated: ");
    let d: String = crate::time::fmt_date_time(t);
    s.append(d.as_str());
    s.append(" UTC\nFile: ");
    s.append(file_name.as_str());
    s.append("\n==================================================");
    s.append("\n\n");
    proof {
        assert(s@ =~= transcript_header_text(*t, file_name@));
    }
    s
}

} // verus!
