//! Device naming rules: the `(Default)` annotation, the loopback and
//! system-audio keyword classification, the auto-detection order for the
//! system source, and the device lists reported to the host. Device
//! enumeration itself happens in the host shell; these functions decide.

use vstd::prelude::*;
use crate::errors::RecorderError;
use crate::store::clone_string;
use crate::util::{
    str_has, str_contains, str_ends_with, str_starts_with, str_eq, lower_chars, to_ascii_lower,
    contains_at,
};

verus! {

/// `n` with one trailing annotation `suffix` removed, when present.
pub open spec fn stripped(n: Seq<char>, suffix: Seq<char>) -> Seq<char> {
    if n.len() >= suffix.len() && n.subrange(n.len() - suffix.len(), n.len() as int) == suffix {
        n.subrange(0, n.len() - suffix.len())
    } else {
        n
    }
}

/// A device name without its ` (Default)` annotation.
pub open spec fn cleaned_name(n: Seq<char>) -> Seq<char> {
    stripped(n, " (Default)"@)
}

/// The selected system-audio entry without any of the list annotations.
pub open spec fn cleaned_system_name(n: Seq<char>) -> Seq<char> {
    stripped(stripped(stripped(n, " (System Audio)"@), " (Loopback)"@), " (Default)"@)
}

/// Strips one trailing annotation.
fn strip_suffix(n: &str, suffix: &str) -> (r: String)
    ensures
        r@ == stripped(n@, suffix@),
{
    let ln: usize = n.unicode_len();
    let ls: usize = suffix.unicode_len();
    if str_ends_with(n, suffix) {
        proof {
            assert(contains_at(n@, suffix@, n@.len() - suffix@.len()));
        }
        let prefix: &str = n.substring_char(0, ln - ls);
        prefix.to_owned()
    } else {
        proof {
            if n@.len() >= suffix@.len() && n@.subrange(
                n@.len() - suffix@.len(),
                n@.len() as int,
            ) == suffix@ {
                assert(contains_at(n@, suffix@, n@.len() - suffix@.len()));
            }
        }
        n.to_owned()
    }
}

/// Two device names name the same device once `(Default)` is stripped.
pub fn device_name_matches(name: &str, selected: &str) -> (r: bool)
    ensures
        r == (cleaned_name(name@) == cleaned_name(selected@)),
{
    proof {
        reveal_strlit(" (Default)");
    }
    let a: String = strip_suffix(name, " (Default)");
    let b: String = strip_suffix(selected, " (Default)");
    str_eq(a.as_str(), b.as_str())
}

/// The first device in `names` matching `selected` after cleaning.
pub fn find_device(names: &Vec<String>, selected: &str) -> (r: Option<usize>)
    ensures
        match r {
            Option::Some(i) => i < names@.len() && cleaned_name(names@[i as int]@) == cleaned_name(
                selected@,
            ) && (forall|j: int|
                0 <= j < i as int ==> cleaned_name((#[trigger] names@[j])@) != cleaned_name(
                    selected@,
                )),
            Option::None => forall|j: int|
                0 <= j < names@.len() ==> cleaned_name((#[trigger] names@[j])@) != cleaned_name(
                    selected@,
                ),
        },
{
    let n: usize = names.len();
    let mut i: usize = 0;
    while i < n
        invariant
            n == names@.len(),
            i <= n,
            forall|j: int|
                0 <= j < i as int ==> cleaned_name((#[trigger] names@[j])@) != cleaned_name(
                    selected@,
                ),
        decreases n - i,
    {
        if device_name_matches(names[i].as_str(), selected) {
            return Some(i);
        }
        i = i + 1;
    }
    None
}

/// The first device whose cleaned name matches a selected system-audio
/// entry, whose own annotations are stripped first.
pub fn find_system_device(names: &Vec<String>, selected: &str) -> (r: Option<usize>)
    ensures
        match r {
            Option::Some(i) => i < names@.len() && cleaned_name(names@[i as int]@)
                == cleaned_system_name(selected@) && (forall|j: int|
                0 <= j < i as int ==> cleaned_name((#[trigger] names@[j])@)
                    != cleaned_system_name(selected@)),
            Option::None => forall|j: int|
                0 <= j < names@.len() ==> cleaned_name((#[trigger] names@[j])@)
                    != cleaned_system_name(selected@),
        },
{
    proof {
        reveal_strlit(" (System Audio)");
        reveal_strlit(" (Loopback)");
        reveal_strlit(" (Default)");
    }
    let a: String = strip_suffix(selected, " (System Audio)");
    let b: String = strip_suffix(a.as_str(), " (Loopback)");
    let wanted: String = strip_suffix(b.as_str(), " (Default)");
    let n: usize = names.len();
    let mut i: usize = 0;
    while i < n
        invariant
            n == names@.len(),
            wanted@ == cleaned_system_name(selected@),
            i <= n,
            forall|j: int|
                0 <= j < i as int ==> cleaned_name((#[trigger] names@[j])@) != cleaned_system_name(
                    selected@,
                ),
        decreases n - i,
    {
        let cleaned: String = strip_suffix(names[i].as_str(), " (Default)");
        if str_eq(cleaned.as_str(), wanted.as_str()) {
            return Some(i);
        }
        i = i + 1;
    }
    None
}

/// An input device that carries the system's playback: its lowered name
/// holds one of the dedicated loopback keywords.
pub open spec fn is_loopback_name(n: Seq<char>) -> bool {
    ||| str_has(lower_chars(n), "blackhole"@)
    ||| str_has(lower_chars(n), "soundflower"@)
    ||| str_has(lower_chars(n), "loopback"@)
    ||| str_has(lower_chars(n), "virtual"@)
}

/// An output device that can mirror the system audio.
pub open spec fn is_system_output_name(n: Seq<char>) -> bool {
    ||| str_has(lower_chars(n), "system"@)
    ||| str_has(lower_chars(n), "stereo mix"@)
    ||| str_has(lower_chars(n), "what u hear"@)
}

/// A loopback-style input device name used in the device list report.
pub open spec fn is_list_loopback_name(n: Seq<char>) -> bool {
    ||| str_has(lower_chars(n), "loopback"@)
    ||| str_has(lower_chars(n), "stereo mix"@)
    ||| str_has(lower_chars(n), "what u hear"@)
    ||| str_has(lower_chars(n), "soundflower"@)
    ||| str_has(lower_chars(n), "blackhole"@)
}

/// Tests a name for the dedicated loopback keywords.
pub fn name_is_loopback(n: &str) -> (r: bool)
    ensures
        r == is_loopback_name(n@),
{
    let lower: String = to_ascii_lower(n);
    str_contains(lower.as_str(), "blackhole") || str_contains(lower.as_str(), "soundflower")
        || str_contains(lower.as_str(), "loopback") || str_contains(lower.as_str(), "virtual")
}

/// Tests a name for the system-output keywords.
pub fn name_is_system_output(n: &str) -> (r: bool)
    ensures
        r == is_system_output_name(n@),
{
    let lower: String = to_ascii_lower(n);
    str_contains(lower.as_str(), "system") || str_contains(lower.as_str(), "stereo mix")
        || str_contains(lower.as_str(), "what u hear")
}

/// Tests a name for the device-list loopback keywords.
pub fn name_is_list_loopback(n: &str) -> (r: bool)
    ensures
        r == is_list_loopback_name(n@),
{
    let lower: String = to_ascii_lower(n);
    str_contains(lower.as_str(), "loopback") || str_contains(lower.as_str(), "stereo mix")
        || str_contains(lower.as_str(), "what u hear") || str_contains(
        lower.as_str(),
        "soundflower",
    ) || str_contains(lower.as_str(), "blackhole")
}

/// Where the auto-detected system source was found.
pub enum SystemDevicePick {
    /// Index into the input device list: a dedicated loopback device.
    InputLoopback(usize),
    /// Index into the openable output device list: a system-audio mirror.
    OutputDevice(usize),
    /// No device qualifies; the session records the microphone only.
    NoDevice,
}

/// Auto-detects the system-audio source: first a dedicated loopback
/// device among the inputs, then a system-audio mirror among the outputs
/// that open as inputs; the first match of each list wins, inputs before
/// outputs. Nothing qualifying leaves the session microphone-only.
pub fn pick_system_device(input_names: &Vec<String>, output_names: &Vec<String>) -> (r:
    SystemDevicePick)
    ensures
        match r {
            SystemDevicePick::InputLoopback(i) => i < input_names@.len() && is_loopback_name(
                input_names@[i as int]@,
            ) && (forall|j: int|
                0 <= j < i as int ==> !is_loopback_name((#[trigger] input_names@[j])@)),
            SystemDevicePick::OutputDevice(i) => {
                &&& i < output_names@.len()
                &&& is_system_output_name(output_names@[i as int]@)
                &&& forall|j: int|
                    0 <= j < input_names@.len() ==> !is_loopback_name(
                        (#[trigger] input_names@[j])@,
                    )
                &&& forall|j: int|
                    0 <= j < i as int ==> !is_system_output_name((#[trigger] output_names@[j])@)
            },
            SystemDevicePick::NoDevice => {
                &&& forall|j: int|
                    0 <= j < input_names@.len() ==> !is_loopback_name(
                        (#[trigger] input_names@[j])@,
                    )
                &&& forall|j: int|
                    0 <= j < output_names@.len() ==> !is_system_output_name(
                        (#[trigger] output_names@[j])@,
                    )
            },
        },
{
    let n_in: usize = input_names.len();
    let mut i: usize = 0;
    while i < n_in
        invariant
            n_in == input_names@.len(),
            i <= n_in,
            forall|j: int| 0 <= j < i as int ==> !is_loopback_name((#[trigger] input_names@[j])@),
        decreases n_in - i,
    {
        if name_is_loopback(input_names[i].as_str()) {
            return SystemDevicePick::InputLoopback(i);
        }
        i = i + 1;
    }
    let n_out: usize = output_names.len();
    let mut k: usize = 0;
    while k < n_out
        invariant
            n_in == input_names@.len(),
            n_out == output_names@.len(),
            forall|j: int| 0 <= j < n_in as int ==> !is_loopback_name((#[trigger] input_names@[j])@),
            k <= n_out,
            forall|j: int|
                0 <= j < k as int ==> !is_system_output_name((#[trigger] output_names@[j])@),
        decreases n_out - k,
    {
        if name_is_system_output(output_names[k].as_str()) {
            return SystemDevicePick::OutputDevice(k);
        }
        k = k + 1;
    }
    SystemDevicePick::NoDevice
}

/// One entry of the device report.
#[derive(Debug)]
pub struct AudioDevice {
    pub name: String,
    pub is_default: bool,
    pub device_type: String,
}

/// The device report: capture devices and system-audio candidates.
#[derive(Debug)]
pub struct AudioDevices {
    pub input_devices: Vec<AudioDevice>,
    pub output_devices: Vec<AudioDevice>,
}

/// Is this name the default one?
pub open spec fn is_default_of(n: Seq<char>, default: Option<Seq<char>>) -> bool {
    default == Some(n)
}

/// Builds the device report from what the host enumerated: every input as
/// an `input` entry marked default by name equality; every output that
/// opens as an input as a `<name> (System Audio)` `output` entry; and every
/// input with a loopback keyword again as a `<name> (Loopback)` `loopback`
/// entry. No inputs at all is `EnumerationFailed`.
pub fn build_device_report(
    input_names: &Vec<String>,
    default_input: &Option<String>,
    openable_output_names: &Vec<String>,
    default_output: &Option<String>,
) -> (r: Result<AudioDevices, RecorderError>)
    ensures
        match r {
            Result::Ok(d) => {
                &&& input_names@.len() > 0
                &&& d.input_devices@.len() == input_names@.len()
                &&& forall|i: int|
                    0 <= i < d.input_devices@.len() ==> {
                        let e = #[trigger] d.input_devices@[i];
                        &&& e.name@ == input_names@[i]@
                        &&& e.is_default == is_default_of(
                            input_names@[i]@,
                            crate::minutes::opt_view(*default_input),
                        )
                        &&& e.device_type@ == "input"@
                    }
                &&& d.output_devices@.len() == openable_output_names@.len() + loopback_labels(
                    input_names@,
                    input_names@.len() as int,
                ).len()
                &&& forall|i: int|
                    0 <= i < openable_output_names@.len() ==> {
                        let e = #[trigger] d.output_devices@[i];
                        &&& e.name@ == openable_output_names@[i]@ + " (System Audio)"@
                        &&& e.is_default == is_default_of(
                            openable_output_names@[i]@,
                            crate::minutes::opt_view(*default_output),
                        )
                        &&& e.device_type@ == "output"@
                    }
                &&& forall|i: int|
                    openable_output_names@.len() <= i < d.output_devices@.len() ==> {
                        let e = #[trigger] d.output_devices@[i];
                        &&& e.name@ == loopback_labels(input_names@, input_names@.len() as int)[i
                            - openable_output_names@.len()]
                        &&& !e.is_default
                        &&& e.device_type@ == "loopback"@
                    }
            },
            Result::Err(e) => e == RecorderError::EnumerationFailed && input_names@.len() == 0,
        },
{
    if input_names.len() == 0 {
        return Err(RecorderError::EnumerationFailed);
    }
    let mut input_devices: Vec<AudioDevice> = Vec::new();
    let n_in: usize = input_names.len();
    let mut i: usize = 0;
    while i < n_in
        invariant
            n_in == input_names@.len(),
            i <= n_in,
            input_devices@.len() == i as int,
            forall|t: int|
                0 <= t < i as int ==> {
                    let e = #[trigger] input_devices@[t];
                    &&& e.name@ == input_names@[t]@
                    &&& e.is_default == is_default_of(
                        input_names@[t]@,
                        crate::minutes::opt_view(*default_input),
                    )
                    &&& e.device_type@ == "input"@
                },
        decreases n_in - i,
    {
        let is_default: bool = match default_input {
            Some(d) => str_eq(input_names[i].as_str(), d.as_str()),
            None => false,
        };
        let mut ty: String = String::new();
        ty.append("input");
        proof {
            assert(ty@ =~= "input"@);
        }
        input_devices.push(
            AudioDevice { name: clone_string(&input_names[i]), is_default, device_type: ty },
        );
        i = i + 1;
    }
    let mut output_devices: Vec<AudioDevice> = Vec::new();
    let n_out: usize = openable_output_names.len();
    let mut k: usize = 0;
    while k < n_out
        invariant
            n_out == openable_output_names@.len(),
            k <= n_out,
            output_devices@.len() == k as int,
            forall|t: int|
                0 <= t < k as int ==> {
                    let e = #[trigger] output_devices@[t];
                    &&& e.name@ == openable_output_names@[t]@ + " (System Audio)"@
                    &&& e.is_default == is_default_of(
                        openable_output_names@[t]@,
                        crate::minutes::opt_view(*default_output),
                    )
                    &&& e.device_type@ == "output"@
                },
        decreases n_out - k,
    {
        let is_default: bool = match default_output {
            Some(d) => str_eq(openable_output_names[k].as_str(), d.as_str()),
            None => false,
        };
        let mut label: String = clone_string(&openable_output_names[k]);
        label.append(" (System Audio)");
        let mut ty: String = String::new();
        ty.append("output");
        proof {
            assert(ty@ =~= "output"@);
        }
        output_devices.push(AudioDevice { name: label, is_default, device_type: ty });
        k = k + 1;
    }
    let mut t: usize = 0;
    while t < n_in
        invariant
            n_in == input_names@.len(),
            n_out == openable_output_names@.len(),
            t <= n_in,
            output_devices@.len() >= n_out,
            output_devices@.len() == n_out as int + loopback_labels(input_names@, t as int).len(),
            forall|q: int|
                0 <= q < n_out as int ==> {
                    let e = #[trigger] output_devices@[q];
                    &&& e.name@ == openable_output_names@[q]@ + " (System Audio)"@
                    &&& e.is_default == is_default_of(
                        openable_output_names@[q]@,
                        crate::minutes::opt_view(*default_output),
                    )
                    &&& e.device_type@ == "output"@
                },
            forall|q: int|
                n_out as int <= q < output_devices@.len() ==> {
                    let e = #[trigger] output_devices@[q];
                    &&& e.name@ == loopback_labels(input_names@, t as int)[q - n_out as int]
                    &&& !e.is_default
                    &&& e.device_type@ == "loopback"@
                },
        decreases n_in - t,
    {
        let ghost before = output_devices@;
        if name_is_list_loopback(input_names[t].as_str()) {
            let mut label: String = clone_string(&input_names[t]);
            label.append(" (Loopback)");
            let mut ty: String = String::new();
            ty.append("loopback");
            proof {
                assert(label@ =~= input_names@[t as int]@ + " (Loopback)"@);
                assert(ty@ =~= "loopback"@);
            }
            output_devices.push(AudioDevice { name: label, is_default: false, device_type: ty });
        }
        proof {
            let labels_now = loopback_labels(input_names@, t as int + 1);
            let labels_prev = loopback_labels(input_names@, t as int);
            assert(labels_now == if is_list_loopback_name(input_names@[t as int]@) {
                labels_prev.push(input_names@[t as int]@ + " (Loopback)"@)
            } else {
                labels_prev
            });
            assert forall|q: int| 0 <= q < before.len() implies output_devices@[q] == before[q] by {}
        }
        t = t + 1;
    }
    Ok(AudioDevices { input_devices, output_devices })
}

/// The `(Loopback)` labels of the loopback-named inputs among the first
/// `k`, in input order.
pub open spec fn loopback_labels(names: Seq<String>, k: int) -> Seq<Seq<char>>
    decreases k,
{
    if k <= 0 {
        Seq::empty()
    } else {
        let prev = loopback_labels(names, k - 1);
        if is_list_loopback_name(names[k - 1]@) {
            prev.push(names[k - 1]@ + " (Loopback)"@)
        } else {
            prev
        }
    }
}

/// How many of the first `k` report lines begin with `marker`.
pub open spec fn count_marked(lines: Seq<Seq<char>>, marker: Seq<char>, k: int) -> int
    decreases k,
{
    if k <= 0 {
        0
    } else {
        count_marked(lines, marker, k - 1) + if contains_at(lines[k - 1], marker, 0) {
            1int
        } else {
            0int
        }
    }
}

/// Counts the report lines that begin with `marker`.
pub fn count_lines_marked(lines: &Vec<String>, marker: &str) -> (r: usize)
    ensures
        r == count_marked(
            Seq::new(lines@.len(), |i: int| lines@[i]@),
            marker@,
            lines@.len() as int,
        ),
{
    let ghost views = Seq::new(lines@.len(), |i: int| lines@[i]@);
    let n: usize = lines.len();
    let mut count: usize = 0;
    let mut i: usize = 0;
    while i < n
        invariant
            n == lines@.len(),
            views == Seq::new(lines@.len(), |i: int| lines@[i]@),
            i <= n,
            count <= i,
            count == count_marked(views, marker@, i as int),
        decreases n - i,
    {
        if str_starts_with(lines[i].as_str(), marker) {
            count = count + 1;
        }
        i = i + 1;
    }
    count
}

/// The closing summary of the audio-system diagnostics: the result lines,
/// then how many passed, warned, and failed, counted by their markers.
pub open spec fn diagnostics_summary_text(lines: Seq<Seq<char>>) -> Seq<char> {
    "Audio System Test Complete\n\n"@ + crate::export::joined_lines(lines, lines.len() as int)
        + "\nSummary: "@ + crate::util::dec_digits(count_marked(lines, "[ok]"@, lines.len() as int))
        + " passed, "@ + crate::util::dec_digits(
        count_marked(lines, "[warn]"@, lines.len() as int),
    ) + " warnings, "@ + crate::util::dec_digits(
        count_marked(lines, "[fail]"@, lines.len() as int),
    ) + " errors"@
}

/// Builds the diagnostics summary from marked result lines.
pub fn summarize_diagnostics(lines: &Vec<String>) -> (r: String)
    ensures
        r@ == diagnostics_summary_text(Seq::new(lines@.len(), |i: int| lines@[i]@)),
{
    proof {
        reveal_strlit("[ok]");
        reveal_strlit("[warn]");
        reveal_strlit("[fail]");
    }
    let ghost views = Seq::new(lines@.len(), |i: int| lines@[i]@);
    let mut s: String = String::new();
    s.append("Audio System Test Complete\n\n");
    let body: String = crate::export::join_lines(lines);
    s.append(body.as_str());
    s.append("\nSummary: ");
    let passed: String = crate::util::fmt_u64(count_lines_marked(lines, "[ok]") as u64);
    s.append(passed.as_str());
    s.append(" passed, ");
    let warned: String = crate::util::fmt_u64(count_lines_marked(lines, "[warn]") as u64);
    s.append(warned.as_str());
    s.append(" warnings, ");
    let failed: String = crate::util::fmt_u64(count_lines_marked(lines, "[fail]") as u64);
    s.append(failed.as_str());
    s.append(" errors");
    proof {
        assert(s@ =~= diagnostics_summary_text(views));
    }
    s
}

} // verus!
