//! The session state machine: recording lifecycle, gains, device
//! selection, realtime switches, and the output path rule that every
//! recording of a session is stored at
//! `<recordings dir>/recording_<meeting id>.wav`.

use vstd::prelude::*;
use crate::errors::RecorderError;
use crate::store::{clone_string, clone_opt_string};
use crate::time::{Timestamp, date_time_text, fmt_date_time};
use crate::util::{fmt_i64, fmt_u64, dec_signed, dec_digits};

verus! {

/// Gains are carried in hundredths: 100 is unity, 1000 is the 10.0 cap.
pub const DEFAULT_MIC_GAIN_CENTI: u32 = 250;

/// Default system-audio gain, in hundredths.
pub const DEFAULT_SYSTEM_GAIN_CENTI: u32 = 150;

/// Samples per realtime chunk: ten seconds at 16 kHz.
pub const DEFAULT_CHUNK_SIZE: usize = 160000;

/// Largest epoch second the session accepts from the clock.
pub const EPOCH_LIMIT: i64 = 0x800_0000_0000;

/// The control state of the engine: the recording flag with its start time
/// and output path, the recognizer flag, realtime switches, gains, and the
/// chosen devices.
pub struct SessionControl {
    pub is_recording: bool,
    pub start_epoch: Option<i64>,
    pub output_path: Option<String>,
    pub model_ready: bool,
    pub realtime_enabled: bool,
    pub chunk_size: usize,
    pub mic_gain_centi: u32,
    pub system_gain_centi: u32,
    pub selected_mic_device: Option<String>,
    pub selected_system_device: Option<String>,
}

impl SessionControl {
    /// Recording implies a start time and an output path; gains stay in
    /// range and the chunk size is positive.
    pub open spec fn wf(self) -> bool {
        &&& self.is_recording ==> self.start_epoch is Some && self.output_path is Some
        &&& self.start_epoch is Some ==> -EPOCH_LIMIT <= self.start_epoch->0 <= EPOCH_LIMIT
        &&& self.mic_gain_centi <= 1000
        &&& self.system_gain_centi <= 1000
        &&& self.chunk_size >= 1
    }

    /// A fresh idle session with the default gains and chunk size.
    pub fn new() -> (r: SessionControl)
        ensures
            r.wf(),
            !r.is_recording,
            r.start_epoch is None,
            r.output_path is None,
            !r.model_ready,
            !r.realtime_enabled,
            r.chunk_size == DEFAULT_CHUNK_SIZE,
            r.mic_gain_centi == DEFAULT_MIC_GAIN_CENTI,
            r.system_gain_centi == DEFAULT_SYSTEM_GAIN_CENTI,
            r.selected_mic_device is None,
            r.selected_system_device is None,
    {
        SessionControl {
            is_recording: false,
            start_epoch: None,
            output_path: None,
            model_ready: false,
            realtime_enabled: false,
            chunk_size: DEFAULT_CHUNK_SIZE,
            mic_gain_centi: DEFAULT_MIC_GAIN_CENTI,
            system_gain_centi: DEFAULT_SYSTEM_GAIN_CENTI,
            selected_mic_device: None,
            selected_system_device: None,
        }
    }
}

impl Default for SessionControl {
    /// The same fresh idle session as [`SessionControl::new`].
    fn default() -> (r: SessionControl)
        ensures
            r.wf(),
            !r.is_recording,
            r.mic_gain_centi == DEFAULT_MIC_GAIN_CENTI,
            r.system_gain_centi == DEFAULT_SYSTEM_GAIN_CENTI,
    {
        SessionControl::new()
    }
}

/// The application directory under the home directory.
pub open spec fn app_dir_path(home: Seq<char>) -> Seq<char> {
    home + "/Documents/MeetingRecorder"@
}

/// The recordings directory.
pub open spec fn recordings_dir_path(home: Seq<char>) -> Seq<char> {
    app_dir_path(home) + "/MeetingRecordings"@
}

/// The models directory under the recordings directory.
pub open spec fn models_dir_path(home: Seq<char>) -> Seq<char> {
    recordings_dir_path(home) + "/models"@
}

/// The database file.
pub open spec fn db_file_path(home: Seq<char>) -> Seq<char> {
    app_dir_path(home) + "/meetings.db"@
}

/// The exports directory.
pub open spec fn exports_dir_path(home: Seq<char>) -> Seq<char> {
    app_dir_path(home) + "/exports"@
}

/// Where a session's recording is stored: the recordings directory and the
/// meeting's identity name the file.
pub open spec fn recording_file_path(home: Seq<char>, meeting_id: Seq<char>) -> Seq<char> {
    recordings_dir_path(home) + "/recording_"@ + meeting_id + ".wav"@
}

/// Builds the recordings directory path.
pub fn recordings_dir(home: &String) -> (r: String)
    ensures
        r@ == recordings_dir_path(home@),
{
    let mut s: String = clone_string(home);
    s.append("/Documents/MeetingRecorder");
    s.append("/MeetingRecordings");
    proof {
        assert(s@ =~= recordings_dir_path(home@));
    }
    s
}

/// Builds the models directory path.
pub fn models_dir(home: &String) -> (r: String)
    ensures
        r@ == models_dir_path(home@),
{
    let mut s: String = recordings_dir(home);
    s.append("/models");
    proof {
        assert(s@ =~= models_dir_path(home@));
    }
    s
}

/// Builds the database file path.
pub fn db_file(home: &String) -> (r: String)
    ensures
        r@ == db_file_path(home@),
{
    let mut s: String = clone_string(home);
    s.append("/Documents/MeetingRecorder");
    s.append("/meetings.db");
    proof {
        assert(s@ =~= db_file_path(home@));
    }
    s
}

/// Builds the exports directory path.
pub fn exports_dir(home: &String) -> (r: String)
    ensures
        r@ == exports_dir_path(home@),
{
    let mut s: String = clone_string(home);
    s.append("/Documents/MeetingRecorder");
    s.append("/exports");
    proof {
        assert(s@ =~= exports_dir_path(home@));
    }
    s
}

/// Builds a session's recording file path from the meeting identity.
pub fn recording_file(home: &String, meeting_id: &String) -> (r: String)
    ensures
        r@ == recording_file_path(home@, meeting_id@),
{
    let mut s: String = recordings_dir(home);
    s.append("/recording_");
    s.append(meeting_id.as_str());
    s.append(".wav");
    proof {
        assert(s@ =~= recording_file_path(home@, meeting_id@));
    }
    s
}

/// The default title of a meeting started at `t`.
pub open spec fn default_title_text(t: Timestamp) -> Seq<char> {
    "Meeting "@ + date_time_text(t)
}

/// Builds the default meeting title, `Meeting YYYY-MM-DD HH:MM:SS`.
pub fn default_meeting_title(t: &Timestamp) -> (r: String)
    requires
        t.wf(),
    ensures
        r@ == default_title_text(*t),
{
    let mut s: String = String::new();
    s.append("Meeting ");
    let d: String = fmt_date_time(t);
    s.append(d.as_str());
    proof {
        assert(s@ =~= default_title_text(*t));
    }
    s
}

/// What a successful start reports to the host.
#[derive(Debug)]
pub struct StartInfo {
    pub message: String,
    pub meeting_id: String,
    pub audio_file_path: String,
}

/// What a stop reports to the host.
#[derive(Debug)]
pub struct RecordingResult {
    pub success: bool,
    pub message: String,
    pub audio_file_path: Option<String>,
    pub duration_seconds: i64,
    pub sample_count: usize,
}

impl SessionControl {
    /// Moves an idle session into recording: stamps the start time and the
    /// output path `recording_<meeting_id>.wav` under the recordings
    /// directory. Starting while recording is `AlreadyRecording` and
    /// changes nothing.
    pub fn start_recording(
        &mut self,
        meeting_id: &String,
        home: &String,
        now_epoch: i64,
    ) -> (r: Result<StartInfo, RecorderError>)
        requires
            old(self).wf(),
            -EPOCH_LIMIT <= now_epoch <= EPOCH_LIMIT,
        ensures
            final(self).wf(),
            match r {
                Result::Ok(info) => {
                    &&& !old(self).is_recording
                    &&& final(self).is_recording
                    &&& final(self).start_epoch == Some(now_epoch)
                    &&& final(self).output_path is Some
                    &&& (final(self).output_path->0)@ == recording_file_path(home@, meeting_id@)
                    &&& info.meeting_id == *meeting_id
                    &&& info.audio_file_path@ == recording_file_path(home@, meeting_id@)
                    &&& info.message@ == "Recording started: "@ + recording_file_path(
                        home@,
                        meeting_id@,
                    )
                    &&& final(self).model_ready == old(self).model_ready
                    &&& final(self).realtime_enabled == old(self).realtime_enabled
                    &&& final(self).chunk_size == old(self).chunk_size
                    &&& final(self).mic_gain_centi == old(self).mic_gain_centi
                    &&& final(self).system_gain_centi == old(self).system_gain_centi
                    &&& final(self).selected_mic_device == old(self).selected_mic_device
                    &&& final(self).selected_system_device == old(self).selected_system_device
                },
                Result::Err(e) => e == RecorderError::AlreadyRecording && old(self).is_recording
                    && *final(self) == *old(self),
            },
    {
        if self.is_recording {
            return Err(RecorderError::AlreadyRecording);
        }
        let path: String = recording_file(home, meeting_id);
        let path_copy: String = clone_string(&path);
        let mut message: String = String::new();
        message.append("Recording started: ");
        message.append(path.as_str());
        self.is_recording = true;
        self.start_epoch = Some(now_epoch);
        self.output_path = Some(path);
        Ok(
            StartInfo {
                message,
                meeting_id: clone_string(meeting_id),
                audio_file_path: path_copy,
            },
        )
    }

    /// Stops a recording session: clears the recording flag and the start
    /// time, reports the stored path, the whole seconds elapsed, and the
    /// master sample count. Stopping while idle is `NotRecording` and
    /// changes nothing.
    pub fn stop_recording(&mut self, now_epoch: i64, sample_count: usize) -> (r: Result<
        RecordingResult,
        RecorderError,
    >)
        requires
            old(self).wf(),
            -EPOCH_LIMIT <= now_epoch <= EPOCH_LIMIT,
        ensures
            final(self).wf(),
            match r {
                Result::Ok(res) => {
                    &&& old(self).is_recording
                    &&& !final(self).is_recording
                    &&& final(self).start_epoch is None
                    &&& final(self).output_path == old(self).output_path
                    &&& res.success
                    &&& res.duration_seconds == now_epoch - old(self).start_epoch->0
                    &&& res.sample_count == sample_count
                    &&& res.audio_file_path == old(self).output_path
                    &&& res.message@ == "Recording stopped and saved successfully (Duration: "@
                        + dec_signed(now_epoch - old(self).start_epoch->0) + "s)"@
                    &&& final(self).model_ready == old(self).model_ready
                    &&& final(self).realtime_enabled == old(self).realtime_enabled
                    &&& final(self).chunk_size == old(self).chunk_size
                    &&& final(self).mic_gain_centi == old(self).mic_gain_centi
                    &&& final(self).system_gain_centi == old(self).system_gain_centi
                    &&& final(self).selected_mic_device == old(self).selected_mic_device
                    &&& final(self).selected_system_device == old(self).selected_system_device
                },
                Result::Err(e) => e == RecorderError::NotRecording && !old(self).is_recording
                    && *final(self) == *old(self),
            },
    {
        if !self.is_recording {
            return Err(RecorderError::NotRecording);
        }
        let start: i64 = match self.start_epoch {
            Some(s) => s,
            None => 0,
        };
        let duration: i64 = now_epoch - start;
        self.is_recording = false;
        self.start_epoch = None;
        let mut message: String = String::new();
        message.append("Recording stopped and saved successfully (Duration: ");
        let d: String = fmt_i64(duration);
        message.append(d.as_str());
        message.append("s)");
        let path: Option<String> = clone_opt_string(&self.output_path);
        Ok(
            RecordingResult {
                success: true,
                message,
                audio_file_path: path,
                duration_seconds: duration,
                sample_count,
            },
        )
    }

    /// Sets both gains, in hundredths. Any value outside 0.0 to 10.0 is
    /// `OutOfRange` and changes nothing.
    pub fn set_gain_settings(&mut self, mic_centi: i64, system_centi: i64) -> (r: Result<
        (),
        RecorderError,
    >)
        requires
            old(self).wf(),
        ensures
            final(self).wf(),
            match r {
                Result::Ok(()) => {
                    &&& 0 <= mic_centi <= 1000
                    &&& 0 <= system_centi <= 1000
                    &&& *final(self) == (SessionControl {
                        mic_gain_centi: mic_centi as u32,
                        system_gain_centi: system_centi as u32,
                        ..*old(self)
                    })
                },
                Result::Err(e) => {
                    &&& e == RecorderError::OutOfRange
                    &&& !(0 <= mic_centi <= 1000 && 0 <= system_centi <= 1000)
                    &&& *final(self) == *old(self)
                },
            },
    {
        if mic_centi < 0 || mic_centi > 1000 {
            return Err(RecorderError::OutOfRange);
        }
        if system_centi < 0 || system_centi > 1000 {
            return Err(RecorderError::OutOfRange);
        }
        self.mic_gain_centi = mic_centi as u32;
        self.system_gain_centi = system_centi as u32;
        Ok(())
    }

    /// Both gains, in hundredths.
    pub fn get_gain_settings(&self) -> (r: (u32, u32))
        ensures
            r.0 == self.mic_gain_centi,
            r.1 == self.system_gain_centi,
    {
        (self.mic_gain_centi, self.system_gain_centi)
    }

    /// Switches realtime transcription on; without a loaded recognizer
    /// model this is `NotInitialized` and changes nothing.
    pub fn enable_realtime_transcription(&mut self) -> (r: Result<(), RecorderError>)
        requires
            old(self).wf(),
        ensures
            final(self).wf(),
            match r {
                Result::Ok(()) => old(self).model_ready && *final(self) == (SessionControl {
                    realtime_enabled: true,
                    ..*old(self)
                }),
                Result::Err(e) => e == RecorderError::NotInitialized && !old(self).model_ready
                    && *final(self) == *old(self),
            },
    {
        if !self.model_ready {
            return Err(RecorderError::NotInitialized);
        }
        self.realtime_enabled = true;
        Ok(())
    }

    /// Switches realtime transcription off.
    pub fn disable_realtime_transcription(&mut self)
        requires
            old(self).wf(),
        ensures
            final(self).wf(),
            *final(self) == (SessionControl { realtime_enabled: false, ..*old(self) }),
    {
        self.realtime_enabled = false;
    }

    /// Records that the recognizer model is loaded.
    pub fn set_model_ready(&mut self)
        requires
            old(self).wf(),
        ensures
            final(self).wf(),
            *final(self) == (SessionControl { model_ready: true, ..*old(self) }),
    {
        self.model_ready = true;
    }

    /// Selects capture devices; a `None` leaves the present choice.
    pub fn set_audio_devices(&mut self, mic_device: Option<String>, system_device: Option<String>)
        requires
            old(self).wf(),
        ensures
            final(self).wf(),
            final(self).selected_mic_device == (if mic_device is Some {
                mic_device
            } else {
                old(self).selected_mic_device
            }),
            final(self).selected_system_device == (if system_device is Some {
                system_device
            } else {
                old(self).selected_system_device
            }),
            *final(self) == (SessionControl {
                selected_mic_device: final(self).selected_mic_device,
                selected_system_device: final(self).selected_system_device,
                ..*old(self)
            }),
    {
        if let Some(m) = mic_device {
            self.selected_mic_device = Some(m);
        }
        if let Some(s) = system_device {
            self.selected_system_device = Some(s);
        }
    }

    /// The chosen devices.
    pub fn get_selected_devices(&self) -> (r: (Option<String>, Option<String>))
        ensures
            r.0 == self.selected_mic_device,
            r.1 == self.selected_system_device,
    {
        (
            clone_opt_string(&self.selected_mic_device),
            clone_opt_string(&self.selected_system_device),
        )
    }

    /// A human-readable status line: elapsed seconds and sample count while
    /// recording, otherwise "Not recording".
    pub fn get_recording_status(&self, now_epoch: i64, sample_count: usize) -> (r: String)
        requires
            self.wf(),
            -EPOCH_LIMIT <= now_epoch <= EPOCH_LIMIT,
            sample_count <= 0xFFFF_FFFF_FFFF,
        ensures
            self.is_recording ==> r@ == "Recording: "@ + dec_signed(
                now_epoch - self.start_epoch->0,
            ) + "s, "@ + dec_digits(sample_count as int) + " samples"@,
            !self.is_recording ==> r@ == "Not recording"@,
    {
        if self.is_recording {
            let start: i64 = match self.start_epoch {
                Some(s) => s,
                None => 0,
            };
            let mut s: String = String::new();
            s.append("Recording: ");
            let d: String = fmt_i64(now_epoch - start);
            s.append(d.as_str());
            s.append("s, ");
            let c: String = fmt_u64(sample_count as u64);
            s.append(c.as_str());
            s.append(" samples");
            proof {
                assert(s@ =~= "Recording: "@ + dec_signed(now_epoch - self.start_epoch->0) + "s, "@
                    + dec_digits(sample_count as int) + " samples"@);
            }
            s
        } else {
            let mut s: String = String::new();
            s.append("Not recording");
            proof {
                assert(s@ =~= "Not recording"@);
            }
            s
        }
    }

    /// Where the last session's files were saved; with no session yet this
    /// is `NotRecording`.
    pub fn save_files(&self) -> (r: Result<String, RecorderError>)
        ensures
            match r {
                Result::Ok(msg) => self.output_path is Some && msg@ == "Files saved to: "@ + (
                self.output_path->0)@,
                Result::Err(e) => e == RecorderError::NotRecording && self.output_path is None,
            },
    {
        match &self.output_path {
            Some(p) => {
                let mut s: String = String::new();
                s.append("Files saved to: ");
                s.append(p.as_str());
                proof {
                    assert(s@ =~= "Files saved to: "@ + (self.output_path->0)@);
                }
                Ok(s)
            },
            None => Err(RecorderError::NotRecording),
        }
    }
}

} // verus!
