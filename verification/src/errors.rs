use vstd::prelude::*;

verus! {

/// Every failure the engine can report, as a closed tag set. Command
/// handlers translate each into a message for the host; no operation
/// panics.
#[derive(Debug, Clone, Copy, PartialEq, Eq, Structural)]
pub enum RecorderError {
    AlreadyRecording,
    NotRecording,
    DeviceNotFound,
    PermissionDenied,
    EnumerationFailed,
    UnsupportedSampleFormat,
    UnsupportedLayout,
    ConfigUnavailable,
    ModelMissing,
    NotInitialized,
    FileMissing,
    DecodeError,
    TranscribeFailed,
    WavWriteFailed,
    IOError,
    StorageError,
    NotFound,
    OutOfRange,
    ProviderFailure,
    EnvMissing,
    EmptyTranscript,
    UnsupportedFormat,
}

impl RecorderError {
    /// Concise description handed to the UI host in place of `Display`.
    pub fn message(&self) -> &'static str {
        match self {
            RecorderError::AlreadyRecording => "Already recording",
            RecorderError::NotRecording => "Not currently recording",
            RecorderError::DeviceNotFound => "Audio device not found",
            RecorderError::PermissionDenied => "Audio permission denied",
            RecorderError::EnumerationFailed => "Failed to enumerate audio devices",
            RecorderError::UnsupportedSampleFormat => "Unsupported sample format",
            RecorderError::UnsupportedLayout => "Unsupported channel layout",
            RecorderError::ConfigUnavailable => "Device configuration unavailable",
            RecorderError::ModelMissing => "No speech model found",
            RecorderError::NotInitialized => "Recognizer not initialized",
            RecorderError::FileMissing => "Audio file not found",
            RecorderError::DecodeError => "Failed to decode audio file",
            RecorderError::TranscribeFailed => "Transcription failed",
            RecorderError::WavWriteFailed => "Failed to write WAV file",
            RecorderError::IOError => "I/O error",
            RecorderError::StorageError => "Storage error",
            RecorderError::NotFound => "Meeting not found",
            RecorderError::OutOfRange => "Value out of range",
            RecorderError::ProviderFailure => "Summary provider failure",
            RecorderError::EnvMissing => "Required environment variable missing",
            RecorderError::EmptyTranscript => "No transcript content provided",
            RecorderError::UnsupportedFormat => "Unsupported export format",
        }
    }
}

} // verus!
