//! Typed errors for each pipeline stage.
use vstd::prelude::*;

verus! {

/// Typed errors for each pipeline stage.
#[derive(Debug, Clone, PartialEq)]
pub enum AutoSubError {
    AudioExtract(String),
    WhisperDecode(String),
    ParseFailed(String),
    Validation(String),
    PostProcess(String),
    Cache(String),
    Export(String),
    SidecarNotFound(String),
    Cancelled,
    /// An I/O error, by its message.
    Io(String),
    /// A JSON (de)serialisation error, by its message.
    Serde(String),
}

/// The human-readable message of an error: a fixed prefix per variant,
/// then the detail.
pub open spec fn error_message(e: AutoSubError) -> Seq<char> {
    match e {
        AutoSubError::AudioExtract(m) => "Audio extraction failed: "@ + m@,
        AutoSubError::WhisperDecode(m) => "Whisper decode failed: "@ + m@,
        AutoSubError::ParseFailed(m) => "JSON parse failed: "@ + m@,
        AutoSubError::Validation(m) => "Validation failed: "@ + m@,
        AutoSubError::PostProcess(m) => "Post-process failed: "@ + m@,
        AutoSubError::Cache(m) => "Cache error: "@ + m@,
        AutoSubError::Export(m) => "Export error: "@ + m@,
        AutoSubError::SidecarNotFound(m) => "Sidecar not found: "@ + m@,
        AutoSubError::Cancelled => "Job cancelled"@,
        AutoSubError::Io(m) => "IO error: "@ + m@,
        AutoSubError::Serde(m) => "Serde error: "@ + m@,
    }
}

fn prefixed(prefix: &str, detail: &String) -> (s: String)
    ensures
        s@ == prefix@ + detail@,
{
    let mut s = prefix.to_owned();
    s.append(detail.as_str());
    s
}

impl AutoSubError {
    /// The message that the error displays.
    pub fn message(&self) -> (s: String)
        ensures
            s@ == error_message(*self),
    {
        match self {
            AutoSubError::AudioExtract(m) => prefixed("Audio extraction failed: ", m),
            AutoSubError::WhisperDecode(m) => prefixed("Whisper decode failed: ", m),
            AutoSubError::ParseFailed(m) => prefixed("JSON parse failed: ", m),
            AutoSubError::Validation(m) => prefixed("Validation failed: ", m),
            AutoSubError::PostProcess(m) => prefixed("Post-process failed: ", m),
            AutoSubError::Cache(m) => prefixed("Cache error: ", m),
            AutoSubError::Export(m) => prefixed("Export error: ", m),
            AutoSubError::SidecarNotFound(m) => prefixed("Sidecar not found: ", m),
            AutoSubError::Cancelled => "Job cancelled".to_owned(),
            AutoSubError::Io(m) => prefixed("IO error: ", m),
            AutoSubError::Serde(m) => prefixed("Serde error: ", m),
        }
    }
}

} // verus!
