//! The states and events that the parts of the service exchange.
use vstd::prelude::*;

verus! {

/// What the service is doing.
#[derive(Debug, PartialEq, Eq, Structural, Clone, Copy)]
pub enum AppStatus {
    Idle,
    Recording,
    Transcribing,
}

/// What a hotkey asks for.
#[derive(Debug, PartialEq, Eq, Structural, Clone, Copy)]
pub enum TriggerEvent {
    Transcribe,
    Translate,
    Ocr,
}

/// What a transcription task reports.
pub enum TranscriptionEventKind {
    Transcript { transcript: String },
    Completed,
    Failed(String),
}

/// A report of the transcription task of one session.
pub struct TranscriptionEvent {
    pub session_id: u64,
    pub kind: TranscriptionEventKind,
}

} // verus!
