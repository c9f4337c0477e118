use voca::api::SpeechModel;
use voca::logic::{
    elapsed_ns, reset_app_state, runtime_error, task_events, ReportAction, Session, StopAction,
    TriggerAction, DOUBLE_PRESS_NS, HOTKEY_DEBOUNCE_NS,
};
use voca::types::{AppStatus, TranscriptionEvent, TranscriptionEventKind, TriggerEvent};

const START: u128 = 10_000_000_000;
const MODEL: SpeechModel = SpeechModel::GroqWhisper;

fn transcript(session_id: u64, text: &str) -> TranscriptionEvent {
    TranscriptionEvent {
        session_id,
        kind: TranscriptionEventKind::Transcript { transcript: text.to_string() },
    }
}

fn completed(session_id: u64) -> TranscriptionEvent {
    TranscriptionEvent { session_id, kind: TranscriptionEventKind::Completed }
}

fn recording(trigger: TriggerEvent) -> Session {
    let mut s = Session::new(START);
    let action = s.trigger(trigger, START, MODEL);
    assert_eq!(action, TriggerAction::StartRecording { sample_rate_hz: 16_000 });
    s.recording_started(true, START);
    s
}

#[test]
fn first_press_starts_recording() {
    let s = recording(TriggerEvent::Transcribe);
    assert!(s.is_recording);
    assert_eq!(s.active_session_id, 1);
    assert_eq!(s.transcription_inflight_for, Some(1));
    assert_eq!(s.status, AppStatus::Recording);
    assert!(!s.session_is_translation);
}

#[test]
fn failed_start_leaves_the_session_idle() {
    let mut s = Session::new(START);
    s.trigger(TriggerEvent::Translate, START, MODEL);
    s.recording_started(false, START);
    assert!(!s.is_recording);
    assert_eq!(s.active_session_id, 0);
    assert_eq!(s.transcription_inflight_for, None);
    assert_eq!(s.status, AppStatus::Idle);
    assert!(s.session_is_translation);
}

#[test]
fn presses_within_the_debounce_time_are_ignored() {
    let mut s = recording(TriggerEvent::Transcribe);
    let soon = START + HOTKEY_DEBOUNCE_NS - 1;
    assert_eq!(s.trigger(TriggerEvent::Transcribe, soon, MODEL), TriggerAction::Ignore);
    assert_eq!(s.trigger(TriggerEvent::Ocr, soon, MODEL), TriggerAction::CaptureScreen);
    assert!(s.is_recording);
    assert_eq!(s.last_hotkey_press_ns, START);
}

#[test]
fn double_press_toggles_the_language() {
    let mut s = recording(TriggerEvent::Translate);
    assert!(s.session_is_translation);
    let at = START + HOTKEY_DEBOUNCE_NS;
    assert_eq!(
        s.trigger(TriggerEvent::Translate, at, MODEL),
        TriggerAction::ToggleLanguage { sample_rate_hz: 16_000 }
    );
    s.recording_restarted(true, at);
    assert!(s.is_recording);
    assert_eq!(s.active_session_id, 2);
    assert_eq!(s.transcription_inflight_for, Some(2));
    assert_eq!(s.status, AppStatus::Recording);
    assert!(!s.session_is_translation);
    assert!(matches!(s.report(transcript(1, "old")), ReportAction::Ignore));
    assert!(s.typed_words.is_empty());
}

#[test]
fn failed_restart_ends_the_session() {
    let mut s = recording(TriggerEvent::Transcribe);
    s.trigger(TriggerEvent::Transcribe, START + HOTKEY_DEBOUNCE_NS, MODEL);
    s.recording_restarted(false, START + HOTKEY_DEBOUNCE_NS);
    assert!(!s.is_recording);
    assert_eq!(s.transcription_inflight_for, None);
    assert_eq!(s.status, AppStatus::Idle);
}

fn stopped(trigger: TriggerEvent) -> Session {
    let mut s = recording(trigger);
    let at = START + DOUBLE_PRESS_NS;
    assert_eq!(s.trigger(TriggerEvent::Transcribe, at, MODEL), TriggerAction::StopRecording);
    assert!(!s.is_recording);
    assert_eq!(s.status, AppStatus::Transcribing);
    s
}

#[test]
fn stopped_recording_is_transcribed_in_the_language() {
    let mut s = stopped(TriggerEvent::Transcribe);
    match s.recording_stopped(Ok(vec![1, 2]), "hi") {
        StopAction::Transcribe { session_id, wav_bytes, language } => {
            assert_eq!(session_id, 1);
            assert_eq!(wav_bytes, vec![1, 2]);
            assert_eq!(language, "hi");
        }
        other => panic!("{:?}", other),
    }
    assert_eq!(s.transcription_inflight_for, Some(1));
}

#[test]
fn stopped_translation_is_translated() {
    let mut s = stopped(TriggerEvent::Translate);
    match s.recording_stopped(Ok(vec![3]), "hi") {
        StopAction::Translate { session_id, wav_bytes } => {
            assert_eq!(session_id, 1);
            assert_eq!(wav_bytes, vec![3]);
        }
        other => panic!("{:?}", other),
    }
}

#[test]
fn failed_stop_ends_the_session() {
    let mut s = stopped(TriggerEvent::Transcribe);
    match s.recording_stopped(Err("broken".to_string()), "hi") {
        StopAction::ShowError(e) => assert_eq!(e, "broken"),
        other => panic!("{:?}", other),
    }
    assert_eq!(s.transcription_inflight_for, None);
    assert_eq!(s.status, AppStatus::Idle);
}

#[test]
fn no_recording_starts_while_one_is_transcribed() {
    let mut s = stopped(TriggerEvent::Transcribe);
    let at = START + DOUBLE_PRESS_NS + HOTKEY_DEBOUNCE_NS;
    assert_eq!(s.trigger(TriggerEvent::Transcribe, at, MODEL), TriggerAction::Busy);
    assert_eq!(s.last_hotkey_press_ns, at);
    assert_eq!(s.status, AppStatus::Transcribing);
}

#[test]
fn transcripts_are_typed_and_completion_ends_the_session() {
    let mut s = stopped(TriggerEvent::Transcribe);
    match s.report(transcript(1, "hello world")) {
        ReportAction::Type(text) => assert_eq!(text, "hello world "),
        other => panic!("{:?}", other),
    }
    assert!(matches!(s.report(transcript(1, "")), ReportAction::Ignore));
    assert_eq!(s.typed_words, vec!["hello".to_string(), "world".to_string()]);
    assert!(matches!(s.report(completed(7)), ReportAction::Ignore));
    assert_eq!(s.status, AppStatus::Transcribing);
    assert!(matches!(s.report(completed(1)), ReportAction::Finished));
    assert!(s.typed_words.is_empty());
    assert_eq!(s.status, AppStatus::Idle);
    assert_eq!(s.transcription_inflight_for, None);
    let at = START + DOUBLE_PRESS_NS + HOTKEY_DEBOUNCE_NS;
    assert_eq!(
        s.trigger(TriggerEvent::Transcribe, at, MODEL),
        TriggerAction::StartRecording { sample_rate_hz: 16_000 }
    );
}

#[test]
fn failures_are_shown_and_end_the_session() {
    let mut s = stopped(TriggerEvent::Transcribe);
    for event in task_events(1, Err("no net".to_string())) {
        match s.report(event) {
            ReportAction::ShowError(e) => assert_eq!(e, "no net"),
            other => panic!("{:?}", other),
        }
    }
    assert_eq!(s.status, AppStatus::Idle);
}

#[test]
fn task_reports() {
    let events = task_events(4, Ok("text".to_string()));
    assert_eq!(events.len(), 2);
    assert_eq!(events[0].session_id, 4);
    match &events[0].kind {
        TranscriptionEventKind::Transcript { transcript } => assert_eq!(transcript, "text"),
        _ => panic!("no transcript"),
    }
    assert_eq!(events[1].session_id, 4);
    assert!(matches!(events[1].kind, TranscriptionEventKind::Completed));
    assert_eq!(runtime_error("oom"), "Failed to create async runtime: oom");
}

#[test]
fn session_numbers_wrap() {
    let mut s = Session::new(START);
    s.active_session_id = u64::MAX;
    s.trigger(TriggerEvent::Transcribe, START, MODEL);
    s.recording_started(true, START);
    assert_eq!(s.active_session_id, 0);
}

#[test]
fn resetting_and_elapsed_time() {
    let mut typed = vec!["a".to_string()];
    let mut status = AppStatus::Recording;
    reset_app_state(&mut typed, &mut status);
    assert!(typed.is_empty());
    assert_eq!(status, AppStatus::Idle);
    assert_eq!(elapsed_ns(5, 8), 3);
    assert_eq!(elapsed_ns(8, 5), 0);
}
