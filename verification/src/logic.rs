//! The dictation session: what each hotkey press and each task report changes.
//!
//! The session decides; the caller performs. A decision that needs the recorder is taken in two
//! steps: the trigger yields an action, and the outcome of that action is handed back.
use crate::api::SpeechModel;
use crate::text::{joined, texts, words};
use crate::types::{AppStatus, TranscriptionEvent, TranscriptionEventKind, TriggerEvent};
use crate::typing::{append_new_words, new_words};
use vstd::prelude::*;

verus! {

/// Presses that follow the last accepted one within this time are ignored, in nanoseconds.
pub const HOTKEY_DEBOUNCE_NS: u128 = 220_000_000;

/// A press this soon after recording began toggles the language, in nanoseconds.
pub const DOUBLE_PRESS_NS: u128 = 500_000_000;

/// How long the session waits for a hotkey before it looks for reports, in milliseconds.
pub const HOTKEY_POLL_INTERVAL_MS: u64 = 30;

/// What the caller is to do for a trigger.
#[derive(Debug, PartialEq, Eq, Structural, Clone, Copy)]
pub enum TriggerAction {
    /// Start a screen capture for text recognition.
    CaptureScreen,
    /// Nothing: the press came too soon after the last one.
    Ignore,
    /// Nothing: the previous recording is still being transcribed.
    Busy,
    /// Start recording at this rate, then report to `recording_started`.
    StartRecording { sample_rate_hz: u32 },
    /// Toggle the language, drop the recording, start anew at this rate, then report to
    /// `recording_restarted`.
    ToggleLanguage { sample_rate_hz: u32 },
    /// Stop recording, then report to `recording_stopped`.
    StopRecording,
}

/// What the caller is to do for a task report.
#[derive(Debug)]
pub enum ReportAction {
    /// Nothing.
    Ignore,
    /// Type this text.
    Type(String),
    /// The session is over.
    Finished,
    /// The session is over; show this error.
    ShowError(String),
}

/// What the caller is to do with a finished recording.
#[derive(Debug)]
pub enum StopAction {
    /// Have the recording translated.
    Translate { session_id: u64, wav_bytes: Vec<u8> },
    /// Have the recording transcribed.
    Transcribe { session_id: u64, wav_bytes: Vec<u8>, language: String },
    /// The recorder failed; show this error.
    ShowError(String),
}

/// The state of a dictation session, as contracts speak of it.
#[verifier::ext_equal]
pub struct SessionView {
    pub recording: bool,
    pub started_ns: u128,
    pub typed: Seq<Seq<char>>,
    pub last_press_ns: u128,
    pub session: u64,
    pub translation: bool,
    pub inflight: Option<u64>,
    pub status: AppStatus,
}

/// A dictation session.
pub struct Session {
    pub is_recording: bool,
    pub recording_start_ns: u128,
    pub typed_words: Vec<String>,
    pub last_hotkey_press_ns: u128,
    pub active_session_id: u64,
    pub session_is_translation: bool,
    pub transcription_inflight_for: Option<u64>,
    pub status: AppStatus,
}

impl View for Session {
    type V = SessionView;

    open spec fn view(&self) -> SessionView {
        SessionView {
            recording: self.is_recording,
            started_ns: self.recording_start_ns,
            typed: texts(self.typed_words@),
            last_press_ns: self.last_hotkey_press_ns,
            session: self.active_session_id,
            translation: self.session_is_translation,
            inflight: self.transcription_inflight_for,
            status: self.status,
        }
    }
}

/// The time from `earlier` to `now`; zero if `now` is the earlier of the two.
pub open spec fn elapsed(earlier: u128, now: u128) -> int {
    if now >= earlier {
        now - earlier
    } else {
        0
    }
}

/// The session that follows `session`.
pub open spec fn next_session(session: u64) -> u64 {
    if session == u64::MAX {
        0
    } else {
        (session + 1) as u64
    }
}

impl SessionView {
    /// Before the first trigger at or after `now`.
    pub open spec fn initial(now: u128) -> SessionView {
        SessionView {
            recording: false,
            started_ns: now,
            typed: Seq::empty(),
            last_press_ns: (now - HOTKEY_DEBOUNCE_NS) as u128,
            session: 0,
            translation: false,
            inflight: None,
            status: AppStatus::Idle,
        }
    }

    /// The typed words forgotten and the status idle.
    pub open spec fn reset(self) -> SessionView {
        SessionView { typed: Seq::empty(), status: AppStatus::Idle, ..self }
    }

    /// No transcription awaited any more, and reset.
    pub open spec fn ended(self) -> SessionView {
        SessionView { inflight: None, ..self }.reset()
    }

    /// Recording since `now`, under the next session number, with nothing typed.
    pub open spec fn begun(self, now: u128) -> SessionView {
        SessionView {
            recording: true,
            started_ns: now,
            typed: Seq::empty(),
            session: next_session(self.session),
            inflight: Some(next_session(self.session)),
            ..self
        }
    }

    /// The press of a dictation hotkey is within the debounce time.
    pub open spec fn too_soon(self, now: u128) -> bool {
        elapsed(self.last_press_ns, now) < HOTKEY_DEBOUNCE_NS
    }

    /// The press comes so soon after recording began that it toggles the language.
    pub open spec fn is_double_press(self, now: u128) -> bool {
        elapsed(self.started_ns, now) < DOUBLE_PRESS_NS
    }

    /// What a trigger asks the caller to do.
    pub open spec fn trigger_action(
        self,
        trigger: TriggerEvent,
        now: u128,
        rate: u32,
    ) -> TriggerAction {
        if trigger == TriggerEvent::Ocr {
            TriggerAction::CaptureScreen
        } else if self.too_soon(now) {
            TriggerAction::Ignore
        } else if !self.recording {
            if self.inflight is Some {
                TriggerAction::Busy
            } else {
                TriggerAction::StartRecording { sample_rate_hz: rate }
            }
        } else if self.is_double_press(now) {
            TriggerAction::ToggleLanguage { sample_rate_hz: rate }
        } else {
            TriggerAction::StopRecording
        }
    }

    /// The state after a trigger.
    pub open spec fn after_trigger(self, trigger: TriggerEvent, now: u128) -> SessionView {
        match self.trigger_action(trigger, now, 0) {
            TriggerAction::CaptureScreen => self,
            TriggerAction::Ignore => self,
            TriggerAction::Busy => SessionView { last_press_ns: now, ..self },
            TriggerAction::StartRecording { .. } => SessionView {
                last_press_ns: now,
                translation: trigger == TriggerEvent::Translate,
                ..self
            },
            TriggerAction::ToggleLanguage { .. } => SessionView {
                last_press_ns: now,
                translation: false,
                ..self
            },
            TriggerAction::StopRecording => SessionView {
                last_press_ns: now,
                recording: false,
                status: AppStatus::Transcribing,
                ..self
            },
        }
    }

    /// The state after an attempt to start recording.
    pub open spec fn after_start(self, ok: bool, now: u128) -> SessionView {
        if ok {
            SessionView { status: AppStatus::Recording, ..self.begun(now) }
        } else {
            self
        }
    }

    /// The state after an attempt to start recording anew.
    pub open spec fn after_restart(self, ok: bool, now: u128) -> SessionView {
        if ok {
            self.begun(now)
        } else {
            SessionView { recording: false, ..self }.ended()
        }
    }

    /// The state after the recorder was stopped.
    pub open spec fn after_stop(self, ok: bool) -> SessionView {
        if ok {
            self
        } else {
            self.ended()
        }
    }

    /// The state after a task report.
    pub open spec fn after_report(self, event: TranscriptionEvent) -> SessionView {
        if event.session_id != self.session {
            self
        } else {
            match event.kind {
                TranscriptionEventKind::Transcript { transcript } => SessionView {
                    typed: self.typed + new_words(self.typed, words(transcript@)),
                    ..self
                },
                TranscriptionEventKind::Completed => self.ended(),
                TranscriptionEventKind::Failed(_) => self.ended(),
            }
        }
    }

    /// What the parts of the state say of each other: recording and transcribing are what the
    /// status shows, a transcription is awaited exactly when the status is not idle, and it is
    /// that of the current session.
    pub open spec fn consistent(self) -> bool {
        &&& self.recording <==> self.status == AppStatus::Recording
        &&& self.inflight is Some <==> self.status != AppStatus::Idle
        &&& self.inflight is Some ==> self.inflight == Some(self.session)
    }
}

/// Nanoseconds from `earlier` to `now`; zero if `now` is the earlier of the two.
pub fn elapsed_ns(earlier: u128, now: u128) -> (r: u128)
    ensures
        r == elapsed(earlier, now),
{
    if now >= earlier {
        now - earlier
    } else {
        0
    }
}

/// Forgets the typed words and makes the status idle.
pub fn reset_app_state(typed_words: &mut Vec<String>, status: &mut AppStatus)
    ensures
        final(typed_words)@.len() == 0,
        *final(status) == AppStatus::Idle,
{
    typed_words.clear();
    *status = AppStatus::Idle;
}

impl Session {
    /// A session that accepts its first press at once.
    ///
    /// `now` counts nanoseconds from any fixed moment at least the debounce time in the past.
    pub fn new(now: u128) -> (r: Session)
        requires
            now >= HOTKEY_DEBOUNCE_NS,
        ensures
            r@ == SessionView::initial(now),
    {
        let r = Session {
            is_recording: false,
            recording_start_ns: now,
            typed_words: Vec::new(),
            last_hotkey_press_ns: now - HOTKEY_DEBOUNCE_NS,
            active_session_id: 0,
            session_is_translation: false,
            transcription_inflight_for: None,
            status: AppStatus::Idle,
        };
        assert(r@.typed =~= Seq::empty());
        r
    }

    /// Ends the session: no transcription is awaited any more.
    fn end(&mut self)
        ensures
            final(self)@ == old(self)@.ended(),
    {
        self.transcription_inflight_for = None;
        reset_app_state(&mut self.typed_words, &mut self.status);
        assert(self@.typed =~= Seq::empty());
    }

    /// Begins a recording under the next session number.
    fn begin(&mut self, now: u128)
        ensures
            final(self)@ == old(self)@.begun(now),
    {
        self.active_session_id = self.active_session_id.wrapping_add(1);
        self.is_recording = true;
        self.recording_start_ns = now;
        self.transcription_inflight_for = Some(self.active_session_id);
        self.typed_words.clear();
        assert(self@.typed =~= Seq::empty());
    }

    /// Decides on a hotkey.
    pub fn trigger(&mut self, trigger: TriggerEvent, now: u128, model: SpeechModel) -> (r:
        TriggerAction)
        ensures
            r == old(self)@.trigger_action(trigger, now, model.wanted_rate()),
            final(self)@ == old(self)@.after_trigger(trigger, now),
            trigger == TriggerEvent::Ocr <==> r == TriggerAction::CaptureScreen,
            r == TriggerAction::Ignore <==> trigger != TriggerEvent::Ocr && now
                < old(self).last_hotkey_press_ns + 220_000_000,
            r == TriggerAction::StopRecording <==> trigger != TriggerEvent::Ocr && now >= old(
                self,
            ).last_hotkey_press_ns + 220_000_000 && old(self).is_recording && now >= old(
                self,
            ).recording_start_ns + 500_000_000,
            r is ToggleLanguage <==> trigger != TriggerEvent::Ocr && now >= old(
                self,
            ).last_hotkey_press_ns + 220_000_000 && old(self).is_recording && now < old(
                self,
            ).recording_start_ns + 500_000_000,
            r is StartRecording <==> trigger != TriggerEvent::Ocr && now >= old(
                self,
            ).last_hotkey_press_ns + 220_000_000 && !old(self).is_recording && old(
                self,
            ).transcription_inflight_for is None,
    {
        if trigger == TriggerEvent::Ocr {
            return TriggerAction::CaptureScreen;
        }
        if elapsed_ns(self.last_hotkey_press_ns, now) < HOTKEY_DEBOUNCE_NS {
            return TriggerAction::Ignore;
        }
        self.last_hotkey_press_ns = now;
        let sample_rate_hz: u32 = model.settings_choice().preferred_sample_rate_hz();
        if !self.is_recording {
            if self.transcription_inflight_for.is_some() {
                return TriggerAction::Busy;
            }
            self.session_is_translation = trigger == TriggerEvent::Translate;
            TriggerAction::StartRecording { sample_rate_hz }
        } else if elapsed_ns(self.recording_start_ns, now) < DOUBLE_PRESS_NS {
            self.session_is_translation = false;
            TriggerAction::ToggleLanguage { sample_rate_hz }
        } else {
            self.is_recording = false;
            self.status = AppStatus::Transcribing;
            TriggerAction::StopRecording
        }
    }

    /// Takes note of whether recording started.
    pub fn recording_started(&mut self, ok: bool, now: u128)
        ensures
            final(self)@ == old(self)@.after_start(ok, now),
    {
        if ok {
            self.begin(now);
            self.status = AppStatus::Recording;
        }
    }

    /// Takes note of whether recording started anew after the language was toggled.
    pub fn recording_restarted(&mut self, ok: bool, now: u128)
        ensures
            final(self)@ == old(self)@.after_restart(ok, now),
    {
        if ok {
            self.begin(now);
        } else {
            self.is_recording = false;
            self.end();
        }
    }

    /// Decides what becomes of a finished recording.
    pub fn recording_stopped(&mut self, recording: Result<Vec<u8>, String>, language: &str) -> (r:
        StopAction)
        ensures
            final(self)@ == old(self)@.after_stop(recording is Ok),
            match (recording, r) {
                (Ok(w), StopAction::Translate { session_id, wav_bytes }) => {
                    &&& old(self)@.translation
                    &&& session_id == old(self)@.session
                    &&& wav_bytes == w
                },
                (Ok(w), StopAction::Transcribe { session_id, wav_bytes, language: l }) => {
                    &&& !old(self)@.translation
                    &&& session_id == old(self)@.session
                    &&& wav_bytes == w
                    &&& l@ == language@
                },
                (Err(e), StopAction::ShowError(m)) => m == e,
                _ => false,
            },
    {
        match recording {
            Ok(wav_bytes) => {
                if self.session_is_translation {
                    StopAction::Translate { session_id: self.active_session_id, wav_bytes }
                } else {
                    StopAction::Transcribe {
                        session_id: self.active_session_id,
                        wav_bytes,
                        language: language.to_owned(),
                    }
                }
            },
            Err(e) => {
                self.end();
                StopAction::ShowError(e)
            },
        }
    }

    /// Decides on a report of a transcription task.
    ///
    /// Reports of another session than the current one are ignored.
    pub fn report(&mut self, event: TranscriptionEvent) -> (r: ReportAction)
        ensures
            final(self)@ == old(self)@.after_report(event),
            event.session_id != old(self)@.session ==> r is Ignore,
            event.session_id == old(self)@.session ==> match event.kind {
                TranscriptionEventKind::Transcript { transcript } => {
                    let added = new_words(old(self)@.typed, words(transcript@));
                    if added.len() > 0 {
                        r matches ReportAction::Type(t) && t@ == joined(added).push(' ')
                    } else {
                        r is Ignore
                    }
                },
                TranscriptionEventKind::Completed => r is Finished,
                TranscriptionEventKind::Failed(e) => r matches ReportAction::ShowError(m) && m == e,
            },
    {
        if event.session_id != self.active_session_id {
            return ReportAction::Ignore;
        }
        match event.kind {
            TranscriptionEventKind::Transcript { transcript } => match append_new_words(
                &mut self.typed_words,
                transcript.as_str(),
            ) {
                Some(text) => ReportAction::Type(text),
                None => ReportAction::Ignore,
            },
            TranscriptionEventKind::Completed => {
                self.end();
                ReportAction::Finished
            },
            TranscriptionEventKind::Failed(e) => {
                self.end();
                ReportAction::ShowError(e)
            },
        }
    }
}

/// What a transcription task reports: the transcript and the end of the session, or the error.
pub open spec fn is_task_report(
    events: Seq<TranscriptionEvent>,
    session_id: u64,
    outcome: Result<String, String>,
) -> bool {
    match outcome {
        Ok(text) => {
            &&& events.len() == 2
            &&& events[0].session_id == session_id
            &&& events[0].kind == TranscriptionEventKind::Transcript { transcript: text }
            &&& events[1].session_id == session_id
            &&& events[1].kind is Completed
        },
        Err(e) => {
            &&& events.len() == 1
            &&& events[0].session_id == session_id
            &&& events[0].kind == TranscriptionEventKind::Failed(e)
        },
    }
}

/// The reports of a transcription task, in order.
pub fn task_events(session_id: u64, outcome: Result<String, String>) -> (r: Vec<
    TranscriptionEvent,
>)
    ensures
        is_task_report(r@, session_id, outcome),
        match outcome {
            Ok(text) => r@.len() == 2 && r@[0].kind == (TranscriptionEventKind::Transcript {
                transcript: text,
            }) && r@[1].kind == TranscriptionEventKind::Completed,
            Err(e) => r@.len() == 1 && r@[0].kind == TranscriptionEventKind::Failed(e),
        },
        forall|i: int| 0 <= i < r@.len() ==> (#[trigger] r@[i]).session_id == session_id,
{
    let mut r: Vec<TranscriptionEvent> = Vec::new();
    match outcome {
        Ok(transcript) => {
            r.push(
                TranscriptionEvent {
                    session_id,
                    kind: TranscriptionEventKind::Transcript { transcript },
                },
            );
            r.push(TranscriptionEvent { session_id, kind: TranscriptionEventKind::Completed });
        },
        Err(e) => {
            r.push(TranscriptionEvent { session_id, kind: TranscriptionEventKind::Failed(e) });
        },
    }
    r
}

/// The error of a task whose runtime could not be created.
pub fn runtime_error(error: &str) -> (r: String)
    ensures
        r@ == "Failed to create async runtime: "@ + error@,
{
    let mut r: String = "Failed to create async runtime: ".to_owned();
    r.append(error);
    r
}

/// Something that happens to a session: a hotkey with the outcome of what it asked for, or a
/// task report.
pub enum SessionStep {
    Press { trigger: TriggerEvent, now: u128, ok: bool, done: u128 },
    Report { event: TranscriptionEvent },
}

impl SessionView {
    /// The state after a hotkey and the outcome of what it asked for.
    pub open spec fn after_press(
        self,
        trigger: TriggerEvent,
        now: u128,
        ok: bool,
        done: u128,
    ) -> SessionView {
        let decided = self.after_trigger(trigger, now);
        match self.trigger_action(trigger, now, 0) {
            TriggerAction::StartRecording { .. } => decided.after_start(ok, done),
            TriggerAction::ToggleLanguage { .. } => decided.after_restart(ok, done),
            TriggerAction::StopRecording => decided.after_stop(ok),
            _ => decided,
        }
    }

    /// The state after one step.
    pub open spec fn after_step(self, step: SessionStep) -> SessionView {
        match step {
            SessionStep::Press { trigger, now, ok, done } => self.after_press(
                trigger,
                now,
                ok,
                done,
            ),
            SessionStep::Report { event } => self.after_report(event),
        }
    }

    /// A task reports on the current session only after its recording was stopped.
    pub open spec fn allows(self, step: SessionStep) -> bool {
        match step {
            SessionStep::Press { .. } => true,
            SessionStep::Report { event } => event.session_id == self.session ==> !self.recording,
        }
    }

    /// The state after several steps.
    pub open spec fn after_steps(self, steps: Seq<SessionStep>) -> SessionView
        decreases steps.len(),
    {
        if steps.len() == 0 {
            self
        } else {
            self.after_steps(steps.drop_last()).after_step(steps.last())
        }
    }

    /// Each of several steps is allowed where it happens.
    pub open spec fn allows_all(self, steps: Seq<SessionStep>) -> bool {
        forall|i: int|
            0 <= i < steps.len() ==> self.after_steps(#[trigger] steps.take(i)).allows(steps[i])
    }

    /// The state after several task reports.
    pub open spec fn after_reports(self, events: Seq<TranscriptionEvent>) -> SessionView
        decreases events.len(),
    {
        if events.len() == 0 {
            self
        } else {
            self.after_reports(events.drop_last()).after_report(events.last())
        }
    }
}

/// The view shows the fields of the session as they are.
pub proof fn view_shows_the_session(s: Session)
    ensures
        s@.recording == s.is_recording,
        s@.started_ns == s.recording_start_ns,
        s@.typed.len() == s.typed_words@.len(),
        forall|i: int| 0 <= i < s.typed_words@.len() ==> s@.typed[i] == #[trigger] s.typed_words@[i]@,
        s@.last_press_ns == s.last_hotkey_press_ns,
        s@.session == s.active_session_id,
        s@.translation == s.session_is_translation,
        s@.inflight == s.transcription_inflight_for,
        s@.status == s.status,
{
}

/// The time between two moments is what the later one is ahead of the earlier one, and nothing
/// where it is not ahead.
pub proof fn time_passes(earlier: u128, now: u128)
    ensures
        now >= earlier ==> earlier + elapsed(earlier, now) == now,
        now <= earlier ==> elapsed(earlier, now) == 0,
{
}

/// A press of a dictation hotkey is ignored exactly if it comes less than 220 ms after the last
/// one, and then nothing changes.
pub proof fn presses_count_from_220_ms_on(
    s: SessionView,
    trigger: TriggerEvent,
    now: u128,
    rate: u32,
)
    requires
        trigger != TriggerEvent::Ocr,
    ensures
        now < s.last_press_ns + 220_000_000 ==> s.trigger_action(trigger, now, rate)
            == TriggerAction::Ignore && s.after_trigger(trigger, now) == s,
        now >= s.last_press_ns + 220_000_000 ==> s.trigger_action(trigger, now, rate)
            != TriggerAction::Ignore && s.after_trigger(trigger, now).last_press_ns == now,
{
}

/// While recording, a press that counts stops the recording if at least 500 ms have passed since
/// it began, and toggles the language if fewer have.
pub proof fn recordings_stop_from_500_ms_on(
    s: SessionView,
    trigger: TriggerEvent,
    now: u128,
    rate: u32,
)
    requires
        s.recording,
        trigger != TriggerEvent::Ocr,
        now >= s.last_press_ns + 220_000_000,
    ensures
        now >= s.started_ns + 500_000_000 ==> {
            let next = s.after_trigger(trigger, now);
            &&& s.trigger_action(trigger, now, rate) == TriggerAction::StopRecording
            &&& next.status == AppStatus::Transcribing
            &&& !next.recording
            &&& next.translation == s.translation
            &&& next.session == s.session && next.inflight == s.inflight
            &&& next.started_ns == s.started_ns && next.typed == s.typed
        },
        now < s.started_ns + 500_000_000 ==> {
            let next = s.after_trigger(trigger, now);
            &&& s.trigger_action(trigger, now, rate) == (TriggerAction::ToggleLanguage {
                sample_rate_hz: rate,
            })
            &&& next.status == s.status
            &&& next.recording
            &&& !next.translation
            &&& next.session == s.session && next.inflight == s.inflight
            &&& next.started_ns == s.started_ns && next.typed == s.typed
        },
{
}

/// While not recording, a press that counts starts a recording, for translation exactly if the
/// hotkey is the one for it; but not while a transcription is awaited.
pub proof fn idle_presses_start_recordings(
    s: SessionView,
    trigger: TriggerEvent,
    now: u128,
    rate: u32,
)
    requires
        !s.recording,
        trigger != TriggerEvent::Ocr,
        now >= s.last_press_ns + 220_000_000,
    ensures
        ({
            let action = s.trigger_action(trigger, now, rate);
            let next = s.after_trigger(trigger, now);
            &&& s.inflight is None ==> action == (TriggerAction::StartRecording {
                sample_rate_hz: rate,
            }) && next.translation == (trigger == TriggerEvent::Translate)
            &&& s.inflight is Some ==> action == TriggerAction::Busy && next.translation
                == s.translation
            &&& !next.recording
            &&& next.status == s.status
            &&& next.session == s.session && next.inflight == s.inflight
            &&& next.started_ns == s.started_ns && next.typed == s.typed
        }),
{
}

/// The hotkey for a screen capture always captures, whenever it comes and whatever goes on.
pub proof fn captures_are_never_held_back(s: SessionView, now: u128, rate: u32)
    ensures
        s.trigger_action(TriggerEvent::Ocr, now, rate) == TriggerAction::CaptureScreen,
        s.after_trigger(TriggerEvent::Ocr, now) == s,
{
}

/// A recording that starts, at first or anew, has the next session number, nothing typed, and its
/// transcription awaited; one that does not start leaves an idle session as it was, and ends one
/// that was to record on.
pub proof fn recordings_begin_afresh(s: SessionView, now: u128)
    ensures
        ({
            let a = s.after_start(true, now);
            let b = s.after_restart(true, now);
            let f = s.after_restart(false, now);
            &&& a.recording && b.recording
            &&& a.started_ns == now && b.started_ns == now
            &&& a.typed.len() == 0 && b.typed.len() == 0
            &&& s.session < u64::MAX ==> a.session == s.session + 1
            &&& s.session == u64::MAX ==> a.session == 0
            &&& b.session == a.session
            &&& a.inflight == Some(a.session) && b.inflight == Some(b.session)
            &&& a.status == AppStatus::Recording && b.status == s.status
            &&& a.last_press_ns == s.last_press_ns && b.last_press_ns == s.last_press_ns
            &&& a.translation == s.translation && b.translation == s.translation
            &&& s.after_start(false, now) == s
            &&& !f.recording && f.inflight is None && f.typed.len() == 0
            &&& f.status == AppStatus::Idle
            &&& f.session == s.session && f.started_ns == s.started_ns
            &&& f.last_press_ns == s.last_press_ns && f.translation == s.translation
        }),
{
}

/// A recording that was stopped keeps the session waiting for its transcription; one that could
/// not be stopped ends the session.
pub proof fn failed_stops_end_the_session(s: SessionView)
    ensures
        s.after_stop(true) == s,
        ({
            let f = s.after_stop(false);
            &&& f.inflight is None && f.typed.len() == 0 && f.status == AppStatus::Idle
            &&& f.recording == s.recording && f.started_ns == s.started_ns
            &&& f.session == s.session && f.translation == s.translation
            &&& f.last_press_ns == s.last_press_ns
        }),
{
}

/// A report on another session changes nothing. On the current one a transcript changes only the
/// words typed, to which it adds; the end or a failure forgets them and awaits nothing any more.
pub proof fn reports_change_their_session_only(s: SessionView, event: TranscriptionEvent)
    ensures
        event.session_id != s.session ==> s.after_report(event) == s,
        event.session_id == s.session ==> {
            let next = s.after_report(event);
            &&& next.recording == s.recording && next.started_ns == s.started_ns
            &&& next.session == s.session && next.translation == s.translation
            &&& next.last_press_ns == s.last_press_ns
            &&& match event.kind {
                TranscriptionEventKind::Transcript { transcript } => {
                    &&& next.typed == s.typed + new_words(s.typed, words(transcript@))
                    &&& next.inflight == s.inflight && next.status == s.status
                },
                _ => {
                    &&& next.typed.len() == 0
                    &&& next.inflight is None && next.status == AppStatus::Idle
                },
            }
        },
{
}

/// A task reports the transcript and then the end of its session, or its failure, and nothing
/// else.
pub proof fn tasks_report_their_outcome(
    events: Seq<TranscriptionEvent>,
    session_id: u64,
    outcome: Result<String, String>,
)
    requires
        is_task_report(events, session_id, outcome),
    ensures
        match outcome {
            Ok(text) => {
                &&& events.len() == 2
                &&& events[0].session_id == session_id && events[1].session_id == session_id
                &&& events[0].kind == TranscriptionEventKind::Transcript { transcript: text }
                &&& events[1].kind == TranscriptionEventKind::Completed
            },
            Err(e) => {
                &&& events.len() == 1
                &&& events[0].session_id == session_id
                &&& events[0].kind == TranscriptionEventKind::Failed(e)
            },
        },
{
}

/// A new session is idle, has typed and awaits nothing, and takes its first press at once.
pub proof fn new_sessions_take_the_first_press(now: u128, trigger: TriggerEvent, rate: u32)
    requires
        now >= 220_000_000,
        trigger != TriggerEvent::Ocr,
    ensures
        ({
            let s = SessionView::initial(now);
            &&& !s.recording && s.typed.len() == 0 && s.inflight is None && !s.translation
            &&& s.status == AppStatus::Idle && s.session == 0
            &&& s.started_ns == now && s.last_press_ns == now - 220_000_000
            &&& s.trigger_action(trigger, now, rate) == (TriggerAction::StartRecording {
                sample_rate_hz: rate,
            })
        }),
{
}

/// Every state that a session can reach is consistent.
pub proof fn reachable_sessions_are_consistent(now: u128, steps: Seq<SessionStep>)
    requires
        now >= HOTKEY_DEBOUNCE_NS,
        SessionView::initial(now).allows_all(steps),
    ensures
        SessionView::initial(now).after_steps(steps).consistent(),
    decreases steps.len(),
{
    let start = SessionView::initial(now);
    if steps.len() > 0 {
        let init = steps.drop_last();
        assert forall|i: int| 0 <= i < init.len() implies start.after_steps(
            #[trigger] init.take(i),
        ).allows(init[i]) by {
            assert(init.take(i) =~= steps.take(i));
        }
        reachable_sessions_are_consistent(now, init);
        assert(steps.take(steps.len() - 1) =~= init);
    }
}

/// A screen capture leaves the dictation session as it is.
pub proof fn capture_leaves_the_session_alone(s: SessionView, now: u128, ok: bool, done: u128)
    ensures
        s.after_press(TriggerEvent::Ocr, now, ok, done) == s,
{
}

/// After an accepted press, any dictation press within the debounce time is ignored and changes
/// nothing.
pub proof fn presses_are_debounced(
    s: SessionView,
    first: TriggerEvent,
    first_ns: u128,
    ok: bool,
    done: u128,
    second: TriggerEvent,
    second_ns: u128,
    rate: u32,
)
    requires
        first != TriggerEvent::Ocr,
        second != TriggerEvent::Ocr,
        !s.too_soon(first_ns),
        second_ns < first_ns + HOTKEY_DEBOUNCE_NS,
    ensures
        ({
            let mid = s.after_press(first, first_ns, ok, done);
            &&& mid.trigger_action(second, second_ns, rate) == TriggerAction::Ignore
            &&& mid.after_trigger(second, second_ns) == mid
        }),
{
}

/// While a recording is being transcribed no hotkey starts another one: a press changes nothing
/// but the time of the last press.
pub proof fn no_recording_while_transcribing(
    s: SessionView,
    trigger: TriggerEvent,
    now: u128,
    ok: bool,
    done: u128,
)
    requires
        s.consistent(),
        s.status == AppStatus::Transcribing,
    ensures
        ({
            let next = s.after_press(trigger, now, ok, done);
            next == SessionView { last_press_ns: next.last_press_ns, ..s }
        }),
{
}

/// A second press soon after recording began, but after the debounce time, toggles the language
/// and keeps recording, under a new session and for transcription.
pub proof fn double_press_toggles_and_records_on(
    s: SessionView,
    trigger: TriggerEvent,
    now: u128,
    done: u128,
    rate: u32,
)
    requires
        s.consistent(),
        s.status == AppStatus::Recording,
        trigger != TriggerEvent::Ocr,
        !s.too_soon(now),
        s.is_double_press(now),
    ensures
        s.trigger_action(trigger, now, rate) == (TriggerAction::ToggleLanguage {
            sample_rate_hz: rate,
        }),
        ({
            let next = s.after_press(trigger, now, true, done);
            &&& next.status == AppStatus::Recording
            &&& next.session == next_session(s.session)
            &&& !next.translation
            &&& next.typed.len() == 0
        }),
{
}

/// Reports on a recording that was dropped by toggling the language change nothing.
pub proof fn dropped_recordings_are_silent(
    s: SessionView,
    now: u128,
    event: TranscriptionEvent,
)
    requires
        event.session_id == s.session,
    ensures
        s.after_restart(true, now).after_report(event) == s.after_restart(true, now),
{
}

/// What the task of the current session reports ends the session: it is idle again with nothing
/// awaited, and the next press starts a recording.
pub proof fn task_reports_end_the_session(
    s: SessionView,
    events: Seq<TranscriptionEvent>,
    outcome: Result<String, String>,
    trigger: TriggerEvent,
    now: u128,
    rate: u32,
)
    requires
        !s.recording,
        is_task_report(events, s.session, outcome),
        trigger != TriggerEvent::Ocr,
        !s.too_soon(now),
    ensures
        s.after_reports(events) == s.ended(),
        s.ended().trigger_action(trigger, now, rate) == (TriggerAction::StartRecording {
            sample_rate_hz: rate,
        }),
{
    reveal_with_fuel(SessionView::after_reports, 3);
    let typed = s.after_report(events[0]);
    if outcome is Ok {
        assert(events.drop_last().last() == events[0]);
        assert(typed.ended() == s.ended());
    }
}

} // verus!
