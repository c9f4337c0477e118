//! The indicator: when it is shown, what its menu and its settings window do, and its messages.
use crate::logic::{elapsed, elapsed_ns};
use crate::ocr::OcrState;
use crate::settings::key_file;
use crate::text::{same_text, trim, trimmed};
use crate::types::AppStatus;
use vstd::prelude::*;

verus! {

/// How long a status message stays, in nanoseconds.
pub const MESSAGE_TIME_NS: u128 = 3_000_000_000;

/// The window style of a window with a taskbar button.
pub const WS_EX_APPWINDOW: i32 = 0x0004_0000;

/// The window style of a window without a taskbar button.
pub const WS_EX_TOOLWINDOW: i32 = 0x0000_0080;

/// Where the indicator goes.
#[derive(Debug, PartialEq, Eq, Structural, Clone, Copy)]
pub enum Placement {
    /// To the top of the current desktop.
    TopCenter,
    /// Out of sight.
    Offscreen,
}

/// What a menu entry does.
#[derive(Debug, PartialEq, Eq, Structural, Clone, Copy)]
pub enum TrayAction {
    /// Ends the program.
    Quit,
    /// Opens the settings window.
    OpenSettings,
    /// Selects Hindi.
    SelectHindi,
    /// Selects English.
    SelectEnglish,
    /// Nothing: the entry is none of these.
    Nothing,
}

impl TrayAction {
    /// The language that a menu entry selects, if it selects one.
    pub fn language(self) -> (r: Option<&'static str>)
        ensures
            match self {
                TrayAction::SelectHindi => r is Some && r->0@ == "hi"@,
                TrayAction::SelectEnglish => r is Some && r->0@ == "en"@,
                _ => r is None,
            },
    {
        match self {
            TrayAction::SelectHindi => Some("hi"),
            TrayAction::SelectEnglish => Some("en"),
            _ => None,
        }
    }
}

/// The error of a picture that could not be read for want of a runtime.
pub fn ocr_runtime_error(error: &str) -> (r: String)
    ensures
        r@ == "Runtime error: "@ + error@,
{
    let mut r: String = "Runtime error: ".to_owned();
    r.append(error);
    r
}

/// The state of the indicator.
pub struct DictationIndicatorWrapper {
    pub was_visible: bool,
    pub visibility_initialized: bool,
    pub show_settings_window: bool,
    pub groq_api_key_input: String,
    pub ocr_state: OcrState,
}

/// The place for an indicator that is to be seen or not.
pub open spec fn place_for(show: bool) -> Placement {
    if show {
        Placement::TopCenter
    } else {
        Placement::Offscreen
    }
}

/// Tells whether the indicator is to be seen: while the service is busy, and while it shows a
/// change of language.
pub fn should_show(status: AppStatus, toast_active: bool) -> (r: bool)
    ensures
        r == (status != AppStatus::Idle || toast_active),
{
    status != AppStatus::Idle || toast_active
}

impl DictationIndicatorWrapper {
    /// The message and when it was set.
    pub open spec fn message(self) -> Option<(Seq<char>, u128)> {
        match self.ocr_state.status_message {
            Some((text, at)) => Some((text@, at)),
            None => None,
        }
    }

    /// All but the message is the same.
    pub open spec fn same_but_message(self, other: DictationIndicatorWrapper) -> bool {
        &&& self.was_visible == other.was_visible
        &&& self.visibility_initialized == other.visibility_initialized
        &&& self.show_settings_window == other.show_settings_window
        &&& self.groq_api_key_input == other.groq_api_key_input
    }

    /// Where the indicator must move: at first, and when it comes into sight or goes out of it.
    pub open spec fn move_for(self, show: bool) -> Option<Placement> {
        if !self.visibility_initialized || self.was_visible != show {
            Some(place_for(show))
        } else {
            None
        }
    }

    /// The indicator in its place.
    pub open spec fn after_place(self, show: bool) -> DictationIndicatorWrapper {
        DictationIndicatorWrapper { was_visible: show, visibility_initialized: true, ..self }
    }

    /// An indicator that has not been placed, with the key that its file holds.
    pub fn new(key_file_text: Option<&str>) -> (r: DictationIndicatorWrapper)
        ensures
            !r.was_visible,
            !r.visibility_initialized,
            !r.show_settings_window,
            r.groq_api_key_input@ == (match key_file_text {
                Some(text) => trimmed(text@),
                None => Seq::empty(),
            }),
            r.message() is None,
    {
        let groq_api_key_input: String = match key_file_text {
            Some(text) => trim(text),
            None => String::new(),
        };
        DictationIndicatorWrapper {
            was_visible: false,
            visibility_initialized: false,
            show_settings_window: false,
            groq_api_key_input,
            ocr_state: OcrState::default(),
        }
    }

    /// Takes the outcome of reading a picture, and returns the text for the clipboard.
    pub fn ocr_finished(&mut self, outcome: Result<String, String>, now: u128) -> (r: Option<
        String,
    >)
        ensures
            final(self).same_but_message(*old(self)),
            match outcome {
                Ok(text) => {
                    &&& r == Some(text)
                    &&& final(self).message() == Some(("Copied to clipboard!"@, now))
                },
                Err(e) => {
                    &&& r is None
                    &&& final(self).message() == Some(("OCR failed: "@ + e@, now))
                },
            },
    {
        match outcome {
            Ok(text) => {
                self.ocr_state.status_message = Some(("Copied to clipboard!".to_owned(), now));
                Some(text)
            },
            Err(e) => {
                let mut message: String = "OCR failed: ".to_owned();
                message.append(e.as_str());
                self.ocr_state.status_message = Some((message, now));
                None
            },
        }
    }

    /// Drops the message once its time is over.
    pub fn expire_message(&mut self, now: u128)
        ensures
            final(self).same_but_message(*old(self)),
            old(self).ocr_state.status_message matches Some((_, at)) ==>
                final(self).ocr_state.status_message is Some == (now <= at + 3_000_000_000),
            final(self).message() == (match old(self).message() {
                Some((text, at)) => if elapsed(at, now) > MESSAGE_TIME_NS {
                    None
                } else {
                    Some((text, at))
                },
                None => None,
            }),
    {
        let over: bool = match &self.ocr_state.status_message {
            Some((_, at)) => elapsed_ns(*at, now) > MESSAGE_TIME_NS,
            None => false,
        };
        if over {
            self.ocr_state.status_message = None;
        }
    }

    /// Takes a menu event: the entries are known by their names.
    pub fn tray_event(
        &mut self,
        event: &str,
        quit: &str,
        settings: &str,
        hindi: &str,
        english: &str,
    ) -> (r: TrayAction)
        ensures
            r == (if event@ == quit@ {
                TrayAction::Quit
            } else if event@ == settings@ {
                TrayAction::OpenSettings
            } else if event@ == hindi@ {
                TrayAction::SelectHindi
            } else if event@ == english@ {
                TrayAction::SelectEnglish
            } else {
                TrayAction::Nothing
            }),
            *final(self) == (DictationIndicatorWrapper {
                show_settings_window: old(self).show_settings_window || r
                    == TrayAction::OpenSettings,
                ..*old(self)
            }),
    {
        if same_text(event, quit) {
            TrayAction::Quit
        } else if same_text(event, settings) {
            self.show_settings_window = true;
            TrayAction::OpenSettings
        } else if same_text(event, hindi) {
            TrayAction::SelectHindi
        } else if same_text(event, english) {
            TrayAction::SelectEnglish
        } else {
            TrayAction::Nothing
        }
    }

    /// Says where the indicator must move, if it must: at first, and when it comes into sight or
    /// goes out of it.
    pub fn place(&mut self, show: bool) -> (r: Option<Placement>)
        ensures
            r == old(self).move_for(show),
            *final(self) == old(self).after_place(show),
    {
        let moves: bool = !self.visibility_initialized || show != self.was_visible;
        self.visibility_initialized = true;
        self.was_visible = show;
        if !moves {
            None
        } else if show {
            Some(Placement::TopCenter)
        } else {
            Some(Placement::Offscreen)
        }
    }

    /// Takes the clipboard as the key, unless the clipboard is empty.
    pub fn paste_key(&mut self, clipboard: String)
        ensures
            *final(self) == (DictationIndicatorWrapper {
                groq_api_key_input: if clipboard@.len() > 0 {
                    clipboard
                } else {
                    old(self).groq_api_key_input
                },
                ..*old(self)
            }),
    {
        if !clipboard.as_str().is_empty() {
            self.groq_api_key_input = clipboard;
        }
    }

    /// Closes the settings window and returns what to write to the file of the key.
    pub fn save_settings(&mut self) -> (r: String)
        ensures
            r@ == trimmed(old(self).groq_api_key_input@),
            *final(self) == (DictationIndicatorWrapper {
                show_settings_window: false,
                ..*old(self)
            }),
    {
        self.show_settings_window = false;
        key_file(self.groq_api_key_input.as_str())
    }

    /// Closes the settings window.
    pub fn close_settings(&mut self)
        ensures
            *final(self) == (DictationIndicatorWrapper {
                show_settings_window: false,
                ..*old(self)
            }),
    {
        self.show_settings_window = false;
    }
}

/// The window style without a taskbar button.
pub open spec fn hidden_style(style: i32) -> i32 {
    (style & !WS_EX_APPWINDOW) | WS_EX_TOOLWINDOW
}

/// The window style to set so that the window has no taskbar button, if it must change.
pub fn no_taskbar_style(style: i32) -> (r: Option<i32>)
    ensures
        r == (if hidden_style(style) == style {
            None
        } else {
            Some(hidden_style(style))
        }),
{
    let updated: i32 = (style & !WS_EX_APPWINDOW) | WS_EX_TOOLWINDOW;
    if updated != style {
        Some(updated)
    } else {
        None
    }
}

/// The indicator moves exactly if it was never placed or is not where it is to be, and then to the
/// top if it is to be seen and out of sight if not.
pub proof fn indicator_moves_where_it_must_be(d: DictationIndicatorWrapper, show: bool)
    ensures
        d.visibility_initialized && d.was_visible == show ==> d.move_for(show) is None,
        !d.visibility_initialized || d.was_visible != show ==> d.move_for(show) == (if show {
            Some(Placement::TopCenter)
        } else {
            Some(Placement::Offscreen)
        }),
        ({
            let next = d.after_place(show);
            &&& next.was_visible == show && next.visibility_initialized
            &&& next.show_settings_window == d.show_settings_window
            &&& next.groq_api_key_input == d.groq_api_key_input
            &&& next.ocr_state == d.ocr_state
        }),
{
}

/// The message of the indicator is the one in its state, with the time it was set.
pub proof fn message_is_the_one_set(d: DictationIndicatorWrapper)
    ensures
        d.ocr_state.status_message is None <==> d.message() is None,
        d.ocr_state.status_message matches Some((text, at)) ==> d.message() == Some((text@, at)),
{
}

/// What has the same but the message has all else the same.
pub proof fn all_but_the_message(a: DictationIndicatorWrapper, b: DictationIndicatorWrapper)
    ensures
        a.same_but_message(b) <==> a == (DictationIndicatorWrapper { ocr_state: a.ocr_state, ..b }),
{
}

/// The changed style has no taskbar button, keeps all other bits, and needs no further change.
pub proof fn hidden_style_is_stable(style: i32)
    ensures
        hidden_style(style) & 0x0004_0000i32 == 0,
        hidden_style(style) & 0x0000_0080i32 == 0x0000_0080i32,
        hidden_style(style) & !0x0004_0080i32 == style & !0x0004_0080i32,
        hidden_style(hidden_style(style)) == hidden_style(style),
{
    assert(((style & !0x0004_0000i32) | 0x0000_0080i32) & 0x0004_0000i32 == 0) by (bit_vector);
    assert(((style & !0x0004_0000i32) | 0x0000_0080i32) & 0x0000_0080i32 == 0x0000_0080i32)
        by (bit_vector);
    assert(((style & !0x0004_0000i32) | 0x0000_0080i32) & !0x0004_0080i32 == style
        & !0x0004_0080i32) by (bit_vector);
    assert((((style & !0x0004_0000i32) | 0x0000_0080i32) & !0x0004_0000i32) | 0x0000_0080i32 == (
    style & !0x0004_0000i32) | 0x0000_0080i32) by (bit_vector);
}

/// An indicator that is in its place stays there, and one that is not moves.
pub proof fn placed_indicator_stays(d: DictationIndicatorWrapper, show: bool)
    ensures
        d.after_place(show).move_for(show) is None,
        d.after_place(show).after_place(show) == d.after_place(show),
        d.after_place(show).move_for(!show) == Some(place_for(!show)),
{
}

} // verus!
