//! Voca: the logic of a push-to-talk dictation service.
#![allow(unused_imports)]

pub mod api;
pub mod audio;
pub mod audio_bars_ui;
pub mod hook;
pub mod icon;
pub mod logic;
pub mod ocr;
pub mod picture;
pub mod settings;
pub mod text;
pub mod types;
pub mod typing;
pub mod ui;
pub mod utils;
pub mod wav;
pub mod whisper;
