use voca::audio_bars_ui::{twinkle_bits, twinkle_targets, BAR_COUNT};
use voca::hook::{hook_action, set_trigger_sender, KeyAction, VK_F11, WM_KEYDOWN, WM_SYSKEYDOWN};
use voca::settings::{
    key_file, language_checks, language_file, language_label, selected_language, toggle_language,
};
use voca::types::AppStatus;
use voca::ui::{
    no_taskbar_style, ocr_runtime_error, should_show, DictationIndicatorWrapper, Placement, TrayAction,
    MESSAGE_TIME_NS,
};
use voca::utils::{desktop_guid, wide_string, WINDOW_TITLE};

#[test]
fn language_is_read_from_its_file() {
    assert_eq!(selected_language(Some(" EN \n")), "en");
    assert_eq!(selected_language(Some("en")), "en");
    assert_eq!(selected_language(Some("english")), "hi");
    assert_eq!(selected_language(Some("")), "hi");
    assert_eq!(selected_language(None), "hi");
    for lang in ["hi", "en"] {
        assert_eq!(selected_language(Some(&language_file(lang))), lang);
    }
    assert_eq!(language_file("hi"), "hi\n");
}

#[test]
fn languages_toggle() {
    assert_eq!(toggle_language("hi"), "en");
    assert_eq!(toggle_language("en"), "hi");
    assert_eq!(toggle_language("xx"), "hi");
    assert_eq!(language_label("hi"), "Hindi");
    assert_eq!(language_label("en"), "English");
    assert_eq!(language_checks("hi"), (true, false));
    assert_eq!(language_checks("en"), (false, true));
    assert_eq!(language_checks("xx"), (false, false));
}

#[test]
fn saved_key_is_trimmed() {
    assert_eq!(key_file("  key\n"), "key");
    assert_eq!(voca::api::groq_api_key(Some(&key_file(" k "))).unwrap(), "k");
    assert!(voca::api::groq_api_key(Some(&key_file("  "))).is_err());
}

#[test]
fn hotkey_is_swallowed_and_sent() {
    let mut slot: Option<u8> = None;
    assert_eq!(hook_action(&slot, 0, WM_KEYDOWN, VK_F11), KeyAction::Swallow);
    set_trigger_sender(&mut slot, 7);
    assert_eq!(slot, Some(7));
    assert_eq!(hook_action(&slot, 0, WM_KEYDOWN, VK_F11), KeyAction::Trigger);
    assert_eq!(hook_action(&slot, 0, WM_SYSKEYDOWN, VK_F11), KeyAction::Trigger);
    assert_eq!(hook_action(&slot, 0, 0x0101, VK_F11), KeyAction::Pass);
    assert_eq!(hook_action(&slot, 0, WM_KEYDOWN, VK_F11 + 1), KeyAction::Pass);
    assert_eq!(hook_action(&slot, -1, WM_KEYDOWN, VK_F11), KeyAction::Pass);
    assert_eq!(hook_action(&slot, 3, WM_KEYDOWN, VK_F11), KeyAction::Pass);
}

#[test]
fn indicator_is_shown_while_busy() {
    assert!(!should_show(AppStatus::Idle, false));
    assert!(should_show(AppStatus::Idle, true));
    assert!(should_show(AppStatus::Recording, false));
    assert!(should_show(AppStatus::Transcribing, false));
}

#[test]
fn indicator_moves_when_it_must() {
    let mut d = DictationIndicatorWrapper::new(Some(" key "));
    assert_eq!(d.groq_api_key_input, "key");
    assert_eq!(d.place(false), Some(Placement::Offscreen));
    assert_eq!(d.place(false), None);
    assert_eq!(d.place(true), Some(Placement::TopCenter));
    assert_eq!(d.place(true), None);
    assert_eq!(d.place(false), Some(Placement::Offscreen));
    let mut e = DictationIndicatorWrapper::new(None);
    assert_eq!(e.groq_api_key_input, "");
    assert_eq!(e.place(true), Some(Placement::TopCenter));
}

#[test]
fn messages_are_set_and_expire() {
    let mut d = DictationIndicatorWrapper::new(None);
    assert_eq!(d.ocr_finished(Ok("text".to_string()), 10), Some("text".to_string()));
    assert_eq!(d.ocr_state.status_message, Some(("Copied to clipboard!".to_string(), 10)));
    d.expire_message(10 + MESSAGE_TIME_NS);
    assert!(d.ocr_state.status_message.is_some());
    d.expire_message(11 + MESSAGE_TIME_NS);
    assert!(d.ocr_state.status_message.is_none());
    assert_eq!(d.ocr_finished(Err("no".to_string()), 5), None);
    assert_eq!(d.ocr_state.status_message, Some(("OCR failed: no".to_string(), 5)));
    d.expire_message(1);
    assert!(d.ocr_state.status_message.is_some());
}

#[test]
fn menu_entries() {
    let mut d = DictationIndicatorWrapper::new(None);
    let mut tray = |id: &str| {
        let action = d.tray_event(id, "q", "s", "h", "e");
        (action, d.show_settings_window)
    };
    assert_eq!(tray("q"), (TrayAction::Quit, false));
    assert_eq!(tray("h"), (TrayAction::SelectHindi, false));
    assert_eq!(tray("e"), (TrayAction::SelectEnglish, false));
    assert_eq!(tray("x"), (TrayAction::Nothing, false));
    assert_eq!(tray("s"), (TrayAction::OpenSettings, true));
    assert_eq!(tray("x"), (TrayAction::Nothing, true));
    assert_eq!(TrayAction::SelectHindi.language(), Some("hi"));
    assert_eq!(TrayAction::SelectEnglish.language(), Some("en"));
    assert_eq!(TrayAction::Quit.language(), None);
    assert_eq!(ocr_runtime_error("x"), "Runtime error: x");
}

#[test]
fn settings_window() {
    let mut d = DictationIndicatorWrapper::new(Some("old"));
    d.show_settings_window = true;
    d.paste_key(String::new());
    assert_eq!(d.groq_api_key_input, "old");
    d.paste_key(" new ".to_string());
    assert_eq!(d.groq_api_key_input, " new ");
    assert_eq!(d.save_settings(), "new");
    assert!(!d.show_settings_window);
    d.show_settings_window = true;
    d.close_settings();
    assert!(!d.show_settings_window);
}

#[test]
fn taskbar_style() {
    assert_eq!(no_taskbar_style(0x0004_0000), Some(0x0000_0080));
    assert_eq!(no_taskbar_style(0x0000_0080), None);
    assert_eq!(no_taskbar_style(0x0000_0088), None);
    assert_eq!(no_taskbar_style(0), Some(0x80));
    assert_eq!(no_taskbar_style(-1), Some(!0x0004_0000));
    for style in [0, -1, 0x0004_0008, i32::MIN] {
        if let Some(s) = no_taskbar_style(style) {
            assert_eq!(no_taskbar_style(s), None);
        }
    }
}

#[test]
fn wide_strings_end_in_zero() {
    assert_eq!(wide_string("aé"), vec![0x61, 0xe9, 0]);
    assert_eq!(wide_string(""), vec![0]);
    assert_eq!(WINDOW_TITLE, "Voca Indicator");
}

#[test]
fn desktop_identifiers() {
    let bytes: Vec<u8> = (1..=16).collect();
    let g = desktop_guid(&bytes).unwrap();
    assert_eq!(g.data1, 0x04030201);
    assert_eq!(g.data2, 0x0605);
    assert_eq!(g.data3, 0x0807);
    assert_eq!(g.data4, [9, 10, 11, 12, 13, 14, 15, 16]);
    assert_eq!(desktop_guid(&vec![255; 16]).unwrap().data1, u32::MAX);
    assert!(desktop_guid(&vec![0; 15]).is_none());
    assert!(desktop_guid(&vec![0; 17]).is_none());
}

#[test]
fn twinkles_are_mixed_bits() {
    let mix = |seed: u64| {
        let mut x = (seed as u128 * 6364136223846793005 + 1442695040888963407) as u64;
        x ^= x >> 33;
        x = (x as u128 * 0xff51afd7ed558ccd) as u64;
        x ^= x >> 33;
        x >> 11
    };
    for seed in [0, 1, 2, 1_000, u64::MAX, u64::MAX / 3] {
        assert_eq!(twinkle_bits(seed), mix(seed));
        assert!(twinkle_bits(seed) < 1 << 53);
    }
    let targets = twinkle_targets(120);
    assert_eq!(targets.len(), BAR_COUNT);
    for (i, t) in targets.iter().enumerate() {
        assert_eq!(*t, mix(120 + i as u64));
    }
}
