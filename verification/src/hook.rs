//! The keyboard hook: which keys it takes for itself.
use vstd::prelude::*;

verus! {

/// The hook code for a key that may be processed.
pub const HC_ACTION: i32 = 0;

pub const WM_KEYDOWN: u32 = 0x0100;

pub const WM_SYSKEYDOWN: u32 = 0x0104;

/// The code of the key F11.
pub const VK_F11: u32 = 0x7A;

/// What becomes of a key.
#[derive(Debug, PartialEq, Eq, Structural, Clone, Copy)]
pub enum KeyAction {
    /// It goes on to the next hook.
    Pass,
    /// It is swallowed.
    Swallow,
    /// It is swallowed, and the trigger is sent.
    Trigger,
}

/// Sets where triggers are sent.
pub fn set_trigger_sender<S>(slot: &mut Option<S>, tx: S)
    ensures
        *final(slot) == Some(tx),
{
    *slot = Some(tx);
}

/// A press of the hotkey.
pub open spec fn is_hotkey(ncode: i32, msg: u32, key: u32) -> bool {
    &&& ncode == HC_ACTION
    &&& msg == WM_KEYDOWN || msg == WM_SYSKEYDOWN
    &&& key == VK_F11
}

/// Of all keys only F11, whose code is 0x7A, is ever taken, and only when it goes down, alone or
/// with Alt, in a message that may be processed.
pub proof fn only_f11_is_taken(ncode: i32, msg: u32, key: u32)
    ensures
        key != 0x7A ==> !is_hotkey(ncode, msg, key),
        ncode != 0 ==> !is_hotkey(ncode, msg, key),
        msg != 0x0100 && msg != 0x0104 ==> !is_hotkey(ncode, msg, key),
        is_hotkey(0, 0x0100, 0x7A),
        is_hotkey(0, 0x0104, 0x7A),
{
}

/// Decides what becomes of a key: a press of the hotkey is swallowed, and sent if there is where
/// to send it; anything else passes.
pub fn hook_action<S>(slot: &Option<S>, ncode: i32, msg: u32, key: u32) -> (r: KeyAction)
    ensures
        r == (if !is_hotkey(ncode, msg, key) {
            KeyAction::Pass
        } else if *slot is Some {
            KeyAction::Trigger
        } else {
            KeyAction::Swallow
        }),
        key != 0x7A ==> r == KeyAction::Pass,
        ncode != 0 ==> r == KeyAction::Pass,
        msg != 0x0100 && msg != 0x0104 ==> r == KeyAction::Pass,
        ncode == 0 && (msg == 0x0100 || msg == 0x0104) && key == 0x7A ==> r == (if *slot is Some {
            KeyAction::Trigger
        } else {
            KeyAction::Swallow
        }),
{
    if ncode == HC_ACTION && (msg == WM_KEYDOWN || msg == WM_SYSKEYDOWN) && key == VK_F11 {
        if slot.is_some() {
            KeyAction::Trigger
        } else {
            KeyAction::Swallow
        }
    } else {
        KeyAction::Pass
    }
}

} // verus!
