//! The plain values exchanged with the display server: event tags, modifier
//! and event masks, incoming events and outgoing requests.

use vstd::prelude::*;

verus! {

/// Event tag of a key press.
pub const KEY_PRESS_EVENT: u8 = 2;

/// Event tag of a pointer button press.
pub const BUTTON_PRESS_EVENT: u8 = 4;

/// Event tag of a pointer button release.
pub const BUTTON_RELEASE_EVENT: u8 = 5;

/// Event tag of the pointer entering a window.
pub const ENTER_NOTIFY_EVENT: u8 = 7;

/// Event tag of a window gaining the input focus.
pub const FOCUS_IN_EVENT: u8 = 9;

/// Event tag of a window losing the input focus.
pub const FOCUS_OUT_EVENT: u8 = 10;

/// Event tag of a window being destroyed.
pub const DESTROY_NOTIFY_EVENT: u8 = 17;

/// Event tag of a window having been mapped.
pub const MAP_NOTIFY_EVENT: u8 = 19;

/// Event tag of a client asking to map a window.
pub const MAP_REQUEST_EVENT: u8 = 20;

/// Event tag of a change of the keyboard mapping.
pub const MAPPING_NOTIFY_EVENT: u8 = 34;

/// Modifier flag: Shift.
pub const MOD_SHIFT: u32 = 0x0001;

/// Modifier flag: Caps Lock.
pub const MOD_LOCK: u32 = 0x0002;

/// Modifier flag: Control.
pub const MOD_CONTROL: u32 = 0x0004;

/// Modifier flag: Mod1 (usually Alt).
pub const MOD_1: u32 = 0x0008;

/// Modifier flag: Mod2.
pub const MOD_2: u32 = 0x0010;

/// Modifier flag: Mod3.
pub const MOD_3: u32 = 0x0020;

/// Modifier flag: Mod4 (usually Super).
pub const MOD_4: u32 = 0x0040;

/// Modifier flag: Mod5.
pub const MOD_5: u32 = 0x0080;

/// Modifier flag of a grab that stands for every combination of modifiers.
pub const MOD_ANY: u32 = 0x8000;

/// Every bit that a grab's modifier mask may hold.
pub const GRAB_MODIFIER_BITS: u32 = 0x80ff;

/// What the root window is subscribed to: substructure redirect, structure
/// notify, substructure notify, property change and pointer motion.
pub const ROOT_EVENT_MASK: u32 = 0x005a_0040;

/// What a grabbed pointer button reports: button press and button release.
pub const BUTTON_EVENT_MASK: u32 = 0x0000_000c;

/// The pointer button that starts moving a window.
pub const MOVE_BUTTON: u8 = 1;

/// The pointer button that starts resizing a window.
pub const RESIZE_BUTTON: u8 = 3;

/// One event as the display server delivered it. `keycode` and `state` are
/// the key and the modifier state of a key press; other events leave them 0.
#[derive(Debug, Clone, Copy, PartialEq, Eq)]
pub struct IncomingEvent {
    pub event_tag: u8,
    pub keycode: u8,
    pub state: u32,
}

/// One request to the display server, scoped to the root window.
#[derive(Debug, Clone, Copy, PartialEq, Eq)]
pub enum Request {
    /// Subscribe the root window to the events of the given mask.
    ChangeRootEventMask { event_mask: u32 },
    /// Release every key grab on the root window.
    UngrabAllKeys,
    /// Grab one key under one exact modifier mask.
    GrabKey { modifiers: u32, keycode: u8 },
    /// Grab one pointer button under one modifier mask.
    GrabButton { button: u8, modifiers: u32, event_mask: u32 },
    /// Force the requests issued so far to the server.
    Flush,
}

impl IncomingEvent {
    /// A key press of `keycode` under the modifier state `state`.
    pub fn key_press(keycode: u8, state: u32) -> (r: IncomingEvent)
        ensures
            r == (IncomingEvent { event_tag: KEY_PRESS_EVENT, keycode, state }),
    {
        IncomingEvent { event_tag: KEY_PRESS_EVENT, keycode, state }
    }

    /// An event that carries nothing the core reads but its tag.
    pub fn tagged(event_tag: u8) -> (r: IncomingEvent)
        ensures
            r == (IncomingEvent { event_tag, keycode: 0, state: 0 }),
    {
        IncomingEvent { event_tag, keycode: 0, state: 0 }
    }

    /// Whether the event is a key press.
    pub fn is_key_press(&self) -> (r: bool)
        ensures
            r == (self.event_tag == KEY_PRESS_EVENT),
    {
        self.event_tag == KEY_PRESS_EVENT
    }
}

} // verus!
