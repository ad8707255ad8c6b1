//! Input events and hit-testing results for the browser shell.

use vstd::prelude::*;

use crate::types::{Point, Size};

verus! {

/// Mouse buttons.
#[derive(Debug, Clone, Copy, PartialEq, Eq, Structural)]
pub enum MouseButton {
    Left,
    Right,
    Middle,
}

/// Keys the shell distinguishes.
#[derive(Debug, Clone, Copy, PartialEq, Eq, Structural)]
pub enum Key {
    Backspace,
    Tab,
    Enter,
    Escape,
    Space,
    ArrowLeft,
    ArrowRight,
    ArrowUp,
    ArrowDown,
    F1,
    F2,
    F3,
    F4,
    F5,
    F6,
    F7,
    F8,
    F9,
    F10,
    F11,
    F12,
    Shift,
    Control,
    Alt,
    Meta,
    A,
    B,
    C,
    D,
    E,
    F,
    G,
    H,
    I,
    J,
    K,
    L,
    M,
    N,
    O,
    P,
    Q,
    R,
    S,
    T,
    U,
    V,
    W,
    X,
    Y,
    Z,
    Key0,
    Key1,
    Key2,
    Key3,
    Key4,
    Key5,
    Key6,
    Key7,
    Key8,
    Key9,
    Unknown,
}

/// Modifier flags held during a key event.
#[derive(Debug, Clone, Copy, PartialEq, Eq, Structural)]
pub struct KeyModifiers {
    pub shift: bool,
    pub control: bool,
    pub alt: bool,
    pub meta: bool,
}

impl Default for KeyModifiers {
    /// No modifiers held.
    fn default() -> (r: KeyModifiers)
        ensures
            r == (KeyModifiers { shift: false, control: false, alt: false, meta: false }),
    {
        KeyModifiers { shift: false, control: false, alt: false, meta: false }
    }
}

/// Input events the shell dispatches.
#[derive(Debug, Clone, PartialEq)]
pub enum InputEvent {
    MouseClick { position: Point, button: MouseButton },
    MouseMove { position: Point },
    KeyPress { key: Key, modifiers: KeyModifiers },
    KeyRelease { key: Key, modifiers: KeyModifiers },
    TextInput { text: String },
    WindowResize { new_size: Size },
}

/// What a point hit in the shell's own chrome.
#[derive(Debug, Clone, PartialEq)]
pub enum HitTestResult {
    Miss,
    Tab { tab_id: String, is_close_button: bool },
    NewTabButton,
    NavigationButton { button_type: NavigationButtonType },
    UrlInput,
    ContentArea,
}

/// Navigation buttons of the toolbar.
#[derive(Debug, Clone, Copy, PartialEq, Eq, Structural)]
pub enum NavigationButtonType {
    Back,
    Forward,
    Refresh,
}

} // verus!
