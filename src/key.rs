use vstd::prelude::*;

verus! {

/// A virtual key, independent of the physical layout of the keyboard.
#[derive(Clone, Copy, Debug, PartialEq, Eq, Structural, Hash)]
pub enum AbstractKey {
    Alt,
    AltGr,
    Backspace,
    CapsLock,
    ControlLeft,
    ControlRight,
    Delete,
    DownArrow,
    End,
    Escape,
    F1,
    F10,
    F11,
    F12,
    F2,
    F3,
    F4,
    F5,
    F6,
    F7,
    F8,
    F9,
    Home,
    LeftArrow,
    MetaLeft,
    MetaRight,
    PageDown,
    PageUp,
    Return,
    RightArrow,
    ShiftLeft,
    ShiftRight,
    Space,
    Tab,
    UpArrow,
    PrintScreen,
    ScrollLock,
    Pause,
    NumLock,
    BackQuote,
    Num1,
    Num2,
    Num3,
    Num4,
    Num5,
    Num6,
    Num7,
    Num8,
    Num9,
    Num0,
    Minus,
    Equal,
    KeyQ,
    KeyW,
    KeyE,
    KeyR,
    KeyT,
    KeyY,
    KeyU,
    KeyI,
    KeyO,
    KeyP,
    LeftBracket,
    RightBracket,
    KeyA,
    KeyS,
    KeyD,
    KeyF,
    KeyG,
    KeyH,
    KeyJ,
    KeyK,
    KeyL,
    SemiColon,
    Quote,
    BackSlash,
    IntlBackslash,
    KeyZ,
    KeyX,
    KeyC,
    KeyV,
    KeyB,
    KeyN,
    KeyM,
    Comma,
    Dot,
    Slash,
    Insert,
    KpReturn,
    KpMinus,
    KpPlus,
    KpMultiply,
    KpDivide,
    Kp0,
    Kp1,
    Kp2,
    Kp3,
    Kp4,
    Kp5,
    Kp6,
    Kp7,
    Kp8,
    Kp9,
    KpDelete,
    Function,
    Unknown(u32),
}

/// One atomic key primitive handed on for injection.
#[derive(Clone, Copy, Debug, PartialEq, Eq, Structural, Hash)]
pub enum KeyEvent {
    Press(AbstractKey),
    Release(AbstractKey),
}

/// The keys whose "currently down" latch at the OS level can fall out of step with
/// simulated events, and which therefore get a flush before their own release.
pub open spec fn is_sticky_modifier(k: AbstractKey) -> bool {
    k == AbstractKey::Alt || k == AbstractKey::AltGr
}

/// The events that flush a sticky modifier's latch: a release, then a press, of Alt.
pub open spec fn latch_flush() -> Seq<KeyEvent> {
    seq![KeyEvent::Release(AbstractKey::Alt), KeyEvent::Press(AbstractKey::Alt)]
}

/// Whether `k` belongs to the sticky-modifier recovery set.
pub fn needs_latch_flush(k: AbstractKey) -> (r: bool)
    ensures
        r == is_sticky_modifier(k),
{
    match k {
        AbstractKey::Alt | AbstractKey::AltGr => true,
        _ => false,
    }
}

} // verus!
