//! Key-event dispatch: turns "type these keys", "press this hotkey" and "release
//! everything that is held" into ordered streams of press and release events, and
//! hands them to a delivery channel whose consumer injects them into the OS.
pub mod events;
pub mod key;
pub mod outbox;
pub mod table;
