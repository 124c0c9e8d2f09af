//! Core logic of a rate-configurable pointer-action emitter toggled by a
//! global hotkey: the settings file format, the key-name mapping, and the
//! state machine that the emitter and input-listener threads drive.
pub mod bytes;
pub mod config;
pub mod keys;
pub mod num;
pub mod state;
