//! Core of a minimal window-manager runtime: key resolution, key bindings,
//! event routing and the dispatch state machine, stated over plain values.

pub mod bindings;
pub mod dispatch;
pub mod handlers;
pub mod keymap;
pub mod protocol;
