//! Input and keybinding engine for a minimal X11 window manager.
//!
//! The crate translates raw hardware key events into symbolic actions under a
//! dynamically changing keyboard layout, and computes the set of global key
//! grabs the window manager must hold in order to receive those events.
//! All protocol I/O (the X connection, event pump, grab requests) lives in the
//! surrounding binary; this library holds the verified decisions: parsing
//! binding descriptions, resolving keysyms to keycodes over a keyboard
//! mapping, normalizing modifier masks, matching events against the binding
//! registry, and deriving the grab set.

pub mod config;
pub mod events;
pub mod grab;
pub mod keybind;
pub mod keyboard;
pub mod keyseq;
pub mod modmask;
