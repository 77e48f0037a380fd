//! Input events, normalized at the platform boundary, and the events that
//! go out to listeners.
//!
//! Positions are in logical points. Outgoing events are encoded into frames
//! by `encode_events`.

pub mod input;
pub mod mask;
pub mod out;
pub mod out_kind;

pub use input::{Button, Event, Key, KeyInput, Mods};
pub use out::{encode_events, mask_for, UiEvent, UiEventModel};
