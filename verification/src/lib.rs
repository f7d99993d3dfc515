//! Analog-to-MIDI event engine.
//!
//! Converts streams of normalized analog key-pressure samples into
//! velocity-sensitive MIDI note events. The engine is a per-key state
//! machine with onset/sustain/release thresholds, debounce after release,
//! and a velocity computed from the slope of the attack window.
//!
//! Analog values are carried as fixed-point thousandths of the normalized
//! pressure unit, timestamps as milliseconds.

pub mod devices;
pub mod events;
pub mod keymap;
pub mod laws;
pub mod sink;
pub mod tracker;
pub mod types;
pub mod velocity;

pub use devices::{MidiDevice, truncate_at_nul};
pub use events::{encode_event, NoteEvent};
pub use keymap::{make_keymap, Key, KeyMap, Note};
pub use sink::{SinkQueue, VirtualMidiError};
pub use tracker::{KeyState, Phase, Tracker};
pub use types::{EngineConfig, Sample, ANALOG_MAX};
pub use velocity::velocity_calc;
