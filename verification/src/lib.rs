//! A MIDI sequencer engine: chromatic notes, the MIDI wire format, a registry
//! of sounding notes with deferred note-offs, and the tick-driven transport
//! that drives them.

pub mod acid;
pub mod arp;
pub mod balance;
pub mod bpm;
pub mod conductor;
pub mod context;
pub mod div;
pub mod held;
pub mod instruction;
pub mod midi;
pub mod midi_controller;
pub mod midi_file;
pub mod midi_out;
pub mod note;
pub mod schedule;
pub mod sync;
pub mod track;

pub use crate::acid::{AcidTrig, Timing};
pub use crate::arp::ArpDiv;
pub use crate::bpm::Bpm;
pub use crate::conductor::Conductor;
pub use crate::context::{Context, InputQueue};
pub use crate::div::ClockDiv;
pub use crate::instruction::Instruction;
pub use crate::midi::{is_valid_channel, MidiMessage, MidiNote};
pub use crate::midi_controller::MidiController;
pub use crate::midi_file::{load_from_bytes, track_from_file, MidiEvent, MidiFile, TrackError};
pub use crate::midi_out::MidiOut;
pub use crate::note::Note;
pub use crate::track::{DeteTrack, Track};
