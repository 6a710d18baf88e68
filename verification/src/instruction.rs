//! The instructions that sequencing logic hands to the engine.

use vstd::prelude::*;
use crate::midi::{MidiMessage, MidiNote};

verus! {

/// Represents instructions that can be interpreted and processed by the
/// [`MidiController`](crate::midi_controller::MidiController).
///
/// These instructions are used to generate and send MIDI messages.
#[derive(Clone, Copy, PartialEq, Eq, Structural, Debug)]
pub enum Instruction {
    /// Plays a note for a specified duration on a given MIDI channel.
    PlayNote {
        /// The MIDI note to play.
        midi_note: MidiNote,
        /// Duration of the note in MIDI clock ticks (1 tick = 1/24 of a quarter note at the current BPM).
        len: u32,
        /// The MIDI channel to send the message on (1-16).
        channel_id: u8,
    },
    /// Starts playing a MIDI note without specifying a duration.
    ///
    /// Requires a corresponding [`Instruction::StopNote`] to stop the note.
    StartNote {
        /// The MIDI note to start.
        midi_note: MidiNote,
        /// MIDI channel (1-16) to use.
        channel_id: u8,
    },
    /// Stops a previously started MIDI note.
    StopNote {
        /// The MIDI note to stop.
        midi_note: MidiNote,
        /// MIDI channel (1-16) used when the note was started.
        channel_id: u8,
    },
    /// Sends a MIDI Control Change (CC) message.
    SendCC {
        /// MIDI channel (1-16).
        channel_id: u8,
        /// The controller number (0-127).
        parameter: u8,
        /// The controller value (0-127).
        value: u8,
    },
    /// Stops all currently playing notes.
    StopAllNotes,
    /// Sends a raw MIDI message directly.
    MidiMessage {
        /// The raw MIDI message to send.
        midi_message: MidiMessage,
    },
    /// Sends a MIDI Continue message to resume playback.
    Continue,
    /// Sends a MIDI Start message to begin playback from the start.
    Start,
    /// Sends a MIDI Stop message to halt playback.
    Stop,
}

impl Instruction {
    /// The note that the instruction plays, starts or stops, if it does one
    /// of these.
    pub open spec fn note(self) -> Option<MidiNote> {
        match self {
            Instruction::PlayNote { midi_note, .. } => Some(midi_note),
            Instruction::StartNote { midi_note, .. } => Some(midi_note),
            Instruction::StopNote { midi_note, .. } => Some(midi_note),
            _ => None,
        }
    }

    /// The channel that the instruction names, if it names one.
    pub open spec fn channel(self) -> Option<u8> {
        match self {
            Instruction::PlayNote { channel_id, .. } => Some(channel_id),
            Instruction::StartNote { channel_id, .. } => Some(channel_id),
            Instruction::StopNote { channel_id, .. } => Some(channel_id),
            Instruction::SendCC { channel_id, .. } => Some(channel_id),
            Instruction::MidiMessage { midi_message } => midi_message.channel(),
            _ => None,
        }
    }

    /// Whether the note of the instruction, if it has one, can be moved by
    /// `semitones`.
    pub open spec fn can_transpose(self, semitones: int) -> bool {
        self.note().is_some() ==> self.note().unwrap().can_transpose(semitones)
    }

    /// The instruction with its note, if it has one, moved by `semitones`.
    pub open spec fn transposed(self, semitones: int) -> Instruction {
        match self {
            Instruction::PlayNote { midi_note, len, channel_id } => Instruction::PlayNote {
                midi_note: midi_note.transposed(semitones),
                len,
                channel_id,
            },
            Instruction::StartNote { midi_note, channel_id } => Instruction::StartNote {
                midi_note: midi_note.transposed(semitones),
                channel_id,
            },
            Instruction::StopNote { midi_note, channel_id } => Instruction::StopNote {
                midi_note: midi_note.transposed(semitones),
                channel_id,
            },
            other => other,
        }
    }

    /// Transposes the note in the instruction by the given number of `semitones`.
    ///
    /// This function is only applicable when the [`Instruction`] variant is
    /// [`Instruction::PlayNote`], [`Instruction::StartNote`], or [`Instruction::StopNote`];
    /// any other instruction is left as it is.
    pub fn transpose(&mut self, semitones: i8)
        requires
            old(self).can_transpose(semitones as int),
        ensures
            *final(self) == old(self).transposed(semitones as int),
    {
        let moved = match *self {
            Instruction::PlayNote { midi_note, len, channel_id } => Instruction::PlayNote {
                midi_note: midi_note.transpose(semitones),
                len,
                channel_id,
            },
            Instruction::StartNote { midi_note, channel_id } => Instruction::StartNote {
                midi_note: midi_note.transpose(semitones),
                channel_id,
            },
            Instruction::StopNote { midi_note, channel_id } => Instruction::StopNote {
                midi_note: midi_note.transpose(semitones),
                channel_id,
            },
            other => other,
        };
        *self = moved;
    }
}

/// Transposing an instruction by `k` semitones and then by `-k` gives it
/// back; transposing by no semitone changes nothing.
pub proof fn lemma_instruction_round_trip(i: Instruction, k: int)
    requires
        i.can_transpose(k),
    ensures
        i.transposed(k).transposed(-k) == i,
        i.transposed(0) == i,
{
    if i.note().is_some() {
        crate::midi::lemma_transpose_round_trip(i.note().unwrap(), k);
    }
}

} // verus!
