//! Notes as MIDI sends them, the messages of the MIDI wire format, and the
//! conversion between messages and bytes.

use vstd::prelude::*;
use crate::note::Note;

verus! {

/// Status byte of a timing clock pulse.
pub const CLOCK: u8 = 0xf8;

/// Status byte of a transport start.
pub const START: u8 = 0xfa;

/// Status byte of a transport continue.
pub const CONTINUE: u8 = 0xfb;

/// Status byte of a transport stop.
pub const STOP: u8 = 0xfc;

/// Status nibble of a note-on.
pub const NOTE_ON: u8 = 0x90;

/// Status nibble of a note-off.
pub const NOTE_OFF: u8 = 0x80;

/// Status nibble of a control change.
pub const CC: u8 = 0xB0;

/// Status nibble of a program change.
pub const PC: u8 = 0xC0;

/// A channel is valid when it lies between 1 and 16.
pub open spec fn valid_channel(channel: u8) -> bool {
    1 <= channel <= 16
}

/// Whether `channel` names one of the sixteen MIDI channels.
pub fn is_valid_channel(channel: u8) -> (r: bool)
    ensures
        r == valid_channel(channel),
{
    1 <= channel && channel <= 16
}

/// A note that can be sent through a MIDI message.
#[derive(Default, Clone, Copy, PartialEq, Eq, Structural, Debug, Hash)]
pub struct MidiNote {
    /// The chromatic note (A to G)
    pub note: Note,
    /// The octave of the note
    pub octave: u8,
    /// The velocity of the note (0 to 127)
    pub vel: u8,
}

impl MidiNote {
    /// The MIDI value of the note: its position in the octave plus twelve
    /// per octave.
    pub open spec fn value(self) -> int {
        self.note.index() + 12 * self.octave
    }

    /// Whether the MIDI value fits in the byte that carries it.
    pub open spec fn has_value(self) -> bool {
        self.value() <= 255
    }

    /// The note with MIDI value `value` and velocity `vel`.
    pub open spec fn of_value(value: u8, vel: u8) -> MidiNote {
        MidiNote { note: Note::at(value as int), octave: (value / 12) as u8, vel }
    }

    /// Whether the octave reached by `semi` semitones fits in a byte.
    pub open spec fn can_transpose(self, semi: int) -> bool {
        0 <= self.note.shifted(self.octave as int, semi).1 <= 255
    }

    /// The note `semi` semitones away, at the same velocity.
    pub open spec fn transposed(self, semi: int) -> MidiNote {
        let to = self.note.shifted(self.octave as int, semi);
        MidiNote { note: to.0, octave: to.1 as u8, vel: self.vel }
    }

    /// Construct a new [`MidiNote`]
    pub fn new(note: Note, octave: u8, vel: u8) -> (r: Self)
        ensures
            r == (MidiNote { note, octave, vel }),
    {
        Self { note, octave, vel }
    }

    /// Convert a MIDI note value into a [`MidiNote`].
    pub fn from_midi_value(midi_value: u8, vel: u8) -> (r: Self)
        ensures
            r == MidiNote::of_value(midi_value, vel),
            r.value() == midi_value,
    {
        let octave: u8 = midi_value / 12;
        let note = Note::from_index(midi_value % 12);
        assert(Note::at((midi_value % 12) as int) == Note::at(midi_value as int));
        Self::new(note, octave, vel)
    }

    /// Transpose the [`MidiNote`].
    /// The `transpose` parameter corresponds to the number of semitones to add to the note.
    ///
    /// The octave that is reached must fit in a byte.
    pub fn transpose(&self, transpose: i8) -> (r: Self)
        requires
            self.can_transpose(transpose as int),
        ensures
            r == self.transposed(transpose as int),
    {
        let (note, octave) = self.note.add_semitone(self.octave, transpose);
        Self { note, octave, vel: self.vel }
    }

    /// Transpose the [`MidiNote`] where the octave that is reached fits in a
    /// byte; `None` where it does not.
    pub fn checked_transpose(&self, transpose: i8) -> (r: Option<Self>)
        ensures
            self.can_transpose(transpose as int) ==> r == Some(self.transposed(transpose as int)),
            !self.can_transpose(transpose as int) ==> r.is_none(),
    {
        let lifted: i16 = self.note.to_index() as i16 + transpose as i16 + 132;
        let q: i16 = lifted / 12 - 11;
        assert(q as int == crate::note::octaves_in(self.note.index() + transpose as int)) by {
            let a = self.note.index() + transpose as int;
            assert((a + 132) / 12 == a / 12 + 11) by (nonlinear_arith);
        }
        let octave: i16 = self.octave as i16 + q;
        if 0 <= octave && octave <= 255 {
            Some(self.transpose(transpose))
        } else {
            None
        }
    }

    /// Retrieve the MIDI value of the MidiNote, which can be sent through a MIDI message.
    ///
    /// The value must fit in a byte.
    pub fn midi_value(&self) -> (r: u8)
        requires
            self.has_value(),
        ensures
            r as int == self.value(),
    {
        self.note.to_index() + 12 * self.octave
    }

    /// The MIDI value of the note where it fits in a byte; `None` where it
    /// does not.
    pub fn checked_midi_value(&self) -> (r: Option<u8>)
        ensures
            self.has_value() ==> r == Some(self.value() as u8),
            !self.has_value() ==> r.is_none(),
    {
        if self.octave <= 20 || (self.octave == 21 && self.note.to_index() <= 3) {
            Some(self.midi_value())
        } else {
            None
        }
    }
}

/// Transposing by `k` semitones and then by `-k` gives back the note;
/// transposing by no semitone changes nothing.
pub proof fn lemma_transpose_round_trip(n: MidiNote, k: int)
    requires
        n.can_transpose(k),
    ensures
        n.transposed(k).transposed(-k) == n,
        n.transposed(0) == n,
        n.can_transpose(0),
        n.transposed(k).can_transpose(-k),
{
    crate::note::lemma_shift_round_trip(n.note, n.octave as int, k);
    crate::note::lemma_shift_round_trip(n.note, n.octave as int, 0);
}

/// Transposing by `k` semitones moves the MIDI value by `k`.
pub proof fn lemma_transpose_moves_value(n: MidiNote, k: int)
    requires
        n.can_transpose(k),
    ensures
        n.transposed(k).value() == n.value() + k,
{
    let a = n.note.index() + k;
    crate::note::lemma_at_index(a);
    assert(a % 12 + 12 * (a / 12) == a) by (nonlinear_arith);
}

/// Represents a parsed MIDI instruction.
///
/// This enum defines all supported MIDI messages used for input handling.
#[derive(Clone, Copy, PartialEq, Eq, Structural, Debug)]
pub enum MidiMessage {
    /// Note Off event. This message is sent when a note is released.
    NoteOff {
        /// MIDI channel (1-16).
        channel: u8,
        /// The MIDI note.
        note: MidiNote,
    },
    /// Note On event. This message is sent when a note is pressed.
    NoteOn {
        /// MIDI channel (1-16).
        channel: u8,
        /// The MIDI note.
        note: MidiNote,
    },
    /// A MIDI Control Change (CC) message.
    CC {
        /// MIDI channel (1-16).
        channel: u8,
        /// The controller number (0-127).
        controller: u8,
        /// The controller value (0-127).
        value: u8,
    },
    /// A MIDI Program Change (PC) message.
    PC {
        /// MIDI channel (1-16).
        channel: u8,
        /// The controller value (0-127).
        value: u8,
    },
    /// Timing Clock. Sent 24 times per quarter note when synchronisation is required.
    Clock,
    /// Start. Start the current sequence playing.
    Start,
    /// Continue. Continue at the point the sequence was Stopped.
    Continue,
    /// Stop. Stop the current sequence.
    Stop,
}

/// The upper nibble of a status byte: the kind of a channel message.
pub open spec fn status_of(b: u8) -> u8 {
    b & 0xF0
}

/// The channel that a status byte names, between 1 and 16: the wire carries
/// the channel less one in the lower nibble.
pub open spec fn channel_of(b: u8) -> u8 {
    ((b & 0x0F) + 1) as u8
}

/// The status byte of a channel message of kind `status` on `channel`.
pub open spec fn status_byte(status: u8, channel: u8) -> u8 {
    status | ((channel - 1) as u8)
}

impl MidiMessage {
    /// The message that `bytes` spell, if they spell one: a single transport
    /// or clock byte, a program change of two bytes, or a note-off, note-on
    /// or control change of three.
    pub open spec fn spec_parse(bytes: Seq<u8>) -> Option<MidiMessage> {
        if bytes.len() == 1 {
            if bytes[0] == CLOCK {
                Some(MidiMessage::Clock)
            } else if bytes[0] == START {
                Some(MidiMessage::Start)
            } else if bytes[0] == CONTINUE {
                Some(MidiMessage::Continue)
            } else if bytes[0] == STOP {
                Some(MidiMessage::Stop)
            } else {
                None
            }
        } else if bytes.len() == 2 && status_of(bytes[0]) == PC {
            Some(MidiMessage::PC { channel: channel_of(bytes[0]), value: bytes[1] })
        } else if bytes.len() == 3 {
            let channel = channel_of(bytes[0]);
            if status_of(bytes[0]) == NOTE_OFF {
                Some(MidiMessage::NoteOff { channel, note: MidiNote::of_value(bytes[1], bytes[2]) })
            } else if status_of(bytes[0]) == NOTE_ON {
                Some(MidiMessage::NoteOn { channel, note: MidiNote::of_value(bytes[1], bytes[2]) })
            } else if status_of(bytes[0]) == CC {
                Some(MidiMessage::CC { channel, controller: bytes[1], value: bytes[2] })
            } else {
                None
            }
        } else {
            None
        }
    }

    /// The channel that the message names, if it names one.
    pub open spec fn channel(self) -> Option<u8> {
        match self {
            MidiMessage::NoteOff { channel, .. } => Some(channel),
            MidiMessage::NoteOn { channel, .. } => Some(channel),
            MidiMessage::CC { channel, .. } => Some(channel),
            MidiMessage::PC { channel, .. } => Some(channel),
            _ => None,
        }
    }

    /// Whether the note of the message, if it has one, has a MIDI value
    /// that fits a byte.
    pub open spec fn has_value(self) -> bool {
        match self {
            MidiMessage::NoteOff { note, .. } => note.has_value(),
            MidiMessage::NoteOn { note, .. } => note.has_value(),
            _ => true,
        }
    }

    /// Whether the message can go on the wire: its channel, if it has one, is
    /// valid, and its note, if it has one, has a MIDI value that fits a byte.
    pub open spec fn sendable(self) -> bool {
        match self {
            MidiMessage::NoteOff { channel, note } => valid_channel(channel) && note.has_value(),
            MidiMessage::NoteOn { channel, note } => valid_channel(channel) && note.has_value(),
            MidiMessage::CC { channel, .. } => valid_channel(channel),
            MidiMessage::PC { channel, .. } => valid_channel(channel),
            _ => true,
        }
    }

    /// The bytes of a sendable message. A note-off carries velocity 0.
    pub open spec fn spec_bytes(self) -> Seq<u8> {
        match self {
            MidiMessage::NoteOff { channel, note } => seq![
                status_byte(NOTE_OFF, channel),
                note.value() as u8,
                0u8,
            ],
            MidiMessage::NoteOn { channel, note } => seq![
                status_byte(NOTE_ON, channel),
                note.value() as u8,
                note.vel,
            ],
            MidiMessage::CC { channel, controller, value } => seq![
                status_byte(CC, channel),
                controller,
                value,
            ],
            MidiMessage::PC { channel, value } => seq![status_byte(PC, channel), value],
            MidiMessage::Clock => seq![CLOCK],
            MidiMessage::Start => seq![START],
            MidiMessage::Continue => seq![CONTINUE],
            MidiMessage::Stop => seq![STOP],
        }
    }

    /// Parses a byte slice into a `MidiMessage`.
    ///
    /// Returns `Some(MidiMessage)` if the byte slice represents a known and valid MIDI message,
    /// or `None` if the data does not match any recognized MIDI message format.
    pub fn parse(bytes: &[u8]) -> (r: Option<MidiMessage>)
        ensures
            r == MidiMessage::spec_parse(bytes@),
    {
        if bytes.len() == 1 {
            let b: u8 = bytes[0];
            if b == CLOCK {
                Some(MidiMessage::Clock)
            } else if b == START {
                Some(MidiMessage::Start)
            } else if b == CONTINUE {
                Some(MidiMessage::Continue)
            } else if b == STOP {
                Some(MidiMessage::Stop)
            } else {
                None
            }
        } else if bytes.len() == 2 && bytes[0] & 0xF0 == PC {
            let b: u8 = bytes[0];
            assert(b & 0x0F <= 15) by (bit_vector);
            let channel: u8 = (b & 0x0F) + 1;
            if is_valid_channel(channel) {
                Some(MidiMessage::PC { channel, value: bytes[1] })
            } else {
                None
            }
        } else if bytes.len() == 3 {
            let b: u8 = bytes[0];
            assert(b & 0x0F <= 15) by (bit_vector);
            let channel: u8 = (b & 0x0F) + 1;
            if is_valid_channel(channel) {
                let status: u8 = b & 0xF0;
                if status == NOTE_OFF {
                    Some(
                        MidiMessage::NoteOff {
                            channel,
                            note: MidiNote::from_midi_value(bytes[1], bytes[2]),
                        },
                    )
                } else if status == NOTE_ON {
                    Some(
                        MidiMessage::NoteOn {
                            channel,
                            note: MidiNote::from_midi_value(bytes[1], bytes[2]),
                        },
                    )
                } else if status == CC {
                    Some(MidiMessage::CC { channel, controller: bytes[1], value: bytes[2] })
                } else {
                    None
                }
            } else {
                None
            }
        } else {
            None
        }
    }

    /// The bytes that carry the message on the wire, or `None` for a message
    /// that cannot go on it: one with a channel outside 1 to 16, or with a
    /// note whose MIDI value does not fit a byte.
    pub fn to_bytes(&self) -> (r: Option<Vec<u8>>)
        ensures
            self.sendable() ==> r.is_some() && r.unwrap()@ == self.spec_bytes(),
            !self.sendable() ==> r.is_none(),
    {
        match *self {
            MidiMessage::NoteOff { channel, note } => {
                match note.checked_midi_value() {
                    Some(value) => {
                        if is_valid_channel(channel) {
                            let r = vec![NOTE_OFF | (channel - 1), value, 0u8];
                            assert(r@ =~= self.spec_bytes());
                            Some(r)
                        } else {
                            None
                        }
                    },
                    None => None,
                }
            },
            MidiMessage::NoteOn { channel, note } => {
                match note.checked_midi_value() {
                    Some(value) => {
                        if is_valid_channel(channel) {
                            let r = vec![NOTE_ON | (channel - 1), value, note.vel];
                            assert(r@ =~= self.spec_bytes());
                            Some(r)
                        } else {
                            None
                        }
                    },
                    None => None,
                }
            },
            MidiMessage::CC { channel, controller, value } => {
                if is_valid_channel(channel) {
                    let r = vec![CC | (channel - 1), controller, value];
                    assert(r@ =~= self.spec_bytes());
                    Some(r)
                } else {
                    None
                }
            },
            MidiMessage::PC { channel, value } => {
                if is_valid_channel(channel) {
                    let r = vec![PC | (channel - 1), value];
                    assert(r@ =~= self.spec_bytes());
                    Some(r)
                } else {
                    None
                }
            },
            MidiMessage::Clock => {
                let r = vec![CLOCK];
                assert(r@ =~= self.spec_bytes());
                Some(r)
            },
            MidiMessage::Start => {
                let r = vec![START];
                assert(r@ =~= self.spec_bytes());
                Some(r)
            },
            MidiMessage::Continue => {
                let r = vec![CONTINUE];
                assert(r@ =~= self.spec_bytes());
                Some(r)
            },
            MidiMessage::Stop => {
                let r = vec![STOP];
                assert(r@ =~= self.spec_bytes());
                Some(r)
            },
        }
    }
}

/// A status byte built from a kind and a valid channel gives both back.
pub proof fn lemma_status_byte(status: u8, channel: u8)
    requires
        valid_channel(channel),
        status == NOTE_OFF || status == NOTE_ON || status == CC || status == PC,
    ensures
        status_of(status_byte(status, channel)) == status,
        channel_of(status_byte(status, channel)) == channel,
{
    let c: u8 = (channel - 1) as u8;
    assert((status | c) & 0xF0 == status && (status | c) & 0x0F == c) by (bit_vector)
        requires
            c <= 15,
            status == 0x80 || status == 0x90 || status == 0xB0 || status == 0xC0,
    ;
}

/// Parsing the bytes of a sendable message gives the message back, with a
/// note in the form that its MIDI value determines; a note-off comes back
/// with velocity 0.
pub proof fn lemma_parse_inverts_bytes(m: MidiMessage)
    requires
        m.sendable(),
    ensures
        MidiMessage::spec_parse(m.spec_bytes()) == Some(
            match m {
                MidiMessage::NoteOff { channel, note } => MidiMessage::NoteOff {
                    channel,
                    note: MidiNote::of_value(note.value() as u8, 0),
                },
                MidiMessage::NoteOn { channel, note } => MidiMessage::NoteOn {
                    channel,
                    note: MidiNote::of_value(note.value() as u8, note.vel),
                },
                other => other,
            },
        ),
{
    match m {
        MidiMessage::NoteOff { channel, .. } => lemma_status_byte(NOTE_OFF, channel),
        MidiMessage::NoteOn { channel, .. } => lemma_status_byte(NOTE_ON, channel),
        MidiMessage::CC { channel, .. } => lemma_status_byte(CC, channel),
        MidiMessage::PC { channel, .. } => lemma_status_byte(PC, channel),
        _ => {},
    }
}

} // verus!
