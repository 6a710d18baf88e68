//! The output side of the engine: the primitives that a MIDI backend
//! offers, and the record of the calls made on them.

use vstd::prelude::*;
use vstd::multiset::Multiset;
use crate::midi::MidiMessage;

verus! {

/// The record of the calls that a backend has taken, in order, each with
/// the result that it gave.
pub type Taken<E> = Seq<(OutCall, Result<(), E>)>;

/// The sends that a MIDI backend offers. The engine is generic over it.
///
/// A backend keeps the record of the calls that it has taken, each with
/// the result that it gave: every send adds its own call to the record,
/// whether it succeeds or fails, and changes nothing else of it.
pub trait MidiOut {
    /// Error type returned by the different member functions.
    type Error;

    /// Every call that the backend has taken, in order, each with its
    /// result. The record exists for contracts only: no code ever calls
    /// this function, and a backend may leave its body unreachable.
    spec fn taken(&self) -> Taken<Self::Error>;

    /// Send MIDI message: each kind of message goes to the primitive of its
    /// name, a note by its MIDI value, and the result is that of the
    /// primitive. The MIDI value of a note must fit a byte.
    fn send_message(&mut self, message: MidiMessage) -> (r: Result<(), Self::Error>)
        requires
            message.has_value(),
        ensures
            final(self).taken() == old(self).taken().push((call_of(message), r)),
    {
        match message {
            MidiMessage::NoteOff { channel, note } => {
                self.send_note_off(channel, note.midi_value())
            },
            MidiMessage::NoteOn { channel, note } => {
                self.send_note_on(channel, note.midi_value(), note.vel)
            },
            MidiMessage::CC { channel, controller, value } => {
                self.send_cc(channel, controller, value)
            },
            MidiMessage::PC { channel, value } => self.send_pc(channel, value),
            MidiMessage::Clock => self.send_clock(),
            MidiMessage::Start => self.send_start(),
            MidiMessage::Continue => self.send_continue(),
            MidiMessage::Stop => self.send_stop(),
        }
    }

    /// Send MIDI start message.
    fn send_start(&mut self) -> (r: Result<(), Self::Error>)
        ensures
            final(self).taken() == old(self).taken().push((OutCall::Start, r)),
    ;

    /// Send MIDI continue message.
    fn send_continue(&mut self) -> (r: Result<(), Self::Error>)
        ensures
            final(self).taken() == old(self).taken().push((OutCall::Continue, r)),
    ;

    /// Send MIDI stop message.
    fn send_stop(&mut self) -> (r: Result<(), Self::Error>)
        ensures
            final(self).taken() == old(self).taken().push((OutCall::Stop, r)),
    ;

    /// Send MIDI clock message.
    fn send_clock(&mut self) -> (r: Result<(), Self::Error>)
        ensures
            final(self).taken() == old(self).taken().push((OutCall::Clock, r)),
    ;

    /// Send MIDI note on message.
    fn send_note_on(&mut self, channel_id: u8, note: u8, velocity: u8) -> (r: Result<
        (),
        Self::Error,
    >)
        ensures
            final(self).taken() == old(self).taken().push(
                (OutCall::NoteOn { channel_id, note, velocity }, r),
            ),
    ;

    /// Send MIDI note off message.
    fn send_note_off(&mut self, channel_id: u8, note: u8) -> (r: Result<(), Self::Error>)
        ensures
            final(self).taken() == old(self).taken().push(
                (OutCall::NoteOff { channel_id, note }, r),
            ),
    ;

    /// Send MIDI cc message.
    fn send_cc(&mut self, channel_id: u8, parameter: u8, value: u8) -> (r: Result<
        (),
        Self::Error,
    >)
        ensures
            final(self).taken() == old(self).taken().push(
                (OutCall::Cc { channel_id, parameter, value }, r),
            ),
    ;

    /// Send MIDI pc message.
    fn send_pc(&mut self, channel_id: u8, value: u8) -> (r: Result<(), Self::Error>)
        ensures
            final(self).taken() == old(self).taken().push((OutCall::Pc { channel_id, value }, r)),
    ;
}

/// The calls of a record, without their results.
pub open spec fn calls_of<E>(taken: Taken<E>) -> Seq<OutCall> {
    Seq::new(taken.len(), |i: int| taken[i].0)
}

/// One more call taken is one more call in the record of calls.
pub proof fn lemma_calls_push<E>(taken: Taken<E>, call: OutCall, r: Result<(), E>)
    ensures
        calls_of(taken.push((call, r))) == calls_of(taken).push(call),
{
    assert(calls_of(taken.push((call, r))) =~= calls_of(taken).push(call));
}

/// One call of a primitive of [`MidiOut`], with its arguments.
#[derive(Clone, Copy, PartialEq, Eq, Structural, Debug)]
pub enum OutCall {
    /// `send_start`
    Start,
    /// `send_continue`
    Continue,
    /// `send_stop`
    Stop,
    /// `send_clock`
    Clock,
    /// `send_note_on`
    NoteOn {
        /// MIDI channel (1-16).
        channel_id: u8,
        /// MIDI value of the note.
        note: u8,
        /// Velocity of the note.
        velocity: u8,
    },
    /// `send_note_off`
    NoteOff {
        /// MIDI channel (1-16).
        channel_id: u8,
        /// MIDI value of the note.
        note: u8,
    },
    /// `send_cc`
    Cc {
        /// MIDI channel (1-16).
        channel_id: u8,
        /// The controller number.
        parameter: u8,
        /// The controller value.
        value: u8,
    },
    /// `send_pc`
    Pc {
        /// MIDI channel (1-16).
        channel_id: u8,
        /// The program number.
        value: u8,
    },
}

/// The call that carries `message`: each kind of message goes to the
/// primitive of its name, a note by its MIDI value.
pub open spec fn call_of(message: MidiMessage) -> OutCall {
    match message {
        MidiMessage::NoteOff { channel, note } => OutCall::NoteOff {
            channel_id: channel,
            note: note.value() as u8,
        },
        MidiMessage::NoteOn { channel, note } => OutCall::NoteOn {
            channel_id: channel,
            note: note.value() as u8,
            velocity: note.vel,
        },
        MidiMessage::CC { channel, controller, value } => OutCall::Cc {
            channel_id: channel,
            parameter: controller,
            value,
        },
        MidiMessage::PC { channel, value } => OutCall::Pc { channel_id: channel, value },
        MidiMessage::Clock => OutCall::Clock,
        MidiMessage::Start => OutCall::Start,
        MidiMessage::Continue => OutCall::Continue,
        MidiMessage::Stop => OutCall::Stop,
    }
}

/// The note-off calls for `notes`, one for each and in their order. A note
/// is the pair of its MIDI value and its channel.
pub open spec fn offs_of(notes: Seq<(u8, u8)>) -> Seq<OutCall> {
    Seq::new(notes.len(), |i: int| OutCall::NoteOff { channel_id: notes[i].1, note: notes[i].0 })
}

/// The notes that `calls` turn on, each as often as it is turned on.
pub open spec fn note_ons(calls: Seq<OutCall>) -> Multiset<(u8, u8)>
    decreases calls.len(),
{
    if calls.len() == 0 {
        Multiset::empty()
    } else {
        match calls.last() {
            OutCall::NoteOn { channel_id, note, .. } => note_ons(calls.drop_last()).insert(
                (note, channel_id),
            ),
            _ => note_ons(calls.drop_last()),
        }
    }
}

/// The notes that `calls` turn off, each as often as it is turned off.
pub open spec fn note_offs(calls: Seq<OutCall>) -> Multiset<(u8, u8)>
    decreases calls.len(),
{
    if calls.len() == 0 {
        Multiset::empty()
    } else {
        match calls.last() {
            OutCall::NoteOff { channel_id, note } => note_offs(calls.drop_last()).insert(
                (note, channel_id),
            ),
            _ => note_offs(calls.drop_last()),
        }
    }
}

/// One more call adds its note, if it is a note-on or a note-off, to the
/// notes turned on or off.
pub proof fn lemma_tally_push(calls: Seq<OutCall>, call: OutCall)
    ensures
        note_ons(calls.push(call)) == (match call {
            OutCall::NoteOn { channel_id, note, .. } => note_ons(calls).insert((note, channel_id)),
            _ => note_ons(calls),
        }),
        note_offs(calls.push(call)) == (match call {
            OutCall::NoteOff { channel_id, note } => note_offs(calls).insert((note, channel_id)),
            _ => note_offs(calls),
        }),
{
    assert(calls.push(call).drop_last() =~= calls);
}

/// The notes turned on and off by two runs of calls, one after the other,
/// are those of the first together with those of the second.
pub proof fn lemma_tally_concat(a: Seq<OutCall>, b: Seq<OutCall>)
    ensures
        note_ons(a + b) =~= note_ons(a).add(note_ons(b)),
        note_offs(a + b) =~= note_offs(a).add(note_offs(b)),
    decreases b.len(),
{
    if b.len() == 0 {
        assert(a + b =~= a);
    } else {
        lemma_tally_concat(a, b.drop_last());
        assert(a + b =~= (a + b.drop_last()).push(b.last()));
        lemma_tally_push(a + b.drop_last(), b.last());
        assert(b =~= b.drop_last().push(b.last()));
        lemma_tally_push(b.drop_last(), b.last());
    }
}

/// Note-off calls turn off their notes and turn on none.
pub proof fn lemma_tally_offs(notes: Seq<(u8, u8)>)
    ensures
        note_offs(offs_of(notes)) =~= notes.to_multiset(),
        note_ons(offs_of(notes)) =~= Multiset::empty(),
    decreases notes.len(),
{
    broadcast use vstd::seq_lib::group_to_multiset_ensures;

    if notes.len() == 0 {
        assert(notes.to_multiset() =~= Multiset::empty()) by {
            notes.to_multiset_ensures();
            assert(notes.to_multiset().len() == 0);
        }
    } else {
        let front = notes.drop_last();
        lemma_tally_offs(front);
        assert(notes =~= front.push(notes.last()));
        assert(offs_of(notes) =~= offs_of(front).push(
            OutCall::NoteOff { channel_id: notes.last().1, note: notes.last().0 },
        ));
        lemma_tally_push(
            offs_of(front),
            OutCall::NoteOff { channel_id: notes.last().1, note: notes.last().0 },
        );
    }
}

} // verus!
