//! The note registry and the executor of instructions.
//!
//! The controller keeps the notes that sound: those played for a fixed
//! length, with the step at which each is to be released, and those started
//! without a length, which sound until they are stopped. It turns
//! instructions into calls on a MIDI backend; its contracts say what was
//! sent over the record of calls that the backend keeps.

use vstd::prelude::*;
use crate::instruction::Instruction;
use crate::midi::{is_valid_channel, valid_channel, MidiMessage, MidiNote};
use crate::midi_out::{call_of, calls_of, lemma_calls_push, offs_of, MidiOut, OutCall};
use crate::track::Track;
use crate::held::{
    all_due, kept, lemma_split_count, lemma_split_push, lemma_total_of_entries, listed,
    on_channel, released, total_of,
};
use crate::schedule::{
    empty_schedule, no_notes, schedule_drain, schedule_entries, schedule_insert, schedule_new,
    schedule_remove, sustained_drain, sustained_insert, sustained_new, sustained_notes,
    sustained_remove, OffSchedule, Sustained,
};

verus! {

/// A note that waits for its note-on: its MIDI value, its channel and its
/// velocity.
#[derive(Clone, Copy, PartialEq, Eq, Structural, Debug)]
pub struct NotePlay {
    /// MIDI value of the note.
    pub midi_value: u8,
    /// MIDI channel (1-16).
    pub channel_id: u8,
    /// Velocity of the note.
    pub vel: u8,
}

impl NotePlay {
    /// What identifies the note: its MIDI value and its channel. The
    /// velocity is no part of it.
    pub open spec fn key(self) -> (u8, u8) {
        (self.midi_value, self.channel_id)
    }
}

/// The note-on calls for `notes`, one for each and in their order.
pub open spec fn ons_of(notes: Seq<NotePlay>) -> Seq<OutCall> {
    Seq::new(
        notes.len(),
        |i: int|
            OutCall::NoteOn {
                channel_id: notes[i].channel_id,
                note: notes[i].midi_value,
                velocity: notes[i].vel,
            },
    )
}

/// What the controller holds, and what it has sent so far.
pub struct Registry {
    /// The current step.
    pub step: u32,
    /// The notes to release, by the step at which each is due.
    pub scheduled_offs: Map<u32, Seq<(u8, u8)>>,
    /// The notes that sound until they are stopped.
    pub sustained: Set<(u8, u8)>,
    /// The notes triggered since the last update, which the next update
    /// turns on.
    pub pending_ons: Seq<NotePlay>,
    /// Every call made on the backend, in order.
    pub sent: Seq<OutCall>,
}

impl Registry {
    /// The registry of a new controller: at step 0, holding and having sent
    /// nothing.
    pub open spec fn initial() -> Registry {
        Registry {
            step: 0,
            scheduled_offs: empty_schedule(),
            sustained: no_notes(),
            pending_ons: Seq::empty(),
            sent: Seq::empty(),
        }
    }

    /// The notes to release at `step`, in the order in which they were
    /// scheduled.
    pub open spec fn due_at(self, step: u32) -> Seq<(u8, u8)> {
        if self.scheduled_offs.contains_key(step) {
            self.scheduled_offs[step]
        } else {
            Seq::empty()
        }
    }

    /// The registry after `call` was made.
    pub open spec fn called(self, call: OutCall) -> Registry {
        Registry { sent: self.sent.push(call), ..self }
    }

    /// The registry after a release of `note` was scheduled for `step`,
    /// behind those already due then.
    pub open spec fn off_at(self, step: u32, note: (u8, u8)) -> Registry {
        Registry {
            scheduled_offs: self.scheduled_offs.insert(step, self.due_at(step).push(note)),
            ..self
        }
    }

    /// Whether a note on a channel is one that can be sent: the channel is
    /// valid and the MIDI value of the note fits a byte.
    pub open spec fn accepts(note: MidiNote, channel_id: u8) -> bool {
        valid_channel(channel_id) && note.has_value()
    }

    /// Whether a request to play `note` for `len` steps is carried out: the
    /// note can be sent, the length is not zero, and the step of its release
    /// can be counted.
    pub open spec fn accepts_play(self, note: MidiNote, len: u32, channel_id: u8) -> bool {
        len != 0 && Registry::accepts(note, channel_id) && self.step + len <= u32::MAX
    }

    /// The note as it waits for its note-on.
    pub open spec fn pending(note: MidiNote, channel_id: u8) -> NotePlay {
        NotePlay { midi_value: note.value() as u8, channel_id, vel: note.vel }
    }

    /// A note played for `len` steps waits for its note-on, and its release
    /// is due `len` steps from now. A request that is not accepted changes
    /// nothing.
    pub open spec fn play_note(self, note: MidiNote, len: u32, channel_id: u8) -> Registry {
        if self.accepts_play(note, len, channel_id) {
            let play = Registry::pending(note, channel_id);
            Registry { pending_ons: self.pending_ons.push(play), ..self }.off_at(
                (self.step + len) as u32,
                play.key(),
            )
        } else {
            self
        }
    }

    /// A note that is started waits for its note-on and is sustained. A
    /// request that is not accepted changes nothing.
    pub open spec fn start_note(self, note: MidiNote, channel_id: u8) -> Registry {
        if Registry::accepts(note, channel_id) {
            let play = Registry::pending(note, channel_id);
            Registry {
                pending_ons: self.pending_ons.push(play),
                sustained: self.sustained.insert(play.key()),
                ..self
            }
        } else {
            self
        }
    }

    /// A note that is stopped is no longer sustained, and its release is due
    /// at the current step, whether it was sustained or not. A request that
    /// is not accepted changes nothing.
    pub open spec fn stop_note(self, note: MidiNote, channel_id: u8) -> Registry {
        if Registry::accepts(note, channel_id) {
            let key = Registry::pending(note, channel_id).key();
            Registry { sustained: self.sustained.remove(key), ..self }.off_at(self.step, key)
        } else {
            self
        }
    }

    /// A control change on a valid channel is sent; on any other channel
    /// nothing happens.
    pub open spec fn send_cc(self, channel_id: u8, parameter: u8, value: u8) -> Registry {
        if valid_channel(channel_id) {
            self.called(OutCall::Cc { channel_id, parameter, value })
        } else {
            self
        }
    }

    /// A message that can go on the wire is sent by the primitive of its
    /// kind; any other message is dropped.
    pub open spec fn send_message(self, message: MidiMessage) -> Registry {
        if message.sendable() {
            self.called(call_of(message))
        } else {
            self
        }
    }

    /// A transport start sets the step back to 0 and is sent.
    pub open spec fn start(self) -> Registry {
        Registry { step: 0, ..self }.called(OutCall::Start)
    }

    /// The number of note-offs that the registry owes for `note`: one if the
    /// note is sustained, and one for each release of it that is scheduled.
    pub open spec fn held(self, note: (u8, u8)) -> nat {
        (if self.sustained.contains(note) {
            1nat
        } else {
            0nat
        }) + all_due(self.scheduled_offs).count(note)
    }

    /// The sustained notes that are not on `channel`.
    pub open spec fn sustained_off_channel(self, channel: Option<u8>) -> Set<(u8, u8)> {
        Set::new(|n: (u8, u8)| self.sustained.contains(n) && !on_channel(n, channel))
    }

    /// The scheduled releases of notes that are not on `channel`; a step
    /// with no such note has no entry.
    pub open spec fn scheduled_off_channel(self, channel: Option<u8>) -> Map<u32, Seq<(u8, u8)>> {
        Map::new(
            |s: u32|
                self.scheduled_offs.contains_key(s) && kept(self.scheduled_offs[s], channel).len()
                    > 0,
            |s: u32| kept(self.scheduled_offs[s], channel),
        )
    }

    /// Whether `post` is the registry after note-offs were sent for `notes`,
    /// and `notes` holds each note on `channel` as often as the registry
    /// owed a note-off for it, and no other note.
    pub open spec fn released_by(self, post: Registry, channel: Option<u8>, notes: Seq<(u8, u8)>)
        -> bool {
        &&& post.sent == self.sent + offs_of(notes)
        &&& forall|n: (u8, u8)| #[trigger]
            notes.to_multiset().count(n) == if on_channel(n, channel) {
                self.held(n)
            } else {
                0
            }
    }

    /// Whether `post` is the registry after every note on `channel` was
    /// stopped: a note-off was sent for each sustained note and for each
    /// scheduled release of a note on the channel, in some order, and only
    /// the notes on other channels are still held. With no channel given
    /// that is every note.
    pub open spec fn stopped_all(self, post: Registry, channel: Option<u8>) -> bool {
        &&& post.step == self.step
        &&& post.pending_ons == self.pending_ons
        &&& post.sustained == self.sustained_off_channel(channel)
        &&& post.scheduled_offs == self.scheduled_off_channel(channel)
        &&& exists|notes: Seq<(u8, u8)>| self.released_by(post, channel, notes)
    }

    /// Whether `post` is the registry after `instruction` was carried out.
    pub open spec fn executed(self, post: Registry, instruction: Instruction) -> bool {
        match instruction {
            Instruction::PlayNote { midi_note, len, channel_id } => post == self.play_note(
                midi_note,
                len,
                channel_id,
            ),
            Instruction::StartNote { midi_note, channel_id } => post == self.start_note(
                midi_note,
                channel_id,
            ),
            Instruction::StopNote { midi_note, channel_id } => post == self.stop_note(
                midi_note,
                channel_id,
            ),
            Instruction::SendCC { channel_id, parameter, value } => post == self.send_cc(
                channel_id,
                parameter,
                value,
            ),
            Instruction::StopAllNotes => self.stopped_all(post, None),
            Instruction::MidiMessage { midi_message } => post == self.send_message(midi_message),
            Instruction::Continue => post == self.called(OutCall::Continue),
            Instruction::Start => post == self.start(),
            Instruction::Stop => post == self.called(OutCall::Stop),
        }
    }

    /// Whether `post` is the registry after `instructions` were carried out
    /// one after the other.
    pub open spec fn executed_all(self, post: Registry, instructions: Seq<Instruction>) -> bool
        decreases instructions.len(),
    {
        if instructions.len() == 0 {
            post == self
        } else {
            exists|mid: Registry|
                self.executed_all(mid, instructions.drop_last()) && #[trigger] mid.executed(
                    post,
                    instructions.last(),
                )
        }
    }

    /// The flush at the end of a step: the notes due at the current step are
    /// released, then the waiting notes are turned on, and the step becomes
    /// `next_step`.
    pub open spec fn update(self, next_step: u32) -> Registry {
        Registry {
            step: next_step,
            scheduled_offs: self.scheduled_offs.remove(self.step),
            sustained: self.sustained,
            pending_ons: Seq::empty(),
            sent: self.sent + offs_of(self.due_at(self.step)) + ons_of(self.pending_ons),
        }
    }
}

/// Provides a reusable MIDI interface and core logic across different platforms.
pub struct MidiController<T: MidiOut> {
    step: u32,
    // Every note currently being played triggered by play_note. The key is the step at which to
    // stop the note.
    play_note_set: OffSchedule,
    // Every note currently being played triggered by start_note.
    start_note_set: Sustained,
    // Notes to play at the next update call
    notes_to_play: Vec<NotePlay>,
    midi_out: T,
}

impl<T: MidiOut> View for MidiController<T> {
    type V = Registry;

    closed spec fn view(&self) -> Registry {
        Registry {
            step: self.step,
            scheduled_offs: schedule_entries(self.play_note_set),
            sustained: sustained_notes(self.start_note_set),
            pending_ons: self.notes_to_play@,
            sent: calls_of(self.midi_out.taken()),
        }
    }
}

impl<T: MidiOut> MidiController<T> {
    /// A controller that sends through `midi_out`: at step 0, holding no
    /// note, its record of calls that of `midi_out`.
    pub fn new(midi_out: T) -> (r: Self)
        ensures
            r@ == (Registry { sent: calls_of(midi_out.taken()), ..Registry::initial() }),
    {
        Self {
            step: 0,
            play_note_set: schedule_new(),
            start_note_set: sustained_new(),
            notes_to_play: Vec::new(),
            midi_out,
        }
    }

    fn note_off(&mut self, channel_id: u8, note: u8)
        ensures
            final(self)@ == old(self)@.called(OutCall::NoteOff { channel_id, note }),
    {
        let ghost taken = self.midi_out.taken();
        let r = self.midi_out.send_note_off(channel_id, note);
        proof {
            lemma_calls_push(taken, OutCall::NoteOff { channel_id, note }, r);
        }
    }

    fn note_on(&mut self, channel_id: u8, note: u8, velocity: u8)
        ensures
            final(self)@ == old(self)@.called(OutCall::NoteOn { channel_id, note, velocity }),
    {
        let ghost taken = self.midi_out.taken();
        let r = self.midi_out.send_note_on(channel_id, note, velocity);
        proof {
            lemma_calls_push(taken, OutCall::NoteOn { channel_id, note, velocity }, r);
        }
    }

    /// Requests the MIDI controller to play a note at the current MIDI step. Specify the length
    /// (`len`) of the note and the MIDI channel id (`channel_id`) on which to send the note.
    ///
    /// The request is dropped when `len` is 0, when the channel is not valid,
    /// when the MIDI value of the note does not fit a byte, or when the step
    /// of its release cannot be counted.
    pub fn play_note(&mut self, midi_note: MidiNote, len: u32, channel_id: u8)
        ensures
            final(self)@ == old(self)@.play_note(midi_note, len, channel_id),
    {
        if len == 0 || !is_valid_channel(channel_id) {
            return ;
        }
        let midi_value: u8 = match midi_note.checked_midi_value() {
            Some(v) => v,
            None => {
                return ;
            },
        };
        if len > u32::MAX - self.step {
            return ;
        }
        let note_play = NotePlay { midi_value, channel_id, vel: midi_note.vel };
        self.notes_to_play.push(note_play);
        let step: u32 = self.step + len;
        self.stop_note_at_step((midi_value, channel_id), step);
    }

    /// Requests the MIDI controller to start playing a note. Specify the MIDI channel id
    /// (`channel_id`). The note will not stop until [`MidiController::stop_note`] is called with
    /// the same note, octave and MIDI channel id.
    ///
    /// The request is dropped when the channel is not valid or when the MIDI
    /// value of the note does not fit a byte.
    pub fn start_note(&mut self, midi_note: MidiNote, channel_id: u8)
        ensures
            final(self)@ == old(self)@.start_note(midi_note, channel_id),
    {
        if !is_valid_channel(channel_id) {
            return ;
        }
        let midi_value: u8 = match midi_note.checked_midi_value() {
            Some(v) => v,
            None => {
                return ;
            },
        };
        let note_play = NotePlay { midi_value, channel_id, vel: midi_note.vel };
        self.notes_to_play.push(note_play);
        sustained_insert(&mut self.start_note_set, (midi_value, channel_id));
    }

    /// Requests the MIDI controller to stop playing a note that was started by
    /// [`MidiController::start_note`]. The note will stop only if the note, octave and MIDI
    /// channel are identical to what was used in [`MidiController::start_note`].
    ///
    /// The request is dropped when the channel is not valid or when the MIDI
    /// value of the note does not fit a byte.
    pub fn stop_note(&mut self, midi_note: MidiNote, channel_id: u8)
        ensures
            final(self)@ == old(self)@.stop_note(midi_note, channel_id),
    {
        if !is_valid_channel(channel_id) {
            return ;
        }
        let midi_value: u8 = match midi_note.checked_midi_value() {
            Some(v) => v,
            None => {
                return ;
            },
        };
        sustained_remove(&mut self.start_note_set, (midi_value, channel_id));
        let step: u32 = self.step;
        self.stop_note_at_step((midi_value, channel_id), step);
    }

    fn stop_note_at_step(&mut self, note: (u8, u8), step: u32)
        ensures
            final(self)@ == old(self)@.off_at(step, note),
    {
        let mut notes: Vec<(u8, u8)> = match schedule_remove(&mut self.play_note_set, step) {
            Some(notes) => notes,
            None => Vec::new(),
        };
        notes.push(note);
        schedule_insert(&mut self.play_note_set, step, notes);
        assert(self@.scheduled_offs =~= old(self)@.off_at(step, note).scheduled_offs);
    }

    /// Sends a MIDI Control Change (CC) message, unless the channel is not
    /// valid.
    pub fn send_cc(&mut self, channel_id: u8, parameter: u8, value: u8)
        ensures
            final(self)@ == old(self)@.send_cc(channel_id, parameter, value),
    {
        if !is_valid_channel(channel_id) {
            return ;
        }
        let ghost taken = self.midi_out.taken();
        let r = self.midi_out.send_cc(channel_id, parameter, value);
        proof {
            lemma_calls_push(taken, OutCall::Cc { channel_id, parameter, value }, r);
        }
    }

    /// Sends a MIDI clock pulse.
    pub fn send_clock(&mut self)
        ensures
            final(self)@ == old(self)@.called(OutCall::Clock),
    {
        let ghost taken = self.midi_out.taken();
        let r = self.midi_out.send_clock();
        proof {
            lemma_calls_push(taken, OutCall::Clock, r);
        }
    }

    /// Sets the step back to 0 and sends a MIDI start.
    pub fn start(&mut self)
        ensures
            final(self)@ == old(self)@.start(),
    {
        self.step = 0;
        let ghost taken = self.midi_out.taken();
        let r = self.midi_out.send_start();
        proof {
            lemma_calls_push(taken, OutCall::Start, r);
        }
    }

    /// Sends a MIDI continue.
    pub fn send_continue(&mut self)
        ensures
            final(self)@ == old(self)@.called(OutCall::Continue),
    {
        let ghost taken = self.midi_out.taken();
        let r = self.midi_out.send_continue();
        proof {
            lemma_calls_push(taken, OutCall::Continue, r);
        }
    }

    /// Sends a MIDI stop.
    pub fn stop(&mut self)
        ensures
            final(self)@ == old(self)@.called(OutCall::Stop),
    {
        let ghost taken = self.midi_out.taken();
        let r = self.midi_out.send_stop();
        proof {
            lemma_calls_push(taken, OutCall::Stop, r);
        }
    }

    /// Sends `message` through the primitive of its kind: a note-off through
    /// `send_note_off`, a note-on through `send_note_on`, a control change
    /// through `send_cc`, a program change through `send_pc`, and clock,
    /// start, continue and stop each through their own. A message whose
    /// channel is not valid, or whose note has no MIDI value that fits a
    /// byte, is dropped.
    pub fn send_message(&mut self, message: MidiMessage)
        ensures
            final(self)@ == old(self)@.send_message(message),
    {
        let sendable = match message {
            MidiMessage::NoteOff { channel, note } => is_valid_channel(channel)
                && note.checked_midi_value().is_some(),
            MidiMessage::NoteOn { channel, note } => is_valid_channel(channel)
                && note.checked_midi_value().is_some(),
            MidiMessage::CC { channel, .. } => is_valid_channel(channel),
            MidiMessage::PC { channel, .. } => is_valid_channel(channel),
            _ => true,
        };
        if sendable {
            let ghost taken = self.midi_out.taken();
            let r = self.midi_out.send_message(message);
            proof {
                lemma_calls_push(taken, call_of(message), r);
            }
        }
    }

    // Sends a note-off for each note of `notes` that is on `channel`, and
    // hands back the others.
    fn release_on_channel(&mut self, notes: &Vec<(u8, u8)>, channel: Option<u8>) -> (rest: Vec<
        (u8, u8),
    >)
        ensures
            final(self)@ == (Registry {
                sent: old(self)@.sent + offs_of(released(notes@, channel)),
                ..old(self)@
            }),
            rest@ == kept(notes@, channel),
    {
        let mut rest: Vec<(u8, u8)> = Vec::new();
        let mut i: usize = 0;
        assert(self@.sent =~= old(self)@.sent + offs_of(released(notes@.take(0), channel)));
        while i < notes.len()
            invariant
                0 <= i <= notes.len(),
                self@ == (Registry {
                    sent: old(self)@.sent + offs_of(released(notes@.take(i as int), channel)),
                    ..old(self)@
                }),
                rest@ == kept(notes@.take(i as int), channel),
            decreases notes.len() - i,
        {
            let n = notes[i];
            let hit = match channel {
                None => true,
                Some(c) => n.1 == c,
            };
            proof {
                assert(notes@.take(i + 1) =~= notes@.take(i as int).push(n));
                lemma_split_push(notes@.take(i as int), n, channel);
            }
            if hit {
                self.note_off(n.1, n.0);
                assert(offs_of(released(notes@.take(i + 1), channel)) =~= offs_of(
                    released(notes@.take(i as int), channel),
                ).push(OutCall::NoteOff { channel_id: n.1, note: n.0 }));
                assert(self@.sent =~= old(self)@.sent + offs_of(
                    released(notes@.take(i + 1), channel),
                ));
            } else {
                rest.push(n);
            }
            i += 1;
        }
        assert(notes@.take(i as int) =~= notes@);
        rest
    }

    /// Stops every note that sounds on `channel`, or on any channel where
    /// none is given: sends a note-off for each sustained note and for each
    /// note whose release is scheduled, and forgets them. The notes that
    /// wait for their note-on stay.
    pub fn stop_all_notes(&mut self, channel: Option<u8>)
        ensures
            old(self)@.stopped_all(final(self)@, channel),
    {
        let ghost pre = self@;
        let sustained = sustained_drain(&mut self.start_note_set);
        let ghost mut notes: Seq<(u8, u8)> = Seq::empty();
        let mut i: usize = 0;
        assert(self@.sent =~= pre.sent + offs_of(notes));
        while i < sustained.len()
            invariant
                0 <= i <= sustained.len(),
                notes == released(sustained@.take(i as int), channel),
                self@.step == pre.step,
                self@.pending_ons == pre.pending_ons,
                self@.scheduled_offs == pre.scheduled_offs,
                self@.sent == pre.sent + offs_of(notes),
                sustained@.no_duplicates(),
                forall|n: (u8, u8)| sustained@.contains(n) == pre.sustained.contains(n),
                forall|n: (u8, u8)| #[trigger]
                    self@.sustained.contains(n) <==> (sustained@.take(i as int).contains(n)
                        && !on_channel(n, channel)),
            decreases sustained.len() - i,
        {
            let n = sustained[i];
            let hit = match channel {
                None => true,
                Some(c) => n.1 == c,
            };
            let ghost front = sustained@.take(i as int);
            proof {
                assert(sustained@.take(i + 1) =~= front.push(n));
                lemma_split_push(front, n, channel);
                let upto = sustained@.take(i + 1);
                assert forall|m: (u8, u8)| #[trigger]
                    upto.contains(m) <==> (front.contains(m) || m == n) by {
                    if front.contains(m) {
                        let k = choose|k: int| 0 <= k < front.len() && front[k] == m;
                        assert(upto[k] == m);
                    }
                    assert(upto[i as int] == n);
                    if upto.contains(m) {
                        let k = choose|k: int| 0 <= k < upto.len() && upto[k] == m;
                        if k < i {
                            assert(front[k] == m);
                        }
                    }
                }
            }
            if hit {
                self.note_off(n.1, n.0);
                proof {
                    assert(offs_of(notes.push(n)) =~= offs_of(notes).push(
                        OutCall::NoteOff { channel_id: n.1, note: n.0 },
                    ));
                    notes = notes.push(n);
                }
                assert(self@.sent =~= pre.sent + offs_of(notes));
            } else {
                let ghost held_before = self@.sustained;
                sustained_insert(&mut self.start_note_set, n);
                assert(self@.sustained == held_before.insert(n));
            }
            assert forall|m: (u8, u8)| #[trigger]
                self@.sustained.contains(m) <==> (sustained@.take(i + 1).contains(m) && !on_channel(
                    m,
                    channel,
                )) by {
                assert(sustained@.take(i + 1).contains(m) <==> (front.contains(m) || m == n));
            }
            i += 1;
        }
        let ghost first = notes;
        proof {
            assert(sustained@.take(i as int) =~= sustained@);
            assert(self@.sustained =~= pre.sustained_off_channel(channel));
            sustained@.lemma_multiset_has_no_duplicates();
            sustained@.to_multiset_ensures();
            assert forall|n: (u8, u8)| #[trigger]
                first.to_multiset().count(n) == if on_channel(n, channel) && pre.sustained.contains(
                    n,
                ) {
                    1nat
                } else {
                    0nat
                } by {
                lemma_split_count(sustained@, channel, n);
            }
        }
        let all = schedule_drain(&mut self.play_note_set);
        let mut j: usize = 0;
        assert(self@.scheduled_offs =~= Map::new(
            |s: u32|
                listed(all@, 0, s) && kept(pre.scheduled_offs[s], channel).len() > 0,
            |s: u32| kept(pre.scheduled_offs[s], channel),
        ));
        while j < all.len()
            invariant
                0 <= j <= all.len(),
                forall|i: int|
                    0 <= i < all@.len() ==> #[trigger] pre.scheduled_offs.contains_key(all@[i].0)
                        && pre.scheduled_offs[all@[i].0] == all@[i].1@,
                forall|i: int, k: int| 0 <= i < k < all@.len() ==> all@[i].0 != all@[k].0,
                self@.step == pre.step,
                self@.pending_ons == pre.pending_ons,
                self@.sustained == pre.sustained_off_channel(channel),
                self@.sent == pre.sent + offs_of(notes),
                forall|n: (u8, u8)| #[trigger]
                    notes.to_multiset().count(n) == first.to_multiset().count(n) + (if on_channel(
                        n,
                        channel,
                    ) {
                        total_of(all@.take(j as int)).count(n)
                    } else {
                        0
                    }),
                self@.scheduled_offs == Map::new(
                    |s: u32|
                        listed(all@, j as int, s) && kept(pre.scheduled_offs[s], channel).len() > 0,
                    |s: u32| kept(pre.scheduled_offs[s], channel),
                ),
            decreases all.len() - j,
        {
            let step: u32 = all[j].0;
            let ghost list = all@[j as int].1@;
            let ghost before = notes;
            assert(pre.scheduled_offs.contains_key(all@[j as int].0));
            let rest = self.release_on_channel(&all[j].1, channel);
            if rest.len() > 0 {
                schedule_insert(&mut self.play_note_set, step, rest);
            }
            proof {
                notes = before + released(list, channel);
                assert(offs_of(notes) =~= offs_of(before) + offs_of(released(list, channel)));
                assert(self@.sent =~= pre.sent + offs_of(notes));
                assert(all@.take(j + 1).drop_last() =~= all@.take(j as int));
                vstd::seq_lib::lemma_multiset_commutative(before, released(list, channel));
                assert forall|n: (u8, u8)| #[trigger]
                    notes.to_multiset().count(n) == first.to_multiset().count(n) + (if on_channel(
                        n,
                        channel,
                    ) {
                        total_of(all@.take(j + 1)).count(n)
                    } else {
                        0
                    }) by {
                    lemma_split_count(list, channel, n);
                    assert(before.to_multiset().count(n) == first.to_multiset().count(n) + (
                    if on_channel(n, channel) {
                        total_of(all@.take(j as int)).count(n)
                    } else {
                        0
                    }));
                }
                assert forall|s: u32| listed(all@, j + 1, s) <==> (listed(all@, j as int, s) || s
                    == step) by {
                    if listed(all@, j + 1, s) {
                        let k = choose|k: int|
                            0 <= k < j + 1 && k < all@.len() && #[trigger] all@[k].0 == s;
                        if k < j {
                            assert(listed(all@, j as int, s));
                        }
                    }
                    if listed(all@, j as int, s) {
                        let k = choose|k: int|
                            0 <= k < j && k < all@.len() && #[trigger] all@[k].0 == s;
                        assert(0 <= k < j + 1 && all@[k].0 == s);
                    }
                    if s == step {
                        assert(all@[j as int].0 == s);
                    }
                }
                assert(!listed(all@, j as int, step)) by {
                    if listed(all@, j as int, step) {
                        let k = choose|k: int|
                            0 <= k < j && k < all@.len() && #[trigger] all@[k].0 == step;
                        assert(all@[k].0 != all@[j as int].0);
                    }
                }
                assert(self@.scheduled_offs =~= Map::new(
                    |s: u32|
                        listed(all@, j + 1, s) && kept(pre.scheduled_offs[s], channel).len() > 0,
                    |s: u32| kept(pre.scheduled_offs[s], channel),
                ));
            }
            j += 1;
        }
        proof {
            assert(all@.take(j as int) =~= all@);
            lemma_total_of_entries(pre.scheduled_offs, all@);
            assert forall|s: u32| listed(all@, j as int, s) <==> pre.scheduled_offs.contains_key(
                s,
            ) by {
                if listed(all@, j as int, s) {
                    let k = choose|k: int|
                        0 <= k < j && k < all@.len() && #[trigger] all@[k].0 == s;
                    assert(pre.scheduled_offs.contains_key(all@[k].0));
                }
                if pre.scheduled_offs.contains_key(s) {
                    let k = choose|k: int| 0 <= k < all@.len() && all@[k].0 == s;
                    assert(0 <= k < j && all@[k].0 == s);
                }
            }
            assert(self@.scheduled_offs =~= pre.scheduled_off_channel(channel));
            assert(pre.released_by(self@, channel, notes));
        }
    }

    /// Shuts the controller down: stops every note on every channel, then
    /// sends a MIDI stop.
    pub fn finish(&mut self)
        ensures
            exists|mid: Registry| #[trigger]
                old(self)@.stopped_all(mid, None) && final(self)@ == mid.called(OutCall::Stop),
    {
        self.stop_all_notes(None);
        let ghost mid = self@;
        self.stop();
        assert(old(self)@.stopped_all(mid, None) && self@ == mid.called(OutCall::Stop));
    }

    /// Carries out one instruction. An instruction that cannot be carried
    /// out, for its channel, its length or its note, is dropped and changes
    /// nothing.
    pub fn execute(&mut self, instruction: Instruction)
        ensures
            old(self)@.executed(final(self)@, instruction),
    {
        match instruction {
            Instruction::PlayNote { midi_note, len, channel_id } => self.play_note(
                midi_note,
                len,
                channel_id,
            ),
            Instruction::StartNote { midi_note, channel_id } => self.start_note(
                midi_note,
                channel_id,
            ),
            Instruction::StopNote { midi_note, channel_id } => self.stop_note(
                midi_note,
                channel_id,
            ),
            Instruction::SendCC { channel_id, parameter, value } => self.send_cc(
                channel_id,
                parameter,
                value,
            ),
            Instruction::StopAllNotes => self.stop_all_notes(None),
            Instruction::Continue => self.send_continue(),
            Instruction::Start => self.start(),
            Instruction::Stop => self.stop(),
            Instruction::MidiMessage { midi_message } => self.send_message(midi_message),
        }
    }

    /// Carries out `instructions` one after the other.
    pub fn execute_all(&mut self, instructions: &Vec<Instruction>)
        ensures
            old(self)@.executed_all(final(self)@, instructions@),
    {
        let mut i: usize = 0;
        while i < instructions.len()
            invariant
                0 <= i <= instructions.len(),
                old(self)@.executed_all(self@, instructions@.take(i as int)),
            decreases instructions.len() - i,
        {
            let ghost mid = self@;
            self.execute(instructions[i]);
            proof {
                let upto = instructions@.take(i + 1);
                assert(upto.drop_last() =~= instructions@.take(i as int));
                assert(mid.executed(self@, upto.last()));
            }
            i += 1;
        }
        assert(instructions@.take(i as int) =~= instructions@);
    }

    /// Request the [`MidiController`] to play `track`. This method has to be called at every MIDI
    /// step the user wants the track to be played: the track is asked for
    /// the instructions of the current step, and they are carried out,
    /// whatever they are.
    pub fn play_track<Tr: Track>(&mut self, track: &mut Tr)
        ensures
            exists|asked: Seq<Instruction>| old(self)@.executed_all(final(self)@, asked),
    {
        let instructions = track.play_step(self.step);
        self.execute_all(&instructions);
    }

    /// Ends the current step: releases the notes that are due at it, then
    /// turns on the notes triggered during it, and moves to `next_step`.
    pub fn update(&mut self, next_step: u32)
        ensures
            final(self)@ == old(self)@.update(next_step),
    {
        // First send the off signal to every note that end this step.
        let step: u32 = self.step;
        let notes = schedule_remove(&mut self.play_note_set, step);
        if let Some(notes_off) = notes {
            let mut i: usize = 0;
            while i < notes_off.len()
                invariant
                    0 <= i <= notes_off.len(),
                    notes_off@ == old(self)@.due_at(step),
                    self@ == (Registry {
                        scheduled_offs: old(self)@.scheduled_offs.remove(step),
                        sent: old(self)@.sent + offs_of(notes_off@.take(i as int)),
                        ..old(self)@
                    }),
                decreases notes_off.len() - i,
            {
                let n = notes_off[i];
                self.note_off(n.1, n.0);
                assert(offs_of(notes_off@.take(i + 1)) =~= offs_of(notes_off@.take(i as int)).push(
                    OutCall::NoteOff { channel_id: n.1, note: n.0 },
                ));
                assert(self@.sent =~= old(self)@.sent + offs_of(notes_off@.take(i + 1)));
                i += 1;
            }
            assert(notes_off@.take(i as int) =~= notes_off@);
        } else {
            assert(self@.sent =~= old(self)@.sent + offs_of(old(self)@.due_at(step)));
        }
        // Then play all the notes that were triggered this step...
        let ghost before = self@;
        let mut i: usize = 0;
        while i < self.notes_to_play.len()
            invariant
                0 <= i <= self.notes_to_play.len(),
                self@ == (Registry {
                    sent: before.sent + ons_of(before.pending_ons.take(i as int)),
                    ..before
                }),
            decreases self.notes_to_play.len() - i,
        {
            let n = self.notes_to_play[i];
            self.note_on(n.channel_id, n.midi_value, n.vel);
            assert(ons_of(before.pending_ons.take(i + 1)) =~= ons_of(
                before.pending_ons.take(i as int),
            ).push(OutCall::NoteOn { channel_id: n.channel_id, note: n.midi_value, velocity: n.vel }));
            assert(self@.sent =~= before.sent + ons_of(before.pending_ons.take(i + 1)));
            i += 1;
        }
        assert(before.pending_ons.take(i as int) =~= before.pending_ons);
        // ...and clear them.
        self.notes_to_play.clear();
        // Finally update the step.
        self.step = next_step;
        assert(self@.pending_ons =~= Seq::empty());
    }
}

/// Carrying out one run of instructions and then another is carrying out
/// the two as one.
pub proof fn lemma_executed_concat(
    pre: Registry,
    mid: Registry,
    post: Registry,
    first: Seq<Instruction>,
    second: Seq<Instruction>,
)
    requires
        pre.executed_all(mid, first),
        mid.executed_all(post, second),
    ensures
        pre.executed_all(post, first + second),
    decreases second.len(),
{
    if second.len() == 0 {
        assert(first + second =~= first);
    } else {
        let before = choose|before: Registry|
            mid.executed_all(before, second.drop_last()) && #[trigger] before.executed(
                post,
                second.last(),
            );
        lemma_executed_concat(pre, mid, before, first, second.drop_last());
        assert((first + second).drop_last() =~= first + second.drop_last());
        assert((first + second).last() == second.last());
    }
}

} // verus!
