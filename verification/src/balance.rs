//! Every note that is turned on is turned off again: the balance of
//! note-ons and note-offs, and the step at which a played note is released.

use vstd::prelude::*;
use vstd::multiset::Multiset;
use crate::held::{
    due_before, kept, lemma_all_due_insert, lemma_due_nothing, lemma_empty_count, lemma_split_all,
    lemma_split_count, on_channel,
};
use crate::schedule::{empty_schedule, no_notes};
use crate::instruction::Instruction;
use crate::midi::{valid_channel, MidiMessage, MidiNote};
use crate::midi_controller::{ons_of, NotePlay, Registry};
use crate::midi_out::{
    lemma_tally_concat, lemma_tally_offs, lemma_tally_push, note_offs, note_ons, offs_of, OutCall,
};

verus! {

/// What happens to a registry in the course of a run.
pub enum Event {
    /// An instruction is carried out.
    Asked(Instruction),
    /// A step ends with the flush to the step given.
    Flushed(u32),
}

/// Note-on calls turn on their notes and turn off none.
pub proof fn lemma_tally_ons(notes: Seq<NotePlay>)
    ensures
        note_offs(ons_of(notes)) =~= Multiset::empty(),
        notes.len() == 0 ==> note_ons(ons_of(notes)) =~= Multiset::empty(),
    decreases notes.len(),
{
    if notes.len() > 0 {
        let front = notes.drop_last();
        let n = notes.last();
        lemma_tally_ons(front);
        let call = OutCall::NoteOn { channel_id: n.channel_id, note: n.midi_value, velocity: n.vel };
        assert(ons_of(notes) =~= ons_of(front).push(call));
        lemma_tally_push(ons_of(front), call);
    }
}

/// One more waiting note is one more note to turn on.
pub proof fn lemma_pending_push(notes: Seq<NotePlay>, n: NotePlay)
    ensures
        note_ons(ons_of(notes.push(n))) =~= note_ons(ons_of(notes)).insert(n.key()),
{
    let call = OutCall::NoteOn { channel_id: n.channel_id, note: n.midi_value, velocity: n.vel };
    assert(ons_of(notes.push(n)) =~= ons_of(notes).push(call));
    lemma_tally_push(ons_of(notes), call);
}

impl Registry {
    /// How often `note` waits for its note-on.
    pub open spec fn waiting(self, note: (u8, u8)) -> nat {
        note_ons(ons_of(self.pending_ons)).count(note)
    }

    /// How often `note` was turned on.
    pub open spec fn turned_on(self, note: (u8, u8)) -> nat {
        note_ons(self.sent).count(note)
    }

    /// How often `note` was turned off.
    pub open spec fn turned_off(self, note: (u8, u8)) -> nat {
        note_offs(self.sent).count(note)
    }

    /// The registry is balanced when, for every note, the note-ons sent and
    /// waiting are as many as the note-offs sent and owed.
    pub open spec fn balanced(self) -> bool {
        forall|note: (u8, u8)|
            self.turned_on(note) + self.waiting(note) == self.turned_off(note) + #[trigger] self.held(
                note,
            )
    }

    /// Whether `instruction` keeps to the life of a note: it starts no note
    /// that is already sustained, stops none that is not, and sends no
    /// note-on or note-off of its own. An instruction that is dropped always
    /// does.
    pub open spec fn orderly(self, instruction: Instruction) -> bool {
        match instruction {
            Instruction::StartNote { midi_note, channel_id } => Registry::accepts(
                midi_note,
                channel_id,
            ) ==> !self.sustained.contains(Registry::pending(midi_note, channel_id).key()),
            Instruction::StopNote { midi_note, channel_id } => Registry::accepts(
                midi_note,
                channel_id,
            ) ==> self.sustained.contains(Registry::pending(midi_note, channel_id).key()),
            Instruction::MidiMessage { midi_message } => match midi_message {
                MidiMessage::NoteOn { .. } => !midi_message.sendable(),
                MidiMessage::NoteOff { .. } => !midi_message.sendable(),
                _ => true,
            },
            _ => true,
        }
    }

    /// Whether `post` is the registry after `event`, and `event` keeps to
    /// the life of a note.
    pub open spec fn stepped(self, post: Registry, event: Event) -> bool {
        match event {
            Event::Asked(instruction) => self.orderly(instruction) && self.executed(
                post,
                instruction,
            ),
            Event::Flushed(next_step) => post == self.update(next_step),
        }
    }

    /// Whether `post` is the registry after a run of `events`, of which
    /// each keeps to the life of a note.
    pub open spec fn ran(self, post: Registry, events: Seq<Event>) -> bool
        decreases events.len(),
    {
        if events.len() == 0 {
            post == self
        } else {
            exists|mid: Registry|
                self.ran(mid, events.drop_last()) && #[trigger] mid.stepped(post, events.last())
        }
    }

    /// How often a release of `note` is due at `step`.
    pub open spec fn due_count(self, step: u32, note: (u8, u8)) -> nat {
        self.due_at(step).to_multiset().count(note)
    }

    /// Whether `post` is the registry after `event`, where `event` is an
    /// instruction that leaves `note` alone, or the flush from the current
    /// step to the next.
    pub open spec fn stepped_past(self, post: Registry, event: Event, note: (u8, u8)) -> bool {
        match event {
            Event::Asked(instruction) => leaves_alone(instruction, note) && self.executed(
                post,
                instruction,
            ),
            Event::Flushed(next_step) => next_step == self.step + 1 && post == self.update(
                next_step,
            ),
        }
    }

    /// Whether `post` is the registry after a run of `events`: instructions
    /// that leave `note` alone, in any number, between flushes that go from
    /// each step to the next.
    pub open spec fn ran_past(self, post: Registry, events: Seq<Event>, note: (u8, u8)) -> bool
        decreases events.len(),
    {
        if events.len() == 0 {
            post == self
        } else {
            exists|mid: Registry|
                self.ran_past(mid, events.drop_last(), note) && #[trigger] mid.stepped_past(
                    post,
                    events.last(),
                    note,
                )
        }
    }
}

/// Whether `instruction` leaves `note` alone: it does not play, start or
/// stop the note, sends no note-on or note-off of its own for it, does not
/// stop all notes, and does not set the step back.
pub open spec fn leaves_alone(instruction: Instruction, note: (u8, u8)) -> bool {
    match instruction {
        Instruction::PlayNote { midi_note, channel_id, .. } => !names(midi_note, channel_id, note),
        Instruction::StartNote { midi_note, channel_id } => !names(midi_note, channel_id, note),
        Instruction::StopNote { midi_note, channel_id } => !names(midi_note, channel_id, note),
        Instruction::MidiMessage { midi_message } => match midi_message {
            MidiMessage::NoteOn { channel, note: n } => !names(n, channel, note),
            MidiMessage::NoteOff { channel, note: n } => !names(n, channel, note),
            _ => true,
        },
        Instruction::StopAllNotes => false,
        Instruction::Start => false,
        _ => true,
    }
}

/// Whether a note on a channel is one that can be sent and is `note`.
pub open spec fn names(midi_note: MidiNote, channel_id: u8, note: (u8, u8)) -> bool {
    Registry::accepts(midi_note, channel_id) && Registry::pending(midi_note, channel_id).key()
        == note
}

/// A call that is neither a note-on nor a note-off keeps the balance.
pub proof fn lemma_called_keeps_balance(r: Registry, call: OutCall)
    requires
        r.balanced(),
        !(call is NoteOn),
        !(call is NoteOff),
    ensures
        r.called(call).balanced(),
{
    lemma_tally_push(r.sent, call);
    assert forall|note: (u8, u8)|
        r.called(call).turned_on(note) + r.called(call).waiting(note) == r.called(call).turned_off(
            note,
        ) + #[trigger] r.called(call).held(note) by {
        assert(r.held(note) == r.called(call).held(note));
    }
}

/// Scheduling one more release of a note makes the registry owe one more
/// note-off for it, and changes what it owes for no other note.
pub proof fn lemma_off_at_held(r: Registry, step: u32, key: (u8, u8), note: (u8, u8))
    ensures
        r.off_at(step, key).held(note) == r.held(note) + if note == key {
            1nat
        } else {
            0nat
        },
{
    broadcast use vstd::seq_lib::group_to_multiset_ensures;

    let due = r.due_at(step);
    lemma_all_due_insert(r.scheduled_offs, step, due.push(key));
    if !r.scheduled_offs.contains_key(step) {
        lemma_empty_count(due, note);
    }
    assert(due.push(key).to_multiset() =~= due.to_multiset().insert(key));
}

/// A new registry is balanced.
pub proof fn lemma_initial_balanced()
    ensures
        Registry::initial().balanced(),
{
    let r = Registry::initial();
    lemma_due_nothing(r.scheduled_offs, 0x1_0000_0000);
    lemma_tally_ons(r.pending_ons);
    assert forall|note: (u8, u8)|
        r.turned_on(note) + r.waiting(note) == r.turned_off(note) + #[trigger] r.held(note) by {}
}

/// The flush at the end of a step keeps the balance: every waiting note is
/// turned on, and every note-off sent was owed.
pub proof fn lemma_update_keeps_balance(r: Registry, next_step: u32)
    requires
        r.balanced(),
    ensures
        r.update(next_step).balanced(),
{
    let post = r.update(next_step);
    let due = r.due_at(r.step);
    lemma_tally_concat(r.sent, offs_of(due));
    lemma_tally_concat(r.sent + offs_of(due), ons_of(r.pending_ons));
    lemma_tally_offs(due);
    lemma_tally_ons(r.pending_ons);
    lemma_tally_ons(post.pending_ons);
    lemma_all_due_insert(r.scheduled_offs, r.step, due);
    assert forall|note: (u8, u8)|
        post.turned_on(note) + post.waiting(note) == post.turned_off(note) + #[trigger] post.held(
            note,
        ) by {
        assert(r.turned_on(note) + r.waiting(note) == r.turned_off(note) + r.held(note));
        if !r.scheduled_offs.contains_key(r.step) {
            lemma_empty_count(due, note);
        }
    }
}

/// What a schedule holds once the notes on a channel are struck from it.
pub proof fn lemma_due_off_channel(r: Registry, channel: Option<u8>, note: (u8, u8), n: nat)
    ensures
        due_before(r.scheduled_off_channel(channel), n).count(note) == if on_channel(
            note,
            channel,
        ) {
            0
        } else {
            due_before(r.scheduled_offs, n).count(note)
        },
    decreases n,
{
    if n > 0 {
        lemma_due_off_channel(r, channel, note, (n - 1) as nat);
        let step = (n - 1) as u32;
        if r.scheduled_offs.contains_key(step) {
            lemma_split_count(r.scheduled_offs[step], channel, note);
            if kept(r.scheduled_offs[step], channel).len() == 0 {
                lemma_empty_count(kept(r.scheduled_offs[step], channel), note);
            }
        }
    }
}

/// Stopping the notes on a channel keeps the balance: a note-off is sent
/// for what was owed on the channel, and that is owed no longer.
pub proof fn lemma_stop_all_keeps_balance(r: Registry, post: Registry, channel: Option<u8>)
    requires
        r.balanced(),
        r.stopped_all(post, channel),
    ensures
        post.balanced(),
        forall|note: (u8, u8)| on_channel(note, channel) ==> #[trigger] post.held(note) == 0,
{
    let notes = choose|notes: Seq<(u8, u8)>| r.released_by(post, channel, notes);
    lemma_tally_concat(r.sent, offs_of(notes));
    lemma_tally_offs(notes);
    assert forall|note: (u8, u8)|
        post.turned_on(note) + post.waiting(note) == post.turned_off(note) + #[trigger] post.held(
            note,
        ) && (on_channel(note, channel) ==> post.held(note) == 0) by {
        assert(r.turned_on(note) + r.waiting(note) == r.turned_off(note) + r.held(note));
        lemma_due_off_channel(r, channel, note, 0x1_0000_0000);
        assert(notes.to_multiset().count(note) == if on_channel(note, channel) {
            r.held(note)
        } else {
            0
        });
    }
}

/// Stopping the notes on every channel leaves the registry with no
/// sustained note and no scheduled release.
pub proof fn lemma_stop_all_clears(r: Registry, post: Registry)
    requires
        r.stopped_all(post, None),
    ensures
        post.sustained == no_notes(),
        post.scheduled_offs == empty_schedule(),
{
    assert(post.sustained =~= no_notes());
    assert forall|s: u32| !post.scheduled_offs.contains_key(s) by {
        if r.scheduled_offs.contains_key(s) {
            lemma_split_all(r.scheduled_offs[s]);
        }
    }
    assert(post.scheduled_offs =~= empty_schedule());
}

/// An orderly instruction keeps the balance.
pub proof fn lemma_execute_keeps_balance(r: Registry, post: Registry, instruction: Instruction)
    requires
        r.balanced(),
        r.orderly(instruction),
        r.executed(post, instruction),
    ensures
        post.balanced(),
{
    match instruction {
        Instruction::PlayNote { midi_note, len, channel_id } => {
            if r.accepts_play(midi_note, len, channel_id) {
                let play = Registry::pending(midi_note, channel_id);
                let mid = Registry { pending_ons: r.pending_ons.push(play), ..r };
                lemma_pending_push(r.pending_ons, play);
                assert forall|note: (u8, u8)|
                    post.turned_on(note) + post.waiting(note) == post.turned_off(note)
                        + #[trigger] post.held(note) by {
                    assert(r.turned_on(note) + r.waiting(note) == r.turned_off(note) + r.held(
                        note,
                    ));
                    lemma_off_at_held(mid, (r.step + len) as u32, play.key(), note);
                    assert(mid.held(note) == r.held(note));
                }
            }
        },
        Instruction::StartNote { midi_note, channel_id } => {
            if Registry::accepts(midi_note, channel_id) {
                let play = Registry::pending(midi_note, channel_id);
                lemma_pending_push(r.pending_ons, play);
                assert forall|note: (u8, u8)|
                    post.turned_on(note) + post.waiting(note) == post.turned_off(note)
                        + #[trigger] post.held(note) by {
                    assert(r.turned_on(note) + r.waiting(note) == r.turned_off(note) + r.held(
                        note,
                    ));
                }
            }
        },
        Instruction::StopNote { midi_note, channel_id } => {
            if Registry::accepts(midi_note, channel_id) {
                let key = Registry::pending(midi_note, channel_id).key();
                let mid = Registry { sustained: r.sustained.remove(key), ..r };
                assert forall|note: (u8, u8)|
                    post.turned_on(note) + post.waiting(note) == post.turned_off(note)
                        + #[trigger] post.held(note) by {
                    assert(r.turned_on(note) + r.waiting(note) == r.turned_off(note) + r.held(
                        note,
                    ));
                    lemma_off_at_held(mid, r.step, key, note);
                }
            }
        },
        Instruction::SendCC { channel_id, parameter, value } => {
            if valid_channel(channel_id) {
                lemma_called_keeps_balance(r, OutCall::Cc { channel_id, parameter, value });
            }
        },
        Instruction::StopAllNotes => {
            lemma_stop_all_keeps_balance(r, post, None);
        },
        Instruction::MidiMessage { midi_message } => {
            if midi_message.sendable() {
                lemma_called_keeps_balance(r, crate::midi_out::call_of(midi_message));
            }
        },
        Instruction::Continue => {
            lemma_called_keeps_balance(r, OutCall::Continue);
        },
        Instruction::Start => {
            let mid = Registry { step: 0, ..r };
            assert forall|note: (u8, u8)|
                mid.turned_on(note) + mid.waiting(note) == mid.turned_off(note)
                    + #[trigger] mid.held(note) by {
                assert(r.turned_on(note) + r.waiting(note) == r.turned_off(note) + r.held(note));
            }
            lemma_called_keeps_balance(mid, OutCall::Start);
        },
        Instruction::Stop => {
            lemma_called_keeps_balance(r, OutCall::Stop);
        },
    }
}

/// No note is left sounding. When a balanced registry in which no note
/// waits for its note-on is shut down, by stopping the notes on every
/// channel, then every note was turned off as often as it was turned on,
/// and the registry holds no note.
pub proof fn lemma_no_leaked_notes(r: Registry, post: Registry)
    requires
        r.balanced(),
        r.pending_ons.len() == 0,
        r.stopped_all(post, None),
    ensures
        forall|note: (u8, u8)| #[trigger] post.turned_on(note) == post.turned_off(note),
        forall|note: (u8, u8)| #[trigger] post.held(note) == 0,
{
    lemma_stop_all_keeps_balance(r, post, None);
    lemma_tally_ons(post.pending_ons);
    assert forall|note: (u8, u8)| #[trigger] post.turned_on(note) == post.turned_off(note) by {
        assert(post.held(note) == 0);
        assert(post.turned_on(note) + post.waiting(note) == post.turned_off(note) + post.held(
            note,
        ));
    }
}

/// A run of orderly instructions and flushes keeps the balance.
pub proof fn lemma_run_keeps_balance(r: Registry, post: Registry, events: Seq<Event>)
    requires
        r.balanced(),
        r.ran(post, events),
    ensures
        post.balanced(),
    decreases events.len(),
{
    if events.len() > 0 {
        let mid = choose|mid: Registry|
            r.ran(mid, events.drop_last()) && #[trigger] mid.stepped(post, events.last());
        lemma_run_keeps_balance(r, mid, events.drop_last());
        match events.last() {
            Event::Asked(instruction) => lemma_execute_keeps_balance(mid, post, instruction),
            Event::Flushed(next_step) => lemma_update_keeps_balance(mid, next_step),
        }
    }
}

/// After any run of orderly instructions and flushes from a new registry,
/// at the end of which no note waits for its note-on, a shutdown leaves
/// every note turned off as often as it was turned on.
pub proof fn lemma_no_leaked_notes_in_a_run(events: Seq<Event>, end: Registry, post: Registry)
    requires
        Registry::initial().ran(end, events),
        end.pending_ons.len() == 0,
        end.stopped_all(post, None),
    ensures
        forall|note: (u8, u8)| #[trigger] post.turned_on(note) == post.turned_off(note),
        forall|note: (u8, u8)| #[trigger] post.held(note) == 0,
{
    lemma_initial_balanced();
    lemma_run_keeps_balance(Registry::initial(), end, events);
    lemma_no_leaked_notes(end, post);
}

/// An instruction that names a channel outside 1 to 16 changes nothing and
/// sends nothing.
pub proof fn lemma_invalid_channel_changes_nothing(
    r: Registry,
    post: Registry,
    instruction: Instruction,
)
    requires
        instruction.channel().is_some(),
        !valid_channel(instruction.channel().unwrap()),
        r.executed(post, instruction),
    ensures
        post == r,
{
}

/// A flush turns a note off as often as a release of it is due at the step
/// that ends, and turns it on as often as it waits; afterwards no note
/// waits, nothing is due at that step, and what is due at other steps is
/// as before.
pub proof fn lemma_flush(r: Registry, next_step: u32, note: (u8, u8))
    ensures
        r.update(next_step).turned_off(note) == r.turned_off(note) + r.due_count(r.step, note),
        r.update(next_step).turned_on(note) == r.turned_on(note) + r.waiting(note),
        r.update(next_step).waiting(note) == 0,
        r.update(next_step).due_count(r.step, note) == 0,
        forall|t: u32| t != r.step ==> #[trigger] r.update(next_step).due_at(t) == r.due_at(t),
{
    let post = r.update(next_step);
    let due = r.due_at(r.step);
    lemma_tally_concat(r.sent, offs_of(due));
    lemma_tally_concat(r.sent + offs_of(due), ons_of(r.pending_ons));
    lemma_tally_offs(due);
    lemma_tally_ons(r.pending_ons);
    lemma_tally_ons(post.pending_ons);
    lemma_empty_count(post.due_at(r.step), note);
}

/// Scheduling a release of one note changes how often another is due at
/// no step, and makes the note itself due once more at that step only.
pub proof fn lemma_off_at_due(r: Registry, step: u32, key: (u8, u8), note: (u8, u8), t: u32)
    ensures
        r.off_at(step, key).due_count(t, note) == r.due_count(t, note) + if t == step && note
            == key {
            1nat
        } else {
            0nat
        },
{
    broadcast use vstd::seq_lib::group_to_multiset_ensures;

    let due = r.due_at(step);
    assert(due.push(key).to_multiset() =~= due.to_multiset().insert(key));
}

/// An instruction that leaves a note alone neither turns it on nor off,
/// changes neither how often it waits nor how often it is due at any step,
/// and leaves the step as it is.
pub proof fn lemma_left_alone(r: Registry, post: Registry, instruction: Instruction, note: (u8, u8))
    requires
        leaves_alone(instruction, note),
        r.executed(post, instruction),
    ensures
        post.step == r.step,
        post.turned_off(note) == r.turned_off(note),
        post.turned_on(note) == r.turned_on(note),
        post.waiting(note) == r.waiting(note),
        forall|t: u32| #[trigger] post.due_count(t, note) == r.due_count(t, note),
{
    match instruction {
        Instruction::PlayNote { midi_note, len, channel_id } => {
            if r.accepts_play(midi_note, len, channel_id) {
                let play = Registry::pending(midi_note, channel_id);
                let mid = Registry { pending_ons: r.pending_ons.push(play), ..r };
                lemma_pending_push(r.pending_ons, play);
                assert forall|t: u32| #[trigger] post.due_count(t, note) == r.due_count(
                    t,
                    note,
                ) by {
                    lemma_off_at_due(mid, (r.step + len) as u32, play.key(), note, t);
                    assert(mid.due_at(t) == r.due_at(t));
                }
            }
        },
        Instruction::StartNote { midi_note, channel_id } => {
            if Registry::accepts(midi_note, channel_id) {
                lemma_pending_push(r.pending_ons, Registry::pending(midi_note, channel_id));
                assert forall|t: u32| #[trigger] post.due_count(t, note) == r.due_count(
                    t,
                    note,
                ) by {
                    assert(post.due_at(t) == r.due_at(t));
                }
            }
        },
        Instruction::StopNote { midi_note, channel_id } => {
            if Registry::accepts(midi_note, channel_id) {
                let key = Registry::pending(midi_note, channel_id).key();
                let mid = Registry { sustained: r.sustained.remove(key), ..r };
                assert forall|t: u32| #[trigger] post.due_count(t, note) == r.due_count(
                    t,
                    note,
                ) by {
                    lemma_off_at_due(mid, r.step, key, note, t);
                    assert(mid.due_at(t) == r.due_at(t));
                }
            }
        },
        Instruction::SendCC { channel_id, parameter, value } => {
            lemma_tally_push(r.sent, OutCall::Cc { channel_id, parameter, value });
            assert forall|t: u32| #[trigger] post.due_count(t, note) == r.due_count(t, note) by {
                assert(post.due_at(t) == r.due_at(t));
            }
        },
        Instruction::MidiMessage { midi_message } => {
            lemma_tally_push(r.sent, crate::midi_out::call_of(midi_message));
            assert forall|t: u32| #[trigger] post.due_count(t, note) == r.due_count(t, note) by {
                assert(post.due_at(t) == r.due_at(t));
            }
        },
        Instruction::Continue => {
            lemma_tally_push(r.sent, OutCall::Continue);
            assert forall|t: u32| #[trigger] post.due_count(t, note) == r.due_count(t, note) by {
                assert(post.due_at(t) == r.due_at(t));
            }
        },
        Instruction::Stop => {
            lemma_tally_push(r.sent, OutCall::Stop);
            assert forall|t: u32| #[trigger] post.due_count(t, note) == r.due_count(t, note) by {
                assert(post.due_at(t) == r.due_at(t));
            }
        },
        _ => {},
    }
}

/// Whether `p` is a registry on the way of a note, played for `len` steps
/// at step `from`, towards its release: the note was turned on by the
/// first flush and by nothing else, and is turned off by the flush that
/// ends step `from + len` and by nothing else.
pub open spec fn on_the_way(
    p: Registry,
    note: (u8, u8),
    from: u32,
    len: u32,
    ons: nat,
    offs: nat,
) -> bool {
    &&& p.step >= from
    &&& p.turned_on(note) + p.waiting(note) == ons + 1
    &&& p.step > from ==> p.waiting(note) == 0
    &&& p.turned_off(note) == offs + if p.step > from + len {
        1nat
    } else {
        0nat
    }
    &&& forall|t: u32|
        t >= p.step ==> #[trigger] p.due_count(t, note) == if t == from + len {
            1nat
        } else {
            0nat
        }
}

/// One more event keeps a registry on the way of the note.
pub proof fn lemma_stays_on_the_way(
    p: Registry,
    post: Registry,
    event: Event,
    note: (u8, u8),
    from: u32,
    len: u32,
    ons: nat,
    offs: nat,
)
    requires
        on_the_way(p, note, from, len, ons, offs),
        p.stepped_past(post, event, note),
    ensures
        on_the_way(post, note, from, len, ons, offs),
{
    match event {
        Event::Asked(instruction) => {
            lemma_left_alone(p, post, instruction, note);
            assert forall|t: u32| t >= post.step implies #[trigger] post.due_count(t, note) == if t
                == from + len {
                1nat
            } else {
                0nat
            } by {
                assert(p.due_count(t, note) == post.due_count(t, note));
            }
        },
        Event::Flushed(next_step) => {
            lemma_flush(p, next_step, note);
            assert(p.due_count(p.step, note) == if p.step == from + len {
                1nat
            } else {
                0nat
            });
            assert forall|t: u32| t >= post.step implies #[trigger] post.due_count(t, note) == if t
                == from + len {
                1nat
            } else {
                0nat
            } by {
                assert(post.due_at(t) == p.due_at(t));
                assert(p.due_count(t, note) == post.due_count(t, note));
            }
        },
    }
}

/// A run keeps a registry on the way of the note.
pub proof fn lemma_run_stays_on_the_way(
    p: Registry,
    post: Registry,
    events: Seq<Event>,
    note: (u8, u8),
    from: u32,
    len: u32,
    ons: nat,
    offs: nat,
)
    requires
        on_the_way(p, note, from, len, ons, offs),
        p.ran_past(post, events, note),
    ensures
        on_the_way(post, note, from, len, ons, offs),
    decreases events.len(),
{
    if events.len() > 0 {
        let mid = choose|mid: Registry|
            p.ran_past(mid, events.drop_last(), note) && #[trigger] mid.stepped_past(
                post,
                events.last(),
                note,
            );
        lemma_run_stays_on_the_way(p, mid, events.drop_last(), note, from, len, ons, offs);
        lemma_stays_on_the_way(mid, post, events.last(), note, from, len, ons, offs);
    }
}

/// A note played for `len` steps at step `S` is turned on by the flush that
/// ends step `S`, and turned off exactly once, by the flush that ends step
/// `S + len`: no flush before it turns the note off, and none after it.
/// This holds of every run of flushes, each to the next step, with any
/// instructions between them that leave the note alone, where no release
/// of the note is due already when it is played.
pub proof fn lemma_played_note_is_released_once(
    r: Registry,
    note: MidiNote,
    len: u32,
    channel_id: u8,
    events: Seq<Event>,
    end: Registry,
)
    requires
        r.accepts_play(note, len, channel_id),
        forall|t: u32|
            t >= r.step ==> #[trigger] r.due_count(t, Registry::pending(note, channel_id).key())
                == 0,
        r.play_note(note, len, channel_id).ran_past(
            end,
            events,
            Registry::pending(note, channel_id).key(),
        ),
    ensures
        ({
            let key = Registry::pending(note, channel_id).key();
            &&& end.step >= r.step
            &&& end.step == r.step ==> end.turned_on(key) == r.turned_on(key)
            &&& end.step > r.step ==> end.turned_on(key) == r.turned_on(key) + r.waiting(key) + 1
            &&& end.step <= r.step + len ==> end.turned_off(key) == r.turned_off(key)
            &&& end.step <= r.step + len ==> end.due_count((r.step + len) as u32, key) == 1
            &&& end.step > r.step + len ==> end.turned_off(key) == r.turned_off(key) + 1
        }),
{
    let played = r.play_note(note, len, channel_id);
    let play = Registry::pending(note, channel_id);
    let key = play.key();
    let mid = Registry { pending_ons: r.pending_ons.push(play), ..r };
    let ons = r.turned_on(key) + r.waiting(key);
    let offs = r.turned_off(key);
    lemma_pending_push(r.pending_ons, play);
    assert forall|t: u32| t >= played.step implies #[trigger] played.due_count(t, key) == if t
        == r.step + len {
        1nat
    } else {
        0nat
    } by {
        lemma_off_at_due(mid, (r.step + len) as u32, key, key, t);
        assert(mid.due_at(t) == r.due_at(t));
        assert(r.due_count(t, key) == 0);
    }
    assert(on_the_way(played, key, r.step, len, ons, offs));
    lemma_run_stays_on_the_way(played, end, events, key, r.step, len, ons, offs);
    lemma_turned_on_only_by_flush(played, end, events, key);
}

/// In a run that leaves a note alone, the note is turned on by a flush
/// only: as long as the step stands, it is turned on no more often.
pub proof fn lemma_turned_on_only_by_flush(
    p: Registry,
    post: Registry,
    events: Seq<Event>,
    note: (u8, u8),
)
    requires
        p.ran_past(post, events, note),
    ensures
        post.step >= p.step,
        post.step == p.step ==> post.turned_on(note) == p.turned_on(note),
    decreases events.len(),
{
    if events.len() > 0 {
        let mid = choose|mid: Registry|
            p.ran_past(mid, events.drop_last(), note) && #[trigger] mid.stepped_past(
                post,
                events.last(),
                note,
            );
        lemma_turned_on_only_by_flush(p, mid, events.drop_last(), note);
        match events.last() {
            Event::Asked(instruction) => lemma_left_alone(mid, post, instruction, note),
            Event::Flushed(next_step) => {},
        }
    }
}

} // verus!
