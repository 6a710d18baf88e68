//! Counting the notes that a schedule holds, and splitting a list of notes
//! by channel.
//!
//! A note is the pair of its MIDI value and its channel.

use vstd::prelude::*;
use vstd::multiset::Multiset;

verus! {

/// Whether `note` is on `channel`; with no channel given, every note is.
pub open spec fn on_channel(note: (u8, u8), channel: Option<u8>) -> bool {
    match channel {
        None => true,
        Some(c) => note.1 == c,
    }
}

/// The notes of `notes` that are on `channel`, in their order.
pub open spec fn released(notes: Seq<(u8, u8)>, channel: Option<u8>) -> Seq<(u8, u8)>
    decreases notes.len(),
{
    if notes.len() == 0 {
        Seq::empty()
    } else if on_channel(notes.last(), channel) {
        released(notes.drop_last(), channel).push(notes.last())
    } else {
        released(notes.drop_last(), channel)
    }
}

/// The notes of `notes` that are not on `channel`, in their order.
pub open spec fn kept(notes: Seq<(u8, u8)>, channel: Option<u8>) -> Seq<(u8, u8)>
    decreases notes.len(),
{
    if notes.len() == 0 {
        Seq::empty()
    } else if on_channel(notes.last(), channel) {
        kept(notes.drop_last(), channel)
    } else {
        kept(notes.drop_last(), channel).push(notes.last())
    }
}

/// The notes that `schedule` holds for the steps below `n`, each as often
/// as it is held.
pub open spec fn due_before(schedule: Map<u32, Seq<(u8, u8)>>, n: nat) -> Multiset<(u8, u8)>
    decreases n,
{
    if n == 0 {
        Multiset::empty()
    } else {
        let step = (n - 1) as u32;
        if schedule.contains_key(step) {
            due_before(schedule, (n - 1) as nat).add(schedule[step].to_multiset())
        } else {
            due_before(schedule, (n - 1) as nat)
        }
    }
}

/// Every note that `schedule` holds, at whatever step, each as often as it
/// is held.
pub open spec fn all_due(schedule: Map<u32, Seq<(u8, u8)>>) -> Multiset<(u8, u8)> {
    due_before(schedule, 0x1_0000_0000)
}

/// The notes of the lists in `entries`, each as often as it occurs.
pub open spec fn total_of(entries: Seq<(u32, Vec<(u8, u8)>)>) -> Multiset<(u8, u8)>
    decreases entries.len(),
{
    if entries.len() == 0 {
        Multiset::empty()
    } else {
        total_of(entries.drop_last()).add(entries.last().1@.to_multiset())
    }
}

/// Whether `step` is the step of one of the first `upto` entries.
pub open spec fn listed(entries: Seq<(u32, Vec<(u8, u8)>)>, upto: int, step: u32) -> bool {
    exists|k: int| 0 <= k < upto && k < entries.len() && #[trigger] entries[k].0 == step
}

/// One more note goes to the released notes if it is on the channel, and to
/// the kept ones if it is not.
pub proof fn lemma_split_push(notes: Seq<(u8, u8)>, note: (u8, u8), channel: Option<u8>)
    ensures
        released(notes.push(note), channel) == if on_channel(note, channel) {
            released(notes, channel).push(note)
        } else {
            released(notes, channel)
        },
        kept(notes.push(note), channel) == if on_channel(note, channel) {
            kept(notes, channel)
        } else {
            kept(notes, channel).push(note)
        },
{
    assert(notes.push(note).drop_last() =~= notes);
}

/// A note occurs among the released notes as often as in the whole list if
/// it is on the channel, and not at all if it is not; among the kept notes
/// it is the other way round.
pub proof fn lemma_split_count(notes: Seq<(u8, u8)>, channel: Option<u8>, note: (u8, u8))
    ensures
        released(notes, channel).to_multiset().count(note) == if on_channel(note, channel) {
            notes.to_multiset().count(note)
        } else {
            0
        },
        kept(notes, channel).to_multiset().count(note) == if on_channel(note, channel) {
            0
        } else {
            notes.to_multiset().count(note)
        },
    decreases notes.len(),
{
    broadcast use vstd::seq_lib::group_to_multiset_ensures;

    if notes.len() == 0 {
        lemma_empty_count(notes, note);
        lemma_empty_count(released(notes, channel), note);
        lemma_empty_count(kept(notes, channel), note);
    } else {
        let front = notes.drop_last();
        lemma_split_count(front, channel, note);
        assert(notes =~= front.push(notes.last()));
        assert(notes.to_multiset() =~= front.to_multiset().insert(notes.last()));
    }
}

/// An empty list holds no note.
pub proof fn lemma_empty_count(notes: Seq<(u8, u8)>, note: (u8, u8))
    requires
        notes.len() == 0,
    ensures
        notes.to_multiset().count(note) == 0,
{
    notes.to_multiset_ensures();
    assert(notes.to_multiset().len() == 0);
    if notes.to_multiset().count(note) > 0 {
        assert(notes.contains(note));
    }
}

/// With no channel given every note is released and none is kept.
pub proof fn lemma_split_all(notes: Seq<(u8, u8)>)
    ensures
        released(notes, None) == notes,
        kept(notes, None) == Seq::<(u8, u8)>::empty(),
    decreases notes.len(),
{
    if notes.len() != 0 {
        lemma_split_all(notes.drop_last());
        assert(notes =~= notes.drop_last().push(notes.last()));
    } else {
        assert(notes =~= Seq::empty());
    }
}

/// A schedule holds what it holds without one step, together with the notes
/// of that step.
pub proof fn lemma_due_without(schedule: Map<u32, Seq<(u8, u8)>>, step: u32, n: nat)
    requires
        n <= 0x1_0000_0000,
    ensures
        due_before(schedule, n) =~= if step < n && schedule.contains_key(step) {
            due_before(schedule.remove(step), n).add(schedule[step].to_multiset())
        } else {
            due_before(schedule.remove(step), n)
        },
    decreases n,
{
    if n > 0 {
        lemma_due_without(schedule, step, (n - 1) as nat);
        let here = (n - 1) as u32;
        if here != step {
            assert(schedule.remove(step).contains_key(here) == schedule.contains_key(here));
        }
    }
}

/// A schedule that holds `notes` at `step` holds what it holds at the other
/// steps, together with `notes`.
pub proof fn lemma_all_due_insert(
    schedule: Map<u32, Seq<(u8, u8)>>,
    step: u32,
    notes: Seq<(u8, u8)>,
)
    ensures
        all_due(schedule.insert(step, notes)) =~= all_due(schedule.remove(step)).add(
            notes.to_multiset(),
        ),
        all_due(schedule) =~= if schedule.contains_key(step) {
            all_due(schedule.remove(step)).add(schedule[step].to_multiset())
        } else {
            all_due(schedule.remove(step))
        },
{
    lemma_due_without(schedule.insert(step, notes), step, 0x1_0000_0000);
    assert(schedule.insert(step, notes).remove(step) =~= schedule.remove(step));
    lemma_due_without(schedule, step, 0x1_0000_0000);
}

/// A schedule without steps holds no note.
pub proof fn lemma_due_nothing(schedule: Map<u32, Seq<(u8, u8)>>, n: nat)
    requires
        forall|step: u32| !schedule.contains_key(step),
    ensures
        due_before(schedule, n) =~= Multiset::empty(),
    decreases n,
{
    if n > 0 {
        lemma_due_nothing(schedule, (n - 1) as nat);
    }
}

/// Entries that list every step of a schedule once, each with its notes,
/// hold together what the schedule holds.
pub proof fn lemma_total_of_entries(
    schedule: Map<u32, Seq<(u8, u8)>>,
    entries: Seq<(u32, Vec<(u8, u8)>)>,
)
    requires
        forall|i: int|
            0 <= i < entries.len() ==> #[trigger] schedule.contains_key(entries[i].0)
                && schedule[entries[i].0] == entries[i].1@,
        forall|i: int, j: int| 0 <= i < j < entries.len() ==> entries[i].0 != entries[j].0,
        forall|step: u32| #[trigger]
            schedule.contains_key(step) ==> exists|i: int|
                0 <= i < entries.len() && entries[i].0 == step,
    ensures
        total_of(entries) =~= all_due(schedule),
    decreases entries.len(),
{
    if entries.len() == 0 {
        assert forall|step: u32| !schedule.contains_key(step) by {
            if schedule.contains_key(step) {
                let i = choose|i: int| 0 <= i < entries.len() && entries[i].0 == step;
            }
        }
        lemma_due_nothing(schedule, 0x1_0000_0000);
    } else {
        let last = entries.last();
        let front = entries.drop_last();
        let rest = schedule.remove(last.0);
        assert(schedule.contains_key(entries[entries.len() - 1].0));
        assert forall|i: int| 0 <= i < front.len() implies #[trigger] rest.contains_key(front[i].0)
            && rest[front[i].0] == front[i].1@ by {
            assert(schedule.contains_key(entries[i].0));
            assert(entries[i].0 != entries[entries.len() - 1].0);
        }
        assert forall|step: u32| #[trigger] rest.contains_key(step) implies exists|i: int|
            0 <= i < front.len() && front[i].0 == step by {
            assert(schedule.contains_key(step));
            let i = choose|i: int| 0 <= i < entries.len() && entries[i].0 == step;
            assert(front[i].0 == step);
        }
        lemma_total_of_entries(rest, front);
        lemma_all_due_insert(schedule, last.0, last.1@);
    }
}

} // verus!
