//! The two hash collections of the note registry: the note-offs that are
//! due, keyed by step, and the set of sustained notes.
//!
//! A note is identified here by the pair of its MIDI value and its channel.
//! Both collections are hash tables of the `hashbrown` crate; what they hold
//! is named by [`schedule_entries`] and [`sustained_notes`], and every
//! function below states over those names what the table's method does.

use vstd::prelude::*;

verus! {

/// The note-offs that are due: for each step, the notes to release at it, in
/// the order in which they were scheduled.
#[verifier::external_body]
pub struct OffSchedule {
    map: hashbrown::HashMap<u32, Vec<(u8, u8)>>,
}

/// The notes that sound until they are explicitly stopped.
#[verifier::external_body]
pub struct Sustained {
    set: hashbrown::HashSet<(u8, u8)>,
}

/// What the schedule holds: the list of notes to release at each step that
/// has one.
pub uninterp spec fn schedule_entries(s: OffSchedule) -> Map<u32, Seq<(u8, u8)>>;

/// What the set of sustained notes holds.
pub uninterp spec fn sustained_notes(s: Sustained) -> Set<(u8, u8)>;

/// The schedule in which nothing is due.
pub open spec fn empty_schedule() -> Map<u32, Seq<(u8, u8)>> {
    Map::empty()
}

/// The empty set of notes.
pub open spec fn no_notes() -> Set<(u8, u8)> {
    Set::empty()
}

/// `hashbrown::HashMap::new`: a map that holds nothing.
#[verifier::external_body]
pub(crate) fn schedule_new() -> (s: OffSchedule)
    ensures
        schedule_entries(s) == empty_schedule(),
{
    OffSchedule { map: hashbrown::HashMap::new() }
}

/// `hashbrown::HashMap::insert`: `step` now leads to `notes`, every other
/// step to what it led to before; the list that `step` led to before, if
/// any, is returned.
#[verifier::external_body]
pub(crate) fn schedule_insert(s: &mut OffSchedule, step: u32, notes: Vec<(u8, u8)>) -> (prev:
    Option<Vec<(u8, u8)>>)
    ensures
        schedule_entries(*final(s)) == schedule_entries(*old(s)).insert(step, notes@),
        prev.is_some() == schedule_entries(*old(s)).contains_key(step),
        prev.is_some() ==> prev.unwrap()@ == schedule_entries(*old(s))[step],
{
    s.map.insert(step, notes)
}

/// `hashbrown::HashMap::remove`: `step` leads to nothing afterwards, every
/// other step to what it led to before; the list that `step` led to, if any,
/// is returned.
#[verifier::external_body]
pub(crate) fn schedule_remove(s: &mut OffSchedule, step: u32) -> (taken: Option<Vec<(u8, u8)>>)
    ensures
        schedule_entries(*final(s)) == schedule_entries(*old(s)).remove(step),
        taken.is_some() == schedule_entries(*old(s)).contains_key(step),
        taken.is_some() ==> taken.unwrap()@ == schedule_entries(*old(s))[step],
{
    s.map.remove(&step)
}

/// `hashbrown::HashMap::drain`, collected: the map is left empty, and every
/// step that it held comes out once, with its list, in an order that is not
/// determined.
#[verifier::external_body]
pub(crate) fn schedule_drain(s: &mut OffSchedule) -> (all: Vec<(u32, Vec<(u8, u8)>)>)
    ensures
        schedule_entries(*final(s)) == empty_schedule(),
        forall|i: int|
            0 <= i < all@.len() ==> #[trigger] schedule_entries(*old(s)).contains_key(all@[i].0)
                && schedule_entries(*old(s))[all@[i].0] == all@[i].1@,
        forall|i: int, j: int| 0 <= i < j < all@.len() ==> all@[i].0 != all@[j].0,
        forall|step: u32| #[trigger]
            schedule_entries(*old(s)).contains_key(step) ==> exists|i: int|
                0 <= i < all@.len() && all@[i].0 == step,
{
    s.map.drain().collect()
}

/// `hashbrown::HashSet::new`: a set that holds nothing.
#[verifier::external_body]
pub(crate) fn sustained_new() -> (s: Sustained)
    ensures
        sustained_notes(s) == no_notes(),
{
    Sustained { set: hashbrown::HashSet::new() }
}

/// `hashbrown::HashSet::insert`: the set holds `note` afterwards and is
/// otherwise unchanged; the result tells whether `note` is new to it.
#[verifier::external_body]
pub(crate) fn sustained_insert(s: &mut Sustained, note: (u8, u8)) -> (fresh: bool)
    ensures
        sustained_notes(*final(s)) == sustained_notes(*old(s)).insert(note),
        fresh == !sustained_notes(*old(s)).contains(note),
{
    s.set.insert(note)
}

/// `hashbrown::HashSet::remove`: the set no longer holds `note` and is
/// otherwise unchanged; the result tells whether it held `note` before.
#[verifier::external_body]
pub(crate) fn sustained_remove(s: &mut Sustained, note: (u8, u8)) -> (present: bool)
    ensures
        sustained_notes(*final(s)) == sustained_notes(*old(s)).remove(note),
        present == sustained_notes(*old(s)).contains(note),
{
    s.set.remove(&note)
}

/// `hashbrown::HashSet::drain`, collected: the set is left empty, and every
/// note that it held comes out once, in an order that is not determined.
#[verifier::external_body]
pub(crate) fn sustained_drain(s: &mut Sustained) -> (all: Vec<(u8, u8)>)
    ensures
        sustained_notes(*final(s)) == no_notes(),
        all@.no_duplicates(),
        forall|note: (u8, u8)| all@.contains(note) == sustained_notes(*old(s)).contains(note),
{
    s.set.drain().collect()
}

} // verus!
