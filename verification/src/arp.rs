//! Arpeggiator tracks: the notes of a pattern, one after the other, at a
//! fixed division of the beat.

use vstd::prelude::*;
use crate::midi::MidiNote;
use crate::note::Note;
use crate::track::{DeteTrack, Pattern};

verus! {

/// Time division of the arpeggiator
#[derive(Default, Clone, Copy, Debug, PartialEq, Eq, Structural)]
pub enum ArpDiv {
    /// Play every quarter note.
    #[default]
    T4,
    /// Play every eighth note.
    T8,
    /// Play every sixteenth note.
    T16,
}

impl ArpDiv {
    /// The steps from one note of the arpeggio to the next.
    pub open spec fn steps(self) -> u32 {
        match self {
            ArpDiv::T4 => 24,
            ArpDiv::T8 => 12,
            ArpDiv::T16 => 6,
        }
    }
}

impl ArpDiv {
    /// The steps from one note of the arpeggio to the next.
    pub fn factor(self) -> (r: u32)
        ensures
            r == self.steps(),
    {
        match self {
            ArpDiv::T4 => 24,
            ArpDiv::T8 => 12,
            ArpDiv::T16 => 6,
        }
    }
}

/// The notes of an arpeggio: the `i`-th note of the pattern starts `i`
/// divisions in and lasts half a division.
pub open spec fn arp_notes(pattern: Seq<MidiNote>, div: ArpDiv) -> Seq<(MidiNote, u32, u32)> {
    Seq::new(
        pattern.len(),
        |i: int| (pattern[i], (div.steps() * i) as u32, (div.steps() / 2) as u32),
    )
}

/// The arpeggio of `pattern` at the division `div`, as a track.
pub open spec fn arp_pattern(
    pattern: Seq<MidiNote>,
    div: ArpDiv,
    root: Note,
    channel_id: u8,
    name: Seq<char>,
) -> Pattern {
    Pattern {
        len: (pattern.len() * div.steps()) as u32,
        notes: arp_notes(pattern, div),
        start_step: 0,
        root,
        transpose: None,
        channel_id,
        name,
    }
}

/// Create a new arpeggiator track following the notes in `pattern` with the `div` time
/// division. The `root` note is used for transposition. The track  will be played on the MIDI
/// channel with `channel_id`.
///
/// The length of the track must fit the step counter.
pub fn new(pattern: Vec<MidiNote>, div: ArpDiv, root: Note, channel_id: u8, name: &str) -> (r:
    DeteTrack)
    requires
        pattern@.len() * div.steps() <= u32::MAX,
    ensures
        r@ == arp_pattern(pattern@, div, root, channel_id, name@),
{
    let factor: u32 = div.factor();
    let mut notes: Vec<(MidiNote, u32, u32)> = Vec::new();
    let mut s: usize = 0;
    while s < pattern.len()
        invariant
            0 <= s <= pattern.len(),
            factor == div.steps(),
            pattern@.len() * factor <= u32::MAX,
            notes@ == arp_notes(pattern@, div).take(s as int),
        decreases pattern.len() - s,
    {
        assert(s * factor <= pattern@.len() * factor) by (nonlinear_arith)
            requires
                s <= pattern@.len(),
        ;
        let start: u32 = factor * (s as u32);
        notes.push((pattern[s], start, factor / 2));
        assert(notes@ =~= arp_notes(pattern@, div).take(s + 1));
        s += 1;
    }
    assert(notes@ =~= arp_notes(pattern@, div));
    let len: u32 = (pattern.len() as u32) * factor;
    DeteTrack::new(len, notes, root, channel_id, name)
}

impl DeteTrack {
    /// Create a new arpeggiator track following the notes in `pattern` with the `div` time
    /// division. The `root` note is used for transposition. The track  will be played on the MIDI
    /// channel with `channel_id`.
    ///
    /// The length of the track must fit the step counter.
    pub fn new_arp(pattern: Vec<MidiNote>, div: ArpDiv, root: Note, channel_id: u8, name: &str) -> (r:
        Self)
        requires
            pattern@.len() * div.steps() <= u32::MAX,
        ensures
            r@ == arp_pattern(pattern@, div, root, channel_id, name@),
    {
        new(pattern, div, root, channel_id, name)
    }
}

} // verus!
