//! Tracks: what plays at each step.

use vstd::prelude::*;
use crate::instruction::Instruction;
use crate::midi::MidiNote;
use crate::note::Note;

verus! {

/// Abstraction for a sequencer track.
///
/// Users can create their own custom track implementations by implementing this trait,
/// defining how steps are played and optionally providing a track name.
pub trait Track {
    /// Plays the given step in the track, and returns the instructions
    /// that the track produces at this step.
    fn play_step(&mut self, step: u32) -> Vec<Instruction>;

    /// Returns the name of the track. A track that does not define it is
    /// called `Unamed`.
    fn get_name(&self) -> (r: String)
        default_ensures
            r@ == "Unamed"@,
    {
        String::from_str("Unamed")
    }
}

/// What a deterministic track holds.
pub struct Pattern {
    /// The length of the loop in steps.
    pub len: u32,
    /// The notes, each with the step at which it starts and its length.
    pub notes: Seq<(MidiNote, u32, u32)>,
    /// The step by which the whole pattern is shifted.
    pub start_step: u32,
    /// The root note, from which transposition is measured.
    pub root: Note,
    /// The semitones by which the notes are transposed, if they are.
    pub transpose: Option<i8>,
    /// The MIDI channel (1-16) on which the track plays.
    pub channel_id: u8,
    /// The name of the track.
    pub name: Seq<char>,
}

impl Pattern {
    /// Whether the note at index `i` starts at `step`: its own start,
    /// shifted by the start step, falls on `step` within the loop. In a
    /// loop of no length nothing starts.
    pub open spec fn starts(self, i: int, step: u32) -> bool {
        self.len > 0 && (self.notes[i].1 + self.start_step) % (self.len as int) == step % self.len
    }

    /// The note as the track plays it: transposed where a transposition is
    /// set. A note that the transposition takes out of the range of
    /// octaves is not played.
    pub open spec fn sounded(self, note: MidiNote) -> Option<MidiNote> {
        match self.transpose {
            None => Some(note),
            Some(t) => if note.can_transpose(t as int) {
                Some(note.transposed(t as int))
            } else {
                None
            },
        }
    }

    /// The notes among the first `upto` that start at `step`, as the track
    /// plays them, each with its length, in the order of the pattern.
    pub open spec fn started(self, step: u32, upto: int) -> Seq<(MidiNote, u32)>
        decreases upto,
    {
        if upto <= 0 {
            Seq::empty()
        } else {
            let before = self.started(step, upto - 1);
            let n = self.notes[upto - 1];
            if self.starts(upto - 1, step) && self.sounded(n.0).is_some() {
                before.push((self.sounded(n.0).unwrap(), n.2))
            } else {
                before
            }
        }
    }

    /// The notes that start at `step`, each with its length.
    pub open spec fn notes_at(self, step: u32) -> Seq<(MidiNote, u32)> {
        self.started(step, self.notes.len() as int)
    }

    /// The instructions of `step`: one to play each note that starts at
    /// it, on the channel of the track.
    pub open spec fn instructions_at(self, step: u32) -> Seq<Instruction> {
        let notes = self.notes_at(step);
        Seq::new(
            notes.len(),
            |i: int|
                Instruction::PlayNote {
                    midi_note: notes[i].0,
                    len: notes[i].1,
                    channel_id: self.channel_id,
                },
        )
    }
}

/// A deterministic track implementation.
///
/// `DeteTrack` implements the [`Track`] trait by playing a fixed pattern
/// in a continuous loop. Each call to `play_step` produces the same
/// sequence of instructions based on the step index modulo the pattern length.
#[derive(Default, Clone, Debug, Eq, PartialEq)]
pub struct DeteTrack {
    len: u32,
    notes: Vec<(MidiNote, u32, u32)>,  // (Note, start step, length)
    start_step: u32,
    root: Note,
    transpose: Option<i8>,
    channel_id: u8,
    name: String,
}

impl View for DeteTrack {
    type V = Pattern;

    closed spec fn view(&self) -> Pattern {
        Pattern {
            len: self.len,
            notes: self.notes@,
            start_step: self.start_step,
            root: self.root,
            transpose: self.transpose,
            channel_id: self.channel_id,
            name: self.name@,
        }
    }
}

impl Track for DeteTrack {
    /// The instructions of `step`; the track itself does not change.
    fn play_step(&mut self, step: u32) -> (r: Vec<Instruction>)
        ensures
            r@ == old(self)@.instructions_at(step),
            final(self)@ == old(self)@,
    {
        let notes = self.get_notes_start_at_step(step);
        let mut instructions: Vec<Instruction> = Vec::new();
        let mut i: usize = 0;
        while i < notes.len()
            invariant
                0 <= i <= notes.len(),
                self@ == old(self)@,
                notes@ == self@.notes_at(step),
                instructions@ == self@.instructions_at(step).take(i as int),
            decreases notes.len() - i,
        {
            let n = notes[i];
            instructions.push(
                Instruction::PlayNote { midi_note: n.0, len: n.1, channel_id: self.channel_id },
            );
            assert(instructions@ =~= self@.instructions_at(step).take(i + 1));
            i += 1;
        }
        assert(instructions@ =~= self@.instructions_at(step));
        instructions
    }

    /// The name of the track.
    fn get_name(&self) -> (r: String)
        ensures
            r@ == self@.name,
    {
        self.name.clone()
    }
}

impl DeteTrack {
    /// Creates a new DeteTrack from a list of notes, its length, the midi channel (1-16) and a name.
    /// Specify the root note to allow transposition.
    pub fn new(
        len: u32,
        notes: Vec<(MidiNote, u32, u32)>,
        root: Note,
        channel_id: u8,
        name: &str,
    ) -> (r: Self)
        ensures
            r@ == (Pattern {
                len,
                notes: notes@,
                start_step: 0,
                root,
                transpose: None,
                channel_id,
                name: name@,
            }),
    {
        DeteTrack {
            len,
            notes,
            start_step: 0,
            root,
            transpose: None,
            channel_id,
            name: String::from_str(name),
        }
    }

    /// Sets the root of the DeteTrack. This function does not transpose the track, it only changes
    /// the root note.
    pub fn set_root(&mut self, note: Note)
        ensures
            final(self)@ == (Pattern { root: note, ..old(self)@ }),
    {
        self.root = note;
    }

    /// Returns the all `(note, length)`, that start at `step`. Transposition and start step are
    /// taken into account.
    pub fn get_notes_start_at_step(&self, step: u32) -> (r: Vec<(MidiNote, u32)>)
        ensures
            r@ == self@.notes_at(step),
    {
        let mut notes: Vec<(MidiNote, u32)> = Vec::new();
        if self.len == 0 {
            proof {
                lemma_nothing_starts(self@, step, self.notes@.len() as int);
            }
            return notes;
        }
        let cur_step: u32 = step % self.len;
        let mut i: usize = 0;
        while i < self.notes.len()
            invariant
                0 <= i <= self.notes.len(),
                self.len > 0,
                cur_step == step % self.len,
                notes@ == self@.started(step, i as int),
            decreases self.notes.len() - i,
        {
            let n = self.notes[i];
            let at: u64 = (n.1 as u64 + self.start_step as u64) % (self.len as u64);
            if at == cur_step as u64 {
                let note = match self.transpose {
                    None => Some(n.0),
                    Some(t) => n.0.checked_transpose(t),
                };
                if let Some(note) = note {
                    notes.push((note, n.2));
                }
            }
            i += 1;
        }
        notes
    }

    /// Transposes the DeteTrack so that its root falls on `note`, by the
    /// interval that moves the pitch least; with no note given the track
    /// plays as it was written.
    pub fn transpose(&mut self, note: Option<Note>)
        ensures
            final(self)@ == (Pattern {
                transpose: match note {
                    Some(n) => Some(Note::interval(old(self)@.root, n) as i8),
                    None => None,
                },
                ..old(self)@
            }),
    {
        self.transpose = match note {
            Some(n) => Some(Note::transpose(self.root, n)),
            None => None,
        };
    }
}

/// In a loop of no length no note starts.
pub proof fn lemma_nothing_starts(p: Pattern, step: u32, upto: int)
    requires
        p.len == 0,
    ensures
        p.started(step, upto) == Seq::<(MidiNote, u32)>::empty(),
    decreases upto,
{
    if upto > 0 {
        lemma_nothing_starts(p, step, upto - 1);
    }
}

} // verus!
