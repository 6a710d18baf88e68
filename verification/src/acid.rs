//! Acid tracks: bass lines written as one trig per sixteenth step, with
//! slides and ties, in the manner of the Roland TB-303.

use vstd::prelude::*;
use crate::midi::MidiNote;
use crate::note::Note;
use crate::track::{DeteTrack, Pattern};

verus! {

/// Timing mostly used in [`AcidTrig`] to generate acid tracks.
#[derive(Default, Clone, Copy, Debug, PartialEq, Eq, Structural)]
pub enum Timing {
    /// Play a note.
    Note,
    /// Rest.
    #[default]
    Rest,
}

/// Trig used to create acid tracks with [`DeteTrack::new_acid`]. Each Trig represents one sixteenth
/// step.
#[derive(Clone, Copy, Debug, PartialEq, Eq, Structural)]
pub struct AcidTrig {
    /// Pitch and Velocity
    pub midi_note: MidiNote,
    /// Slide enable
    pub slide: bool,
    /// Timing
    pub timing: Timing,
}

/// A note that sounds while the pattern is read.
#[derive(Clone, Copy, Debug, PartialEq, Eq, Structural)]
pub struct Tied {
    /// The note.
    pub note: MidiNote,
    /// The step at which it starts.
    pub start: u32,
    /// Whether the last trig of the note slides.
    pub slide: bool,
    /// The sixteenths by which ties have made the note longer.
    pub ties: u32,
}

/// What reading a pattern has come to: the note that still sounds, if
/// any, and the notes that are complete.
pub struct Reading {
    /// The note that still sounds.
    pub held: Option<Tied>,
    /// The notes that are complete, each with its start and its length.
    pub notes: Seq<(MidiNote, u32, u32)>,
}

/// Whether two notes have the same pitch, whatever their velocities.
pub open spec fn same_pitch(a: MidiNote, b: MidiNote) -> bool {
    a.note == b.note && a.octave == b.octave
}

impl Tied {
    /// The note that the trig at sixteenth `step` begins.
    pub open spec fn begun(trig: AcidTrig, step: int) -> Tied {
        Tied { note: trig.midi_note, start: (6 * step) as u32, slide: trig.slide, ties: 0 }
    }

    /// The note when it ends without a slide: half a sixteenth, and a
    /// sixteenth for each tie.
    pub open spec fn cut(self) -> (MidiNote, u32, u32) {
        (self.note, self.start, (3 + 6 * self.ties) as u32)
    }

    /// The note when it slides into another: a step longer than a
    /// sixteenth, and a sixteenth for each tie.
    pub open spec fn slid(self) -> (MidiNote, u32, u32) {
        (self.note, self.start, (7 + 6 * self.ties) as u32)
    }
}

/// Reading one more trig, at sixteenth `step`. A note trig begins a note;
/// where the note before it slides and has the same pitch, it ties on to
/// that one instead. A note that ends by a slide into another pitch
/// overlaps it; one that ends otherwise, or at a rest, is cut.
pub open spec fn acid_step(r: Reading, trig: AcidTrig, step: int) -> Reading {
    match trig.timing {
        Timing::Note => match r.held {
            Some(n) => if n.slide {
                if same_pitch(n.note, trig.midi_note) {
                    Reading {
                        held: Some(Tied { slide: trig.slide, ties: (n.ties + 1) as u32, ..n }),
                        notes: r.notes,
                    }
                } else {
                    Reading {
                        held: Some(Tied::begun(trig, step)),
                        notes: r.notes.push(n.slid()),
                    }
                }
            } else {
                Reading { held: Some(Tied::begun(trig, step)), notes: r.notes.push(n.cut()) }
            },
            None => Reading { held: Some(Tied::begun(trig, step)), notes: r.notes },
        },
        Timing::Rest => match r.held {
            Some(n) => Reading { held: None, notes: r.notes.push(n.cut()) },
            None => r,
        },
    }
}

/// Reading the first `upto` trigs of a pattern.
pub open spec fn acid_read(pattern: Seq<AcidTrig>, upto: int) -> Reading
    decreases upto,
{
    if upto <= 0 {
        Reading { held: None, notes: Seq::empty() }
    } else {
        acid_step(acid_read(pattern, upto - 1), pattern[upto - 1], upto - 1)
    }
}

/// The notes at the end of the pattern: the note that still sounds ends
/// where the loop begins again, by a slide if it slides into a first note
/// of another pitch.
pub open spec fn acid_close(r: Reading, first: AcidTrig) -> Seq<(MidiNote, u32, u32)> {
    match r.held {
        Some(n) => if first.timing == Timing::Note && n.slide && !same_pitch(
            n.note,
            first.midi_note,
        ) {
            r.notes.push(n.slid())
        } else {
            r.notes.push(n.cut())
        },
        None => r.notes,
    }
}

/// The notes of an acid pattern.
pub open spec fn acid_notes(pattern: Seq<AcidTrig>) -> Seq<(MidiNote, u32, u32)> {
    if pattern.len() == 0 {
        Seq::empty()
    } else {
        acid_close(acid_read(pattern, pattern.len() as int), pattern[0])
    }
}

/// The track of an acid pattern: six steps for each trig.
pub open spec fn acid_pattern(
    pattern: Seq<AcidTrig>,
    root: Note,
    channel_id: u8,
    name: Seq<char>,
) -> Pattern {
    Pattern {
        len: (6 * pattern.len()) as u32,
        notes: acid_notes(pattern),
        start_step: 0,
        root,
        transpose: None,
        channel_id,
        name,
    }
}

/// A note that still sounds after `upto` trigs has fewer ties than that.
pub proof fn lemma_ties_bounded(pattern: Seq<AcidTrig>, upto: int)
    requires
        0 <= upto <= pattern.len(),
        6 * pattern.len() <= u32::MAX,
    ensures
        acid_read(pattern, upto).held.is_some() ==> acid_read(pattern, upto).held.unwrap().ties
            < upto,
    decreases upto,
{
    if upto > 0 {
        lemma_ties_bounded(pattern, upto - 1);
    }
}

impl DeteTrack {
    /// Create a new acid track following the trigs in `pattern`. The `root` note is used for
    /// transposition. The track  will be played on the MIDI channel with `channel_id`.
    ///
    /// The length of the track must fit the step counter.
    pub fn new_acid(pattern: Vec<AcidTrig>, root: Note, channel_id: u8, name: &str) -> (r: Self)
        requires
            6 * pattern@.len() <= u32::MAX,
        ensures
            r@ == acid_pattern(pattern@, root, channel_id, name@),
    {
        if pattern.len() == 0 {
            return DeteTrack::new(0, Vec::new(), root, channel_id, name);
        }
        let mut prev_note: Option<Tied> = None;
        let mut notes: Vec<(MidiNote, u32, u32)> = Vec::new();
        let mut step: usize = 0;
        while step < pattern.len()
            invariant
                0 <= step <= pattern.len(),
                6 * pattern@.len() <= u32::MAX,
                prev_note == acid_read(pattern@, step as int).held,
                notes@ == acid_read(pattern@, step as int).notes,
            decreases pattern.len() - step,
        {
            let trig = pattern[step];
            proof {
                lemma_ties_bounded(pattern@, step as int);
            }
            let begun = Tied {
                note: trig.midi_note,
                start: 6 * (step as u32),
                slide: trig.slide,
                ties: 0,
            };
            match trig.timing {
                Timing::Note => {
                    prev_note = Some(
                        if let Some(n) = prev_note {
                            if n.slide {
                                if n.note.note == trig.midi_note.note && n.note.octave
                                    == trig.midi_note.octave {
                                    Tied {
                                        note: n.note,
                                        start: n.start,
                                        slide: trig.slide,
                                        ties: n.ties + 1,
                                    }
                                } else {
                                    notes.push((n.note, n.start, 7 + 6 * n.ties));
                                    begun
                                }
                            } else {
                                notes.push((n.note, n.start, 3 + 6 * n.ties));
                                begun
                            }
                        } else {
                            begun
                        },
                    );
                },
                Timing::Rest => {
                    if let Some(n) = prev_note {
                        notes.push((n.note, n.start, 3 + 6 * n.ties));
                    }
                    prev_note = None;
                },
            }
            step += 1;
        }
        proof {
            lemma_ties_bounded(pattern@, step as int);
        }
        let first = pattern[0];
        if let Some(n) = prev_note {
            let slides = match first.timing {
                Timing::Note => n.slide && !(n.note.note == first.midi_note.note && n.note.octave
                    == first.midi_note.octave),
                Timing::Rest => false,
            };
            if slides {
                notes.push((n.note, n.start, 7 + 6 * n.ties));
            } else {
                notes.push((n.note, n.start, 3 + 6 * n.ties));
            }
        }
        DeteTrack::new(6 * (pattern.len() as u32), notes, root, channel_id, name)
    }
}

} // verus!
