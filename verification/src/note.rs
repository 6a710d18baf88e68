//! The twelve notes of the chromatic scale and arithmetic on them.

use vstd::prelude::*;

verus! {

/// One note of the chromatic scale.
#[derive(Debug, Default, Clone, Copy, PartialEq, Eq, Structural, Hash)]
pub enum Note {
    /// C
    #[default]
    C,
    /// C# or Db
    CS,
    /// D
    D,
    /// D# or Eb
    DS,
    /// E
    E,
    /// F
    F,
    /// F# or Gb
    FS,
    /// G
    G,
    /// G# or Ab
    GS,
    /// A
    A,
    /// A# or Bb
    AS,
    /// B
    B,
}

/// Floor of `a / 12`: the number of whole octaves in `a` semitones.
pub open spec fn octaves_in(a: int) -> int {
    a / 12
}

/// The semitone that remains of `a` after whole octaves are taken out, in `0..12`.
pub open spec fn semitone_in(a: int) -> int {
    a % 12
}

impl Note {
    /// The position of the note within its octave, from 0 for C to 11 for B.
    pub open spec fn index(self) -> int {
        match self {
            Note::C => 0,
            Note::CS => 1,
            Note::D => 2,
            Note::DS => 3,
            Note::E => 4,
            Note::F => 5,
            Note::FS => 6,
            Note::G => 7,
            Note::GS => 8,
            Note::A => 9,
            Note::AS => 10,
            Note::B => 11,
        }
    }

    /// The note at position `semitone_in(i)`.
    pub open spec fn at(i: int) -> Note {
        let n = semitone_in(i);
        if n == 0 {
            Note::C
        } else if n == 1 {
            Note::CS
        } else if n == 2 {
            Note::D
        } else if n == 3 {
            Note::DS
        } else if n == 4 {
            Note::E
        } else if n == 5 {
            Note::F
        } else if n == 6 {
            Note::FS
        } else if n == 7 {
            Note::G
        } else if n == 8 {
            Note::GS
        } else if n == 9 {
            Note::A
        } else if n == 10 {
            Note::AS
        } else {
            Note::B
        }
    }

    /// The note and octave reached from `(self, octave)` by `semi` semitones,
    /// over the mathematical integers.
    pub open spec fn shifted(self, octave: int, semi: int) -> (Note, int) {
        (Note::at(self.index() + semi), octave + octaves_in(self.index() + semi))
    }

    /// The signed interval from `root` to `note` that is smallest in size,
    /// between -5 and 6 semitones.
    pub open spec fn interval(root: Note, note: Note) -> int {
        let n = semitone_in(note.index() - root.index());
        if n > 6 {
            n - 12
        } else {
            n
        }
    }

    /// The written name of the note, sharps marked with `#`.
    pub open spec fn name(self) -> Seq<char> {
        match self {
            Note::C => "C"@,
            Note::CS => "C#"@,
            Note::D => "D"@,
            Note::DS => "D#"@,
            Note::E => "E"@,
            Note::F => "F"@,
            Note::FS => "F#"@,
            Note::G => "G"@,
            Note::GS => "G#"@,
            Note::A => "A"@,
            Note::AS => "A#"@,
            Note::B => "B"@,
        }
    }

    /// The position of the note within its octave.
    pub fn to_index(self) -> (r: u8)
        ensures
            r as int == self.index(),
            r < 12,
    {
        match self {
            Note::C => 0,
            Note::CS => 1,
            Note::D => 2,
            Note::DS => 3,
            Note::E => 4,
            Note::F => 5,
            Note::FS => 6,
            Note::G => 7,
            Note::GS => 8,
            Note::A => 9,
            Note::AS => 10,
            Note::B => 11,
        }
    }

    /// The note of a MIDI value: octaves are dropped.
    pub fn from_index(midi: u8) -> (r: Note)
        ensures
            r == Note::at(midi as int),
            r.index() == midi as int % 12,
    {
        let n: u8 = midi % 12;
        if n == 0 {
            Note::C
        } else if n == 1 {
            Note::CS
        } else if n == 2 {
            Note::D
        } else if n == 3 {
            Note::DS
        } else if n == 4 {
            Note::E
        } else if n == 5 {
            Note::F
        } else if n == 6 {
            Note::FS
        } else if n == 7 {
            Note::G
        } else if n == 8 {
            Note::GS
        } else if n == 9 {
            Note::A
        } else if n == 10 {
            Note::AS
        } else {
            Note::B
        }
    }

    /// The written name of the note.
    pub fn to_string(&self) -> (r: String)
        ensures
            r@ == self.name(),
    {
        let s: &str = match self {
            Note::C => "C",
            Note::CS => "C#",
            Note::D => "D",
            Note::DS => "D#",
            Note::E => "E",
            Note::F => "F",
            Note::FS => "F#",
            Note::G => "G",
            Note::GS => "G#",
            Note::A => "A",
            Note::AS => "A#",
            Note::B => "B",
        };
        String::from_str(s)
    }

    /// Adds `semi` semitones to a note and its octave, and returns the new
    /// note and octave. Negative semitones go down, flooring the octave.
    ///
    /// The octave that is reached must fit in a byte.
    pub fn add_semitone(self, octave: u8, semi: i8) -> (r: (Note, u8))
        requires
            0 <= self.shifted(octave as int, semi as int).1 <= 255,
        ensures
            r.0 == self.shifted(octave as int, semi as int).0,
            r.1 as int == self.shifted(octave as int, semi as int).1,
    {
        // 132 = 11 * 12 keeps the sum non-negative without moving its semitone.
        let lifted: i16 = self.to_index() as i16 + semi as i16 + 132;
        let total: u16 = lifted as u16;
        let q: u16 = total / 12;
        let r: u16 = total % 12;
        assert(semitone_in(self.index() + semi as int) == r as int
            && octaves_in(self.index() + semi as int) == q as int - 11) by {
            let a = self.index() + semi as int;
            assert(total as int == a + 132);
            assert((a + 132) / 12 == a / 12 + 11 && (a + 132) % 12 == a % 12) by (nonlinear_arith);
        }
        let new_octave: i16 = octave as i16 + q as i16 - 11;
        (Note::from_index(r as u8), new_octave as u8)
    }

    /// The number of semitones that transposes `root` to `note`, chosen
    /// between -5 and 6 so that the pitch moves as little as possible.
    pub fn transpose(root: Note, note: Note) -> (r: i8)
        ensures
            r as int == Note::interval(root, note),
            -5 <= r <= 6,
    {
        let lifted: u8 = 12 + note.to_index() - root.to_index();
        let n: u8 = lifted % 12;
        assert(n as int == semitone_in(note.index() - root.index())) by {
            let d = note.index() - root.index();
            assert((d + 12) % 12 == d % 12) by (nonlinear_arith);
        }
        if n > 6 {
            n as i8 - 12
        } else {
            n as i8
        }
    }
}

impl From<Note> for u8 {
    /// The position of the note within its octave.
    fn from(note: Note) -> (r: u8) {
        note.to_index()
    }
}

impl vstd::std_specs::convert::FromSpecImpl<Note> for u8 {
    open spec fn obeys_from_spec() -> bool {
        true
    }

    open spec fn from_spec(note: Note) -> u8 {
        note.index() as u8
    }
}

impl From<u8> for Note {
    /// The note of a MIDI value: octaves are dropped.
    fn from(midi: u8) -> (r: Note) {
        Note::from_index(midi)
    }
}

impl vstd::std_specs::convert::FromSpecImpl<u8> for Note {
    open spec fn obeys_from_spec() -> bool {
        true
    }

    open spec fn from_spec(midi: u8) -> Note {
        Note::at(midi as int)
    }
}

/// Shifting a note by `k` semitones and then by `-k` gives back the note and
/// its octave; shifting by no semitone changes nothing.
pub proof fn lemma_shift_round_trip(note: Note, octave: int, k: int)
    ensures
        ({
            let up = note.shifted(octave, k);
            up.0.shifted(up.1, -k) == (note, octave)
        }),
        note.shifted(octave, 0) == (note, octave),
{
    let a = note.index() + k;
    lemma_at_index(a);
    assert(Note::at(a).index() == a % 12);
    assert((a % 12 - k) % 12 == note.index() && (a % 12 - k) / 12 == -(a / 12)) by (nonlinear_arith)
        requires
            a == note.index() + k,
            0 <= note.index() < 12,
    ;
    lemma_index_at(note);
    assert(note.index() / 12 == 0 && note.index() % 12 == note.index());
}

/// The position of the note at `i` is the semitone of `i`.
pub proof fn lemma_at_index(i: int)
    ensures
        Note::at(i).index() == semitone_in(i),
        0 <= semitone_in(i) < 12,
{
}

/// A note is the note at its own position.
pub proof fn lemma_index_at(note: Note)
    ensures
        Note::at(note.index()) == note,
        0 <= note.index() < 12,
{
}

/// The interval from `root` to `note` leads from `root` to `note`.
pub proof fn lemma_interval_reaches(root: Note, note: Note, octave: int)
    ensures
        root.shifted(octave, Note::interval(root, note)).0 == note,
        Note::interval(root, root) == 0,
{
    let d = note.index() - root.index();
    let n = semitone_in(d);
    lemma_index_at(note);
    assert((root.index() + n) % 12 == note.index() && (root.index() + n - 12) % 12 == note.index())
        by (nonlinear_arith)
        requires
            n == (note.index() - root.index()) % 12,
            0 <= note.index() < 12,
            0 <= root.index() < 12,
    ;
}

} // verus!
