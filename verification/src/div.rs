//! Clock-division tracks: one note, triggered at regular divisions of the
//! clock.

use vstd::prelude::*;
use crate::midi::MidiNote;
use crate::track::{DeteTrack, Pattern};

verus! {

/// Struct used in [`DeteTrack::new_clock_div`] to generate a track with a pattern based on
/// clock divisions.
#[derive(Clone, Copy, Debug, PartialEq, Eq, Structural)]
pub struct ClockDiv {
    /// Note triggered every `div` clock messages
    pub div: u32,
    /// Number of clock messages
    pub duration: u32,
}

/// The steps that `pattern` takes in all.
pub open spec fn total_duration(pattern: Seq<ClockDiv>) -> int
    decreases pattern.len(),
{
    if pattern.len() == 0 {
        0
    } else {
        total_duration(pattern.drop_last()) + pattern.last().duration
    }
}

/// The triggers of one division that begins at step `start`: as many as
/// fit its duration whole, `div` steps apart and each `div` steps long.
pub open spec fn trigs(p: ClockDiv, note: MidiNote, start: int) -> Seq<(MidiNote, u32, u32)> {
    Seq::new((p.duration / p.div) as nat, |i: int| (note, (start + i * p.div) as u32, p.div))
}

/// The triggers of a pattern of divisions, each division beginning where
/// the one before it ends.
pub open spec fn div_notes(pattern: Seq<ClockDiv>, note: MidiNote) -> Seq<(MidiNote, u32, u32)>
    decreases pattern.len(),
{
    if pattern.len() == 0 {
        Seq::empty()
    } else {
        div_notes(pattern.drop_last(), note) + trigs(
            pattern.last(),
            note,
            total_duration(pattern.drop_last()),
        )
    }
}

/// Whether a track can be made of `pattern`: no division is 0, and the
/// steps that it takes in all fit the step counter.
pub open spec fn divisible(pattern: Seq<ClockDiv>) -> bool {
    &&& forall|i: int| 0 <= i < pattern.len() ==> (#[trigger] pattern[i]).div > 0
    &&& total_duration(pattern) <= u32::MAX
}

/// The track of a pattern of divisions that trigger `note`.
pub open spec fn div_pattern(
    pattern: Seq<ClockDiv>,
    note: MidiNote,
    channel_id: u8,
    name: Seq<char>,
) -> Pattern {
    Pattern {
        len: total_duration(pattern) as u32,
        notes: div_notes(pattern, note),
        start_step: 0,
        root: note.note,
        transpose: None,
        channel_id,
        name,
    }
}

/// A longer pattern takes no fewer steps.
pub proof fn lemma_total_duration_grows(pattern: Seq<ClockDiv>, upto: int)
    requires
        0 <= upto <= pattern.len(),
    ensures
        0 <= total_duration(pattern.take(upto)) <= total_duration(pattern),
    decreases pattern.len() - upto,
{
    if upto < pattern.len() {
        lemma_total_duration_grows(pattern, upto + 1);
        assert(pattern.take(upto + 1).drop_last() =~= pattern.take(upto));
        lemma_total_duration_nonnegative(pattern.take(upto));
    } else {
        assert(pattern.take(upto) =~= pattern);
        lemma_total_duration_nonnegative(pattern);
    }
}

/// A pattern takes no negative number of steps.
pub proof fn lemma_total_duration_nonnegative(pattern: Seq<ClockDiv>)
    ensures
        0 <= total_duration(pattern),
    decreases pattern.len(),
{
    if pattern.len() > 0 {
        lemma_total_duration_nonnegative(pattern.drop_last());
    }
}

/// Create a new [`DeteTrack`] with a patern made up of different [`ClockDiv`]. This pattern
/// triggers `note` on the MIDI channel with `channel_id`.
///
/// No division may be 0, and the length of the track must fit the step
/// counter.
pub fn new(pattern: Vec<ClockDiv>, note: MidiNote, channel_id: u8, name: &str) -> (r: DeteTrack)
    requires
        divisible(pattern@),
    ensures
        r@ == div_pattern(pattern@, note, channel_id, name@),
{
    let mut notes: Vec<(MidiNote, u32, u32)> = Vec::new();
    let mut len: u32 = 0;
    let mut k: usize = 0;
    while k < pattern.len()
        invariant
            0 <= k <= pattern.len(),
            divisible(pattern@),
            len as int == total_duration(pattern@.take(k as int)),
            notes@ == div_notes(pattern@.take(k as int), note),
        decreases pattern.len() - k,
    {
        let p = pattern[k];
        proof {
            lemma_total_duration_grows(pattern@, k + 1);
            assert(pattern@.take(k + 1).drop_last() =~= pattern@.take(k as int));
        }
        let nb_trigs: u32 = p.duration / p.div;
        let ghost before = notes@;
        let mut i: u32 = 0;
        while i < nb_trigs
            invariant
                0 <= i <= nb_trigs,
                p.div > 0,
                nb_trigs == p.duration / p.div,
                len + p.duration <= u32::MAX,
                notes@ == before + trigs(p, note, len as int).take(i as int),
            decreases nb_trigs - i,
        {
            assert(i * p.div < p.duration) by (nonlinear_arith)
                requires
                    i < p.duration / p.div,
                    p.div > 0,
            ;
            notes.push((note, len + i * p.div, p.div));
            assert(notes@ =~= before + trigs(p, note, len as int).take(i + 1));
            i += 1;
        }
        assert(notes@ =~= before + trigs(p, note, len as int));
        len += p.duration;
        k += 1;
    }
    assert(pattern@.take(k as int) =~= pattern@);
    DeteTrack::new(len, notes, note.note, channel_id, name)
}

/// Create a new [`DeteTrack`] with a patern made up of different
/// [`ClockDiv`], where one can be made of it: `None` where a division is 0
/// or the track would be too long for the step counter.
pub fn try_new(pattern: Vec<ClockDiv>, note: MidiNote, channel_id: u8, name: &str) -> (r: Option<
    DeteTrack,
>)
    ensures
        divisible(pattern@) ==> r.is_some() && r.unwrap()@ == div_pattern(
            pattern@,
            note,
            channel_id,
            name@,
        ),
        !divisible(pattern@) ==> r.is_none(),
{
    let mut total: u64 = 0;
    let mut k: usize = 0;
    while k < pattern.len()
        invariant
            0 <= k <= pattern.len(),
            total as int == total_duration(pattern@.take(k as int)),
            total <= u32::MAX,
            forall|i: int| 0 <= i < k ==> (#[trigger] pattern@[i]).div > 0,
        decreases pattern.len() - k,
    {
        proof {
            lemma_total_duration_grows(pattern@, k + 1);
            assert(pattern@.take(k + 1).drop_last() =~= pattern@.take(k as int));
        }
        if pattern[k].div == 0 {
            return None;
        }
        total = total + pattern[k].duration as u64;
        if total > u32::MAX as u64 {
            return None;
        }
        k += 1;
    }
    assert(pattern@.take(k as int) =~= pattern@);
    Some(new(pattern, note, channel_id, name))
}

impl DeteTrack {
    /// Create a new [`DeteTrack`] with a patern made up of different [`ClockDiv`]. This pattern
    /// triggers `note` on the MIDI channel with `channel_id`.
    ///
    /// No division may be 0, and the length of the track must fit the step
    /// counter.
    pub fn new_clock_div(pattern: Vec<ClockDiv>, note: MidiNote, channel_id: u8, name: &str) -> (r:
        Self)
        requires
            divisible(pattern@),
        ensures
            r@ == div_pattern(pattern@, note, channel_id, name@),
    {
        new(pattern, note, channel_id, name)
    }
}

} // verus!
