//! Tracks from Standard MIDI Files.
//!
//! The bytes of a file are parsed by the `midly` crate; what the track is
//! made of is then read off the events of its first track.

use vstd::prelude::*;
use crate::midi::MidiNote;
use crate::note::Note;
use crate::track::{DeteTrack, Pattern};

verus! {

/// The error of the `midly` parser.
#[verifier::external_type_specification]
#[verifier::external_body]
pub struct ExMidlyError(midly::Error);

/// An event of a track, as `midly` reads it.
#[verifier::external_type_specification]
#[verifier::external_body]
pub struct ExTrackEvent<'a>(midly::TrackEvent<'a>);

/// An error type representing issues that may occur when loading or generating
/// tracks.
#[derive(Debug)]
pub enum TrackError {
    /// MIDI parsing error from `midly`
    Midly(midly::Error),
    /// Error indicating that a note was started multiple times without being released (MIDI files only).
    DuplicateNote,
    /// Error raised when a note-off event occurs for a note that was never started (MIDI files only).
    WrongNoteOff,
    /// Error raised when the MIDI file does not contain exactly one track.
    BadFormat,
    /// Error raised when the MIDI file contains an unsuported timing specification.
    BadTiming,
}

/// What an event of a track does, as far as a track is made of it.
#[derive(Clone, Copy, Debug, PartialEq, Eq, Structural)]
pub enum EventKind {
    /// A key is released.
    NoteOff {
        /// The key.
        key: u8,
    },
    /// A key is pressed.
    NoteOn {
        /// The key.
        key: u8,
        /// The velocity with which it is pressed.
        vel: u8,
    },
    /// The track ends.
    EndOfTrack,
    /// Anything else.
    Other,
}

/// An event of a track.
#[derive(Clone, Copy, Debug, PartialEq, Eq, Structural)]
pub struct MidiEvent {
    /// The ticks between the event before and this one.
    pub delta: u32,
    /// What the event does.
    pub kind: EventKind,
}

/// What a track is made of, out of a parsed file.
#[derive(Clone, Debug)]
pub struct MidiFile {
    /// Whether the file says that it holds a single track.
    pub single_track: bool,
    /// The ticks per beat, where the file counts time in beats.
    pub ticks_per_beat: Option<u16>,
    /// The events of the first track, where there is one.
    pub first_track: Option<Vec<MidiEvent>>,
}

/// A parsed file, as contracts see it.
pub struct FileView {
    /// Whether the file says that it holds a single track.
    pub single_track: bool,
    /// The ticks per beat, where the file counts time in beats.
    pub ticks_per_beat: Option<u16>,
    /// The events of the first track, where there is one.
    pub first_track: Option<Seq<MidiEvent>>,
}

impl View for MidiFile {
    type V = FileView;

    open spec fn view(&self) -> FileView {
        FileView {
            single_track: self.single_track,
            ticks_per_beat: self.ticks_per_beat,
            first_track: match self.first_track {
                Some(events) => Some(events@),
                None => None,
            },
        }
    }
}

/// What `midly` reads out of `bytes`: the file, or nothing where the
/// bytes are no MIDI file.
pub uninterp spec fn parsed_file(bytes: Seq<u8>) -> Option<FileView>;

/// One event of `midly`, carried over: its delta, and its kind as far as
/// it is a note-on, a note-off or the end of the track.
#[verifier::external_body]
fn event_of(event: &midly::TrackEvent) -> MidiEvent {
    let kind = match event.kind {
        midly::TrackEventKind::Midi { message: midly::MidiMessage::NoteOff { key, .. }, .. } => {
            EventKind::NoteOff { key: key.as_int() }
        },
        midly::TrackEventKind::Midi { message: midly::MidiMessage::NoteOn { key, vel }, .. } => {
            EventKind::NoteOn { key: key.as_int(), vel: vel.as_int() }
        },
        midly::TrackEventKind::Meta(midly::MetaMessage::EndOfTrack) => EventKind::EndOfTrack,
        _ => EventKind::Other,
    };
    MidiEvent { delta: event.delta.as_int(), kind }
}

/// Whether a header chunk may begin at index `i` of `bytes`: the four
/// letters `MThd` stand there, and the chunk reaches as far as the high
/// byte of its division word, twelve bytes on.
pub open spec fn header_tag_at(bytes: Seq<u8>, i: int) -> bool {
    0 <= i && i + 12 < bytes.len() && bytes[i] == 0x4D && bytes[i + 1] == 0x54 && bytes[i + 2]
        == 0x68 && bytes[i + 3] == 0x64
}

/// Whether `bytes` can be handed to the parser. The parser reads the
/// division word of a header chunk as a timecode when its high bit is set,
/// and cannot take the high byte 0x80. A header chunk begins with `MThd`,
/// in a plain file at index 0 and in a RIFF file somewhere within; so
/// bytes are handed on only where no `MThd` is followed, twelve bytes on,
/// by 0x80.
pub open spec fn safe_to_parse(bytes: Seq<u8>) -> bool {
    forall|i: int| #[trigger] header_tag_at(bytes, i) ==> bytes[i + 12] != 0x80
}

/// Whether `bytes` can be handed to the parser.
pub fn is_safe_to_parse(bytes: &[u8]) -> (r: bool)
    ensures
        r == safe_to_parse(bytes@),
{
    if bytes.len() < 13 {
        return true;
    }
    let last: usize = bytes.len() - 12;
    let mut i: usize = 0;
    while i < last
        invariant
            0 <= i <= last,
            last == bytes@.len() - 12,
            forall|k: int| 0 <= k < i && #[trigger] header_tag_at(bytes@, k) ==> bytes@[k + 12] != 0x80,
        decreases last - i,
    {
        if bytes[i] == 0x4D && bytes[i + 1] == 0x54 && bytes[i + 2] == 0x68 && bytes[i + 3] == 0x64
            && bytes[i + 12] == 0x80 {
            assert(header_tag_at(bytes@, i as int));
            return false;
        }
        i += 1;
    }
    true
}

/// `midly::Smf::parse`: the file that the bytes spell, carried over into
/// [`MidiFile`], or the error of the parser. The same bytes always give
/// the same file. Bytes that the parser cannot take are left out.
#[verifier::external_body]
fn parse_smf(bytes: &[u8]) -> (r: Result<MidiFile, midly::Error>)
    requires
        safe_to_parse(bytes@),
    ensures
        r.is_ok() == parsed_file(bytes@).is_some(),
        r.is_ok() ==> parsed_file(bytes@) == Some(r.unwrap()@),
{
    let smf = midly::Smf::parse(bytes)?;
    Ok(
        MidiFile {
            single_track: matches!(smf.header.format, midly::Format::SingleTrack),
            ticks_per_beat: match smf.header.timing {
                midly::Timing::Metrical(ticks) => Some(ticks.as_int()),
                midly::Timing::Timecode(..) => None,
            },
            first_track: smf.tracks.first().map(|track| track.iter().map(event_of).collect()),
        },
    )
}

/// The message of an error of `midly`, as `midly` words it.
#[verifier::external_body]
fn midly_error_text(error: &midly::Error) -> String {
    format!("{}", error)
}

/// The keys that are pressed and not released yet, while a track is read:
/// each with the velocity and the step of its note-on. A hash table of the
/// `hashbrown` crate.
#[verifier::external_body]
pub struct OpenNotes {
    map: hashbrown::HashMap<u8, (u8, u32)>,
}

/// What the table of open notes holds.
pub uninterp spec fn open_notes(s: OpenNotes) -> Map<u8, (u8, u32)>;

/// The table in which no key is open.
pub open spec fn none_open() -> Map<u8, (u8, u32)> {
    Map::empty()
}

/// `hashbrown::HashMap::new`: a map that holds nothing.
#[verifier::external_body]
fn open_new() -> (s: OpenNotes)
    ensures
        open_notes(s) == none_open(),
{
    OpenNotes { map: hashbrown::HashMap::new() }
}

/// `hashbrown::HashMap::insert`: `key` now leads to `note`, every other
/// key to what it led to before; what `key` led to before, if anything, is
/// returned.
#[verifier::external_body]
fn open_insert(s: &mut OpenNotes, key: u8, note: (u8, u32)) -> (prev: Option<(u8, u32)>)
    ensures
        open_notes(*final(s)) == open_notes(*old(s)).insert(key, note),
        prev.is_some() == open_notes(*old(s)).contains_key(key),
        prev.is_some() ==> prev.unwrap() == open_notes(*old(s))[key],
{
    s.map.insert(key, note)
}

/// `hashbrown::HashMap::remove`: `key` leads to nothing afterwards, every
/// other key to what it led to before; what `key` led to, if anything, is
/// returned.
#[verifier::external_body]
fn open_remove(s: &mut OpenNotes, key: u8) -> (taken: Option<(u8, u32)>)
    ensures
        open_notes(*final(s)) == open_notes(*old(s)).remove(key),
        taken.is_some() == open_notes(*old(s)).contains_key(key),
        taken.is_some() ==> taken.unwrap() == open_notes(*old(s))[key],
{
    s.map.remove(&key)
}

impl TrackError {
    /// The message of an error that is not the parser's own.
    pub open spec fn text(self) -> Seq<char> {
        match self {
            TrackError::Midly(_) => "Midly error: "@,
            TrackError::DuplicateNote => "Cannot play the same note before it ends"@,
            TrackError::WrongNoteOff => "Cannot end a note before playing it"@,
            TrackError::BadFormat => "Midi file doesn't contain exactly one track"@,
            TrackError::BadTiming => "Unsupported timing specification"@,
        }
    }

    /// The message of the error. That of a parser error begins with
    /// `Midly error: ` and goes on with the parser's own words.
    pub fn to_string(&self) -> (r: String)
        ensures
            !(self is Midly) ==> r@ == self.text(),
            self is Midly ==> self.text().is_prefix_of(r@),
    {
        match self {
            TrackError::Midly(error) => {
                let mut r = String::from_str("Midly error: ");
                let detail = midly_error_text(error);
                let ghost head = r@;
                r.append(detail.as_str());
                assert(head =~= r@.subrange(0, head.len() as int));
                r
            },
            TrackError::DuplicateNote => String::from_str(
                "Cannot play the same note before it ends",
            ),
            TrackError::WrongNoteOff => String::from_str("Cannot end a note before playing it"),
            TrackError::BadFormat => String::from_str(
                "Midi file doesn't contain exactly one track",
            ),
            TrackError::BadTiming => String::from_str("Unsupported timing specification"),
        }
    }
}

/// How far a track is read.
pub struct Scan {
    /// The step that is reached.
    pub step: int,
    /// The keys that are pressed and not released yet, each with the
    /// velocity and the step of its note-on.
    pub open: Map<u8, (u8, u32)>,
    /// The notes that are complete, each with its start and its length.
    pub notes: Seq<(MidiNote, u32, u32)>,
    /// Whether the end of the track is reached.
    pub ended: bool,
}

/// The steps that pass before `event`: its delta in steps of `step_size`
/// ticks, rounded down.
pub open spec fn clocks(event: MidiEvent, step_size: u32) -> int {
    event.delta as int / step_size as int
}

/// Reading one event: time moves on by its delta; a note-on opens its key,
/// and fails on a key that is open; a note-off closes its key and
/// completes the note, from the step of its note-on up to now, and fails
/// on a key that is not open; the end of the track ends the reading.
pub open spec fn scan_event(s: Scan, event: MidiEvent, step_size: u32) -> Result<Scan, TrackError> {
    let step = s.step + clocks(event, step_size);
    match event.kind {
        EventKind::NoteOff { key } => if s.open.contains_key(key) {
            let (vel, start) = s.open[key];
            Ok(
                Scan {
                    step,
                    open: s.open.remove(key),
                    notes: s.notes.push((MidiNote::of_value(key, vel), start, (step - start) as u32)),
                    ended: false,
                },
            )
        } else {
            Err(TrackError::WrongNoteOff)
        },
        EventKind::NoteOn { key, vel } => if s.open.contains_key(key) {
            Err(TrackError::DuplicateNote)
        } else {
            Ok(Scan { step, open: s.open.insert(key, (vel, step as u32)), ..s })
        },
        EventKind::EndOfTrack => Ok(Scan { step, ended: true, ..s }),
        EventKind::Other => Ok(Scan { step, ..s }),
    }
}

/// Reading the first `upto` events of a track, up to its end or to the
/// first failure.
pub open spec fn scan(events: Seq<MidiEvent>, step_size: u32, upto: int) -> Result<Scan, TrackError>
    decreases upto,
{
    if upto <= 0 {
        Ok(Scan { step: 0, open: none_open(), notes: Seq::empty(), ended: false })
    } else {
        match scan(events, step_size, upto - 1) {
            Ok(s) => if s.ended {
                Ok(s)
            } else {
                scan_event(s, events[upto - 1], step_size)
            },
            Err(e) => Err(e),
        }
    }
}

/// Whether the event at index `at` is read: the reading has neither ended
/// nor failed before it.
pub open spec fn is_read(events: Seq<MidiEvent>, step_size: u32, at: int) -> bool {
    scan(events, step_size, at).is_ok() && !scan(events, step_size, at).unwrap().ended
}

/// Whether the steps of the first `upto` events can be counted: each event
/// that is read finds a step of at least one tick, and the step that is
/// reached with its delta fits the step counter. The events behind the end
/// of the track, or behind the first failure, are not read and do not
/// count.
pub open spec fn scannable(events: Seq<MidiEvent>, step_size: u32, upto: int) -> bool
    decreases upto,
{
    if upto <= 0 {
        true
    } else {
        scannable(events, step_size, upto - 1) && (is_read(events, step_size, upto - 1)
            ==> step_size > 0 && scan(events, step_size, upto - 1).unwrap().step + clocks(
            events[upto - 1],
            step_size,
        ) <= u32::MAX)
    }
}

impl FileView {
    /// The ticks that make a step: a beat has 24 steps.
    pub open spec fn step_size(self) -> u32 {
        (self.ticks_per_beat.unwrap() / 24) as u32
    }

    /// Whether the file is one that a track is read from: it says that it
    /// holds a single track, counts time in beats, and has a track.
    pub open spec fn readable(self) -> bool {
        self.single_track && self.ticks_per_beat.is_some() && self.first_track.is_some()
    }

    /// Whether the steps of the file can be counted, as far as its track is
    /// read. A file that is not readable has no steps to count.
    pub open spec fn countable(self) -> bool {
        self.readable() ==> scannable(
            self.first_track.unwrap(),
            self.step_size(),
            self.first_track.unwrap().len() as int,
        )
    }

    /// The track of the file: the notes of its first track, in the order in
    /// which they end, in a loop as long as the track. It fails with
    /// `BadFormat` on a file that does not say that it holds a single
    /// track, or holds none; with `BadTiming` on a file that does not count
    /// time in beats; and where the reading of the events fails.
    pub open spec fn track(self, root: Note, channel_id: u8, name: Seq<char>) -> Result<
        Pattern,
        TrackError,
    > {
        if !self.single_track {
            Err(TrackError::BadFormat)
        } else if self.ticks_per_beat.is_none() {
            Err(TrackError::BadTiming)
        } else if self.first_track.is_none() {
            Err(TrackError::BadFormat)
        } else {
            let events = self.first_track.unwrap();
            match scan(events, self.step_size(), events.len() as int) {
                Ok(s) => Ok(
                    Pattern {
                        len: s.step as u32,
                        notes: s.notes,
                        start_step: 0,
                        root,
                        transpose: None,
                        channel_id,
                        name,
                    },
                ),
                Err(e) => Err(e),
            }
        }
    }
}

/// Whether `r` is the track of `file`, or the failure to make it.
pub open spec fn is_track_of(
    r: Result<DeteTrack, TrackError>,
    file: FileView,
    root: Note,
    channel_id: u8,
    name: Seq<char>,
) -> bool {
    match r {
        Ok(track) => file.track(root, channel_id, name) == Ok::<Pattern, TrackError>(track@),
        Err(e) => file.track(root, channel_id, name) == Err::<Pattern, TrackError>(e),
    }
}

/// Where the steps can be counted, the reading stays within the step
/// counter, and no key was pressed later than the step reached.
pub proof fn lemma_scan_steps(events: Seq<MidiEvent>, step_size: u32, upto: int)
    requires
        0 <= upto <= events.len(),
        scannable(events, step_size, upto),
        scan(events, step_size, upto).is_ok(),
    ensures
        0 <= scan(events, step_size, upto).unwrap().step <= u32::MAX,
        forall|key: u8|
            scan(events, step_size, upto).unwrap().open.contains_key(key) ==> (
            #[trigger] scan(events, step_size, upto).unwrap().open[key]).1 <= scan(
                events,
                step_size,
                upto,
            ).unwrap().step,
    decreases upto,
{
    if upto > 0 {
        lemma_scan_steps(events, step_size, upto - 1);
        let before = scan(events, step_size, upto - 1).unwrap();
        if !before.ended {
            let d = events[upto - 1].delta as int;
            assert(0 <= d / (step_size as int)) by (nonlinear_arith)
                requires
                    0 <= d,
                    step_size > 0,
            ;
        }
    }
}

/// Once the reading has failed or ended, what follows changes nothing, and
/// nothing more is counted.
pub proof fn lemma_scan_settled(events: Seq<MidiEvent>, step_size: u32, at: int, upto: int)
    requires
        0 <= at <= upto,
        !is_read(events, step_size, at),
    ensures
        scan(events, step_size, upto) == scan(events, step_size, at),
        scannable(events, step_size, upto) == scannable(events, step_size, at),
    decreases upto - at,
{
    if at < upto {
        lemma_scan_settled(events, step_size, at, upto - 1);
    }
}

/// Steps that cannot be counted up to one event cannot be counted further
/// on.
pub proof fn lemma_unscannable(events: Seq<MidiEvent>, step_size: u32, at: int, upto: int)
    requires
        0 <= at <= upto,
        !scannable(events, step_size, at),
    ensures
        !scannable(events, step_size, upto),
    decreases upto - at,
{
    if at < upto {
        lemma_unscannable(events, step_size, at, upto - 1);
    }
}

// Reads the events of a track: the length and the notes of the track, or
// the failure of the reading; nothing where the steps cannot be counted.
fn read_events(events: &Vec<MidiEvent>, step_size: u32) -> (r: Option<
    Result<(u32, Vec<(MidiNote, u32, u32)>), TrackError>,
>)
    ensures
        r.is_some() == scannable(events@, step_size, events@.len() as int),
        r.is_some() ==> (match r.unwrap() {
            Ok((step, notes)) => scan(events@, step_size, events@.len() as int).is_ok() && scan(
                events@,
                step_size,
                events@.len() as int,
            ).unwrap().step == step && scan(events@, step_size, events@.len() as int).unwrap().notes
                == notes@,
            Err(e) => scan(events@, step_size, events@.len() as int) == Err::<Scan, TrackError>(e),
        }),
{
    let ghost len = events@.len() as int;
    let mut notes_map = open_new();
    let mut notes: Vec<(MidiNote, u32, u32)> = Vec::new();
    let mut step: u32 = 0;
    let mut i: usize = 0;
    while i < events.len()
        invariant
            0 <= i <= events.len(),
            len == events@.len(),
            scannable(events@, step_size, i as int),
            scan(events@, step_size, i as int) == Ok::<Scan, TrackError>(
                Scan { step: step as int, open: open_notes(notes_map), notes: notes@, ended: false },
            ),
        decreases events.len() - i,
    {
        let event = events[i];
        proof {
            lemma_scan_steps(events@, step_size, i as int);
        }
        if step_size == 0 {
            proof {
                lemma_unscannable(events@, step_size, i + 1, len);
            }
            return None;
        }
        let nb_clocks: u32 = event.delta / step_size;
        if nb_clocks > u32::MAX - step {
            proof {
                lemma_unscannable(events@, step_size, i + 1, len);
            }
            return None;
        }
        step = step + nb_clocks;
        assert(scannable(events@, step_size, i + 1));
        match event.kind {
            EventKind::NoteOff { key } => {
                let (vel, start) = match open_remove(&mut notes_map, key) {
                    Some(note) => note,
                    None => {
                        proof {
                            lemma_scan_settled(events@, step_size, i + 1, len);
                        }
                        return Some(Err(TrackError::WrongNoteOff));
                    },
                };
                notes.push((MidiNote::from_midi_value(key, vel), start, step - start));
            },
            EventKind::NoteOn { key, vel } => {
                if open_insert(&mut notes_map, key, (vel, step)).is_some() {
                    proof {
                        lemma_scan_settled(events@, step_size, i + 1, len);
                    }
                    return Some(Err(TrackError::DuplicateNote));
                }
            },
            EventKind::EndOfTrack => {
                proof {
                    lemma_scan_settled(events@, step_size, i + 1, len);
                }
                return Some(Ok((step, notes)));
            },
            EventKind::Other => {},
        }
        i += 1;
    }
    Some(Ok((step, notes)))
}

// Makes the track of a parsed file; nothing where its steps cannot be
// counted.
fn read_file(file: &MidiFile, root: Note, channel_id: u8, name: &str) -> (r: Option<
    Result<DeteTrack, TrackError>,
>)
    ensures
        r.is_some() == file@.countable(),
        r.is_some() ==> is_track_of(r.unwrap(), file@, root, channel_id, name@),
{
    if !file.single_track {
        return Some(Err(TrackError::BadFormat));
    }
    // 24 comes from the TimeSignature (number of clocks per beat)
    let step_size: u32 = match file.ticks_per_beat {
        Some(ticks) => (ticks / 24) as u32,
        None => {
            return Some(Err(TrackError::BadTiming));
        },
    };
    let events = match &file.first_track {
        Some(events) => events,
        None => {
            return Some(Err(TrackError::BadFormat));
        },
    };
    assert(file@.first_track == Some(events@));
    match read_events(events, step_size) {
        Some(Ok((step, notes))) => Some(Ok(DeteTrack::new(step, notes, root, channel_id, name))),
        Some(Err(e)) => Some(Err(e)),
        None => None,
    }
}

impl MidiFile {
    /// Whether the steps of the file can be counted.
    pub fn is_countable(&self) -> (r: bool)
        ensures
            r == self@.countable(),
    {
        if !self.single_track {
            return true;
        }
        let step_size: u32 = match self.ticks_per_beat {
            Some(ticks) => (ticks / 24) as u32,
            None => {
                return true;
            },
        };
        match &self.first_track {
            None => true,
            Some(events) => {
                assert(self@.first_track == Some(events@));
                read_events(events, step_size).is_some()
            },
        }
    }
}

/// Makes the track of a parsed file. Provide the root note of the track to
/// allow for transposition. `channel_id` is the midi channel where this track
/// will be played.
///
/// The steps of the file must be countable.
pub fn track_from_file(file: &MidiFile, root: Note, channel_id: u8, name: &str) -> (r: Result<
    DeteTrack,
    TrackError,
>)
    requires
        file@.countable(),
    ensures
        is_track_of(r, file@, root, channel_id, name@),
{
    match read_file(file, root, channel_id, name) {
        Some(r) => r,
        None => vstd::pervasive::unreached(),
    }
}

/// Loads a track from the bytes of a Standard MIDI File. Provide the root
/// note of the track to allow for transposition. `channel_id` is the midi
/// channel where this track will be played.
///
/// Bytes that are no MIDI file give the error of the parser. Bytes that
/// cannot be handed to the parser, and a file whose steps cannot be
/// counted, give `None`.
pub fn load_from_bytes(bytes: &[u8], root: Note, channel_id: u8, name: &str) -> (r: Option<
    Result<DeteTrack, TrackError>,
>)
    ensures
        !safe_to_parse(bytes@) ==> r.is_none(),
        safe_to_parse(bytes@) ==> (match parsed_file(bytes@) {
            Some(file) => if file.countable() {
                r.is_some() && is_track_of(r.unwrap(), file, root, channel_id, name@)
            } else {
                r.is_none()
            },
            None => r.is_some() && r.unwrap().is_err() && r.unwrap().unwrap_err() is Midly,
        }),
{
    if !is_safe_to_parse(bytes) {
        return None;
    }
    match parse_smf(bytes) {
        Ok(file) => read_file(&file, root, channel_id, name),
        Err(e) => Some(Err(TrackError::Midly(e))),
    }
}

} // verus!
