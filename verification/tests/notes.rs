use mseq::instruction::Instruction;
use mseq::midi::{CC, CLOCK, CONTINUE, NOTE_OFF, NOTE_ON, PC, START, STOP};
use mseq::{is_valid_channel, MidiMessage, MidiNote, Note};

const NOTES: [Note; 12] = [
    Note::C,
    Note::CS,
    Note::D,
    Note::DS,
    Note::E,
    Note::F,
    Note::FS,
    Note::G,
    Note::GS,
    Note::A,
    Note::AS,
    Note::B,
];

#[test]
fn note_positions_run_from_c_to_b() {
    for (i, note) in NOTES.iter().enumerate() {
        assert_eq!(note.to_index(), i as u8);
        assert_eq!(u8::from(*note), i as u8);
        assert_eq!(Note::from_index(i as u8), *note);
        assert_eq!(Note::from(i as u8), *note);
        assert_eq!(Note::from_index(i as u8 + 12 * 7), *note);
    }
    assert_eq!(Note::from_index(255), Note::DS);
    assert_eq!(Note::default(), Note::C);
}

#[test]
fn note_names_mark_sharps() {
    let names = ["C", "C#", "D", "D#", "E", "F", "F#", "G", "G#", "A", "A#", "B"];
    for (note, name) in NOTES.iter().zip(names) {
        assert_eq!(note.to_string(), name);
    }
}

#[test]
fn add_semitone_goes_over_the_octave() {
    assert_eq!(Note::G.add_semitone(4, 5), (Note::C, 5));
    assert_eq!(Note::C.add_semitone(4, 0), (Note::C, 4));
    assert_eq!(Note::C.add_semitone(4, 12), (Note::C, 5));
    assert_eq!(Note::B.add_semitone(4, 1), (Note::C, 5));
    assert_eq!(Note::A.add_semitone(0, 127), (Note::E, 11));
    assert_eq!(Note::B.add_semitone(0, 127), (Note::FS, 11));
}

#[test]
fn add_semitone_floors_downwards() {
    assert_eq!(Note::C.add_semitone(4, -1), (Note::B, 3));
    assert_eq!(Note::C.add_semitone(4, -12), (Note::C, 3));
    assert_eq!(Note::C.add_semitone(4, -13), (Note::B, 2));
    assert_eq!(Note::D.add_semitone(1, -2), (Note::C, 1));
    assert_eq!(Note::D.add_semitone(1, -3), (Note::B, 0));
    assert_eq!(Note::C.add_semitone(11, -128), (Note::E, 0));
    assert_eq!(Note::B.add_semitone(255, 0), (Note::B, 255));
}

#[test]
fn interval_lies_between_minus_five_and_six() {
    assert_eq!(Note::transpose(Note::A, Note::C), 3);
    assert_eq!(Note::transpose(Note::A, Note::G), -2);
    assert_eq!(Note::transpose(Note::C, Note::FS), 6);
    assert_eq!(Note::transpose(Note::C, Note::G), -5);
    assert_eq!(Note::transpose(Note::FS, Note::C), 6);
    assert_eq!(Note::transpose(Note::B, Note::C), 1);
    assert_eq!(Note::transpose(Note::C, Note::B), -1);
    for root in NOTES {
        assert_eq!(Note::transpose(root, root), 0);
        for note in NOTES {
            let by = Note::transpose(root, note);
            assert!((-5..=6).contains(&by));
            assert_eq!(root.add_semitone(5, by).0, note);
        }
    }
}

#[test]
fn transposing_there_and_back_gives_the_note() {
    for note in NOTES {
        for octave in [11u8, 12, 100, 244] {
            let n = MidiNote::new(note, octave, 77);
            assert_eq!(n.transpose(0), n);
            for k in -127i8..=127 {
                assert_eq!(n.transpose(k).transpose(-k), n);
                assert_eq!(n.transpose(k).vel, 77);
            }
        }
    }
}

#[test]
fn transposing_moves_the_midi_value() {
    let n = MidiNote::new(Note::A, 4, 1);
    assert_eq!(n.midi_value(), 57);
    assert_eq!(n.transpose(3), MidiNote::new(Note::C, 5, 1));
    assert_eq!(n.transpose(3).midi_value(), 60);
    assert_eq!(n.transpose(-10).midi_value(), 47);
    assert_eq!(n.transpose(-57).midi_value(), 0);
}

#[test]
fn checked_transpose_stays_within_the_octaves() {
    let low = MidiNote::new(Note::D, 0, 9);
    assert_eq!(low.checked_transpose(-2), Some(MidiNote::new(Note::C, 0, 9)));
    assert_eq!(low.checked_transpose(-3), None);
    assert_eq!(low.checked_transpose(-128), None);
    let high = MidiNote::new(Note::A, 255, 9);
    assert_eq!(high.checked_transpose(2), Some(MidiNote::new(Note::B, 255, 9)));
    assert_eq!(high.checked_transpose(3), None);
    assert_eq!(high.checked_transpose(127), None);
    assert_eq!(high.checked_transpose(-12), Some(MidiNote::new(Note::A, 254, 9)));
}

#[test]
fn midi_value_is_note_plus_twelve_per_octave() {
    assert_eq!(MidiNote::new(Note::C, 0, 0).midi_value(), 0);
    assert_eq!(MidiNote::new(Note::B, 3, 21).midi_value(), 47);
    assert_eq!(MidiNote::new(Note::C, 4, 100).midi_value(), 48);
    assert_eq!(MidiNote::new(Note::B, 10, 21).midi_value(), 131);
    assert_eq!(MidiNote::new(Note::DS, 21, 0).midi_value(), 255);
    assert_eq!(MidiNote::new(Note::DS, 21, 0).checked_midi_value(), Some(255));
    assert_eq!(MidiNote::new(Note::E, 21, 0).checked_midi_value(), None);
    assert_eq!(MidiNote::new(Note::C, 22, 0).checked_midi_value(), None);
    assert_eq!(MidiNote::new(Note::B, 20, 0).checked_midi_value(), Some(251));
    assert_eq!(MidiNote::new(Note::C, 255, 0).checked_midi_value(), None);
}

#[test]
fn from_midi_value_inverts_midi_value() {
    for value in 0u8..=255 {
        let n = MidiNote::from_midi_value(value, 64);
        assert_eq!(n.midi_value(), value);
        assert_eq!(n.octave, value / 12);
        assert_eq!(n.vel, 64);
    }
    assert_eq!(MidiNote::from_midi_value(60, 1), MidiNote::new(Note::C, 5, 1));
    assert_eq!(MidiNote::default(), MidiNote::new(Note::C, 0, 0));
}

#[test]
fn channels_one_to_sixteen_are_valid() {
    assert!(!is_valid_channel(0));
    assert!(is_valid_channel(1));
    assert!(is_valid_channel(16));
    assert!(!is_valid_channel(17));
    assert!(!is_valid_channel(255));
}

#[test]
fn wire_constants_are_those_of_midi() {
    assert_eq!((CLOCK, START, CONTINUE, STOP), (0xF8, 0xFA, 0xFB, 0xFC));
    assert_eq!((NOTE_OFF, NOTE_ON, CC, PC), (0x80, 0x90, 0xB0, 0xC0));
}

#[test]
fn parse_recognises_single_bytes() {
    assert_eq!(MidiMessage::parse(&[0xF8]), Some(MidiMessage::Clock));
    assert_eq!(MidiMessage::parse(&[0xFA]), Some(MidiMessage::Start));
    assert_eq!(MidiMessage::parse(&[0xFB]), Some(MidiMessage::Continue));
    assert_eq!(MidiMessage::parse(&[0xFC]), Some(MidiMessage::Stop));
    assert_eq!(MidiMessage::parse(&[0xF9]), None);
    assert_eq!(MidiMessage::parse(&[0x90]), None);
    assert_eq!(MidiMessage::parse(&[]), None);
}

#[test]
fn parse_recognises_channel_messages() {
    assert_eq!(
        MidiMessage::parse(&[0x90, 60, 100]),
        Some(MidiMessage::NoteOn { channel: 1, note: MidiNote::new(Note::C, 5, 100) })
    );
    assert_eq!(
        MidiMessage::parse(&[0x8F, 61, 7]),
        Some(MidiMessage::NoteOff { channel: 16, note: MidiNote::new(Note::CS, 5, 7) })
    );
    assert_eq!(
        MidiMessage::parse(&[0xB2, 7, 127]),
        Some(MidiMessage::CC { channel: 3, controller: 7, value: 127 })
    );
    assert_eq!(MidiMessage::parse(&[0xC4, 9]), Some(MidiMessage::PC { channel: 5, value: 9 }));
}

#[test]
fn parse_ignores_everything_else() {
    assert_eq!(MidiMessage::parse(&[0xC4, 9, 1]), None);
    assert_eq!(MidiMessage::parse(&[0x90, 60]), None);
    assert_eq!(MidiMessage::parse(&[0xB2, 7]), None);
    assert_eq!(MidiMessage::parse(&[0xA0, 1, 2]), None);
    assert_eq!(MidiMessage::parse(&[0xE0, 1, 2]), None);
    assert_eq!(MidiMessage::parse(&[0xF8, 0xF8]), None);
    assert_eq!(MidiMessage::parse(&[0x90, 60, 100, 0]), None);
    assert_eq!(MidiMessage::parse(&[0x10, 60, 100]), None);
}

#[test]
fn to_bytes_puts_the_channel_less_one_on_the_wire() {
    let note = MidiNote::new(Note::C, 5, 100);
    assert_eq!(MidiMessage::NoteOn { channel: 1, note }.to_bytes(), Some(vec![0x90, 60, 100]));
    assert_eq!(MidiMessage::NoteOn { channel: 16, note }.to_bytes(), Some(vec![0x9F, 60, 100]));
    assert_eq!(MidiMessage::NoteOff { channel: 2, note }.to_bytes(), Some(vec![0x81, 60, 0]));
    assert_eq!(
        MidiMessage::CC { channel: 10, controller: 1, value: 2 }.to_bytes(),
        Some(vec![0xB9, 1, 2])
    );
    assert_eq!(MidiMessage::PC { channel: 3, value: 4 }.to_bytes(), Some(vec![0xC2, 4]));
    assert_eq!(MidiMessage::Clock.to_bytes(), Some(vec![0xF8]));
    assert_eq!(MidiMessage::Start.to_bytes(), Some(vec![0xFA]));
    assert_eq!(MidiMessage::Continue.to_bytes(), Some(vec![0xFB]));
    assert_eq!(MidiMessage::Stop.to_bytes(), Some(vec![0xFC]));
}

#[test]
fn to_bytes_rejects_what_cannot_go_on_the_wire() {
    let note = MidiNote::new(Note::C, 5, 100);
    for channel in [0u8, 17, 200] {
        assert_eq!(MidiMessage::NoteOn { channel, note }.to_bytes(), None);
        assert_eq!(MidiMessage::NoteOff { channel, note }.to_bytes(), None);
        assert_eq!(MidiMessage::CC { channel, controller: 1, value: 2 }.to_bytes(), None);
        assert_eq!(MidiMessage::PC { channel, value: 2 }.to_bytes(), None);
    }
    let out_of_range = MidiNote::new(Note::C, 30, 100);
    assert_eq!(MidiMessage::NoteOn { channel: 1, note: out_of_range }.to_bytes(), None);
    assert_eq!(MidiMessage::NoteOff { channel: 1, note: out_of_range }.to_bytes(), None);
}

#[test]
fn parse_inverts_to_bytes() {
    for channel in 1u8..=16 {
        for value in [0u8, 1, 59, 60, 127] {
            let note = MidiNote::from_midi_value(value, 33);
            let on = MidiMessage::NoteOn { channel, note };
            assert_eq!(MidiMessage::parse(&on.to_bytes().unwrap()), Some(on));
            let off = MidiMessage::NoteOff { channel, note };
            assert_eq!(
                MidiMessage::parse(&off.to_bytes().unwrap()),
                Some(MidiMessage::NoteOff { channel, note: MidiNote::from_midi_value(value, 0) })
            );
            let cc = MidiMessage::CC { channel, controller: value, value: 5 };
            assert_eq!(MidiMessage::parse(&cc.to_bytes().unwrap()), Some(cc));
            let pc = MidiMessage::PC { channel, value };
            assert_eq!(MidiMessage::parse(&pc.to_bytes().unwrap()), Some(pc));
        }
    }
    for m in [MidiMessage::Clock, MidiMessage::Start, MidiMessage::Continue, MidiMessage::Stop] {
        assert_eq!(MidiMessage::parse(&m.to_bytes().unwrap()), Some(m));
    }
}

#[test]
fn instruction_transpose_moves_the_note_only() {
    let note = MidiNote::new(Note::A, 4, 50);
    let up = MidiNote::new(Note::C, 5, 50);
    let mut i = Instruction::PlayNote { midi_note: note, len: 3, channel_id: 2 };
    i.transpose(3);
    assert_eq!(i, Instruction::PlayNote { midi_note: up, len: 3, channel_id: 2 });
    let mut i = Instruction::StartNote { midi_note: note, channel_id: 2 };
    i.transpose(3);
    assert_eq!(i, Instruction::StartNote { midi_note: up, channel_id: 2 });
    let mut i = Instruction::StopNote { midi_note: note, channel_id: 2 };
    i.transpose(3);
    assert_eq!(i, Instruction::StopNote { midi_note: up, channel_id: 2 });
    i.transpose(-3);
    assert_eq!(i, Instruction::StopNote { midi_note: note, channel_id: 2 });
}

#[test]
fn instruction_transpose_leaves_the_others() {
    let others = [
        Instruction::SendCC { channel_id: 1, parameter: 2, value: 3 },
        Instruction::StopAllNotes,
        Instruction::MidiMessage {
            midi_message: MidiMessage::NoteOn { channel: 1, note: MidiNote::new(Note::A, 4, 50) },
        },
        Instruction::Continue,
        Instruction::Start,
        Instruction::Stop,
    ];
    for other in others {
        let mut i = other;
        i.transpose(7);
        assert_eq!(i, other);
    }
}
