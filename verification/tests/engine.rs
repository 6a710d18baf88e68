use mseq::midi_controller::MidiController;
use mseq::midi_out::Taken;
use mseq::{
    Conductor, Context, DeteTrack, InputQueue, Instruction, MidiMessage, MidiNote, MidiOut, Note,
    Track,
};
use std::cell::RefCell;
use std::collections::HashMap;
use std::rc::Rc;

#[derive(Debug, Clone, PartialEq, Eq)]
enum Sent {
    Start,
    Continue,
    Stop,
    Clock,
    On(u8, u8, u8),
    Off(u8, u8),
    Cc(u8, u8, u8),
    Pc(u8, u8),
}

struct DebugMidiOutInner {
    notes_on: HashMap<(u8, u8), u8>,
    log: Vec<Sent>,
    // Whether a note-off for a note that is not on is a failure.
    strict: bool,
}

struct DebugMidiOut(Rc<RefCell<DebugMidiOutInner>>);

fn debug_conn() -> Rc<RefCell<DebugMidiOutInner>> {
    Rc::new(RefCell::new(DebugMidiOutInner { notes_on: HashMap::new(), log: vec![], strict: true }))
}

fn loose_conn() -> Rc<RefCell<DebugMidiOutInner>> {
    Rc::new(RefCell::new(DebugMidiOutInner { notes_on: HashMap::new(), log: vec![], strict: false }))
}

impl MidiOut for DebugMidiOut {
    type Error = String;

    fn taken(&self) -> Taken<String> {
        unreachable!()
    }

    fn send_start(&mut self) -> Result<(), String> {
        self.0.borrow_mut().log.push(Sent::Start);
        Ok(())
    }

    fn send_continue(&mut self) -> Result<(), String> {
        self.0.borrow_mut().log.push(Sent::Continue);
        Ok(())
    }

    fn send_stop(&mut self) -> Result<(), String> {
        self.0.borrow_mut().log.push(Sent::Stop);
        Ok(())
    }

    fn send_clock(&mut self) -> Result<(), String> {
        self.0.borrow_mut().log.push(Sent::Clock);
        Ok(())
    }

    fn send_note_on(&mut self, channel_id: u8, note: u8, velocity: u8) -> Result<(), String> {
        println!("On\tchn:{}\tnte:{}\tvel:{}", channel_id, note, velocity);
        let mut inner = self.0.borrow_mut();
        inner.log.push(Sent::On(channel_id, note, velocity));
        inner.notes_on.insert((channel_id, note), velocity);
        Ok(())
    }

    fn send_note_off(&mut self, channel_id: u8, note: u8) -> Result<(), String> {
        println!("Off\tchn:{}\tnte:{}", channel_id, note);
        let mut inner = self.0.borrow_mut();
        inner.log.push(Sent::Off(channel_id, note));
        assert!(!inner.strict || inner.notes_on.contains_key(&(channel_id, note)));
        inner.notes_on.remove(&(channel_id, note));
        Ok(())
    }

    fn send_cc(&mut self, channel_id: u8, parameter: u8, value: u8) -> Result<(), String> {
        self.0.borrow_mut().log.push(Sent::Cc(channel_id, parameter, value));
        Ok(())
    }

    fn send_pc(&mut self, channel_id: u8, value: u8) -> Result<(), String> {
        self.0.borrow_mut().log.push(Sent::Pc(channel_id, value));
        Ok(())
    }
}

/// An output that fails every send.
struct FailingOut;

impl MidiOut for FailingOut {
    type Error = String;

    fn taken(&self) -> Taken<String> {
        unreachable!()
    }

    fn send_start(&mut self) -> Result<(), String> {
        Err("start".to_string())
    }

    fn send_continue(&mut self) -> Result<(), String> {
        Err("continue".to_string())
    }

    fn send_stop(&mut self) -> Result<(), String> {
        Err("stop".to_string())
    }

    fn send_clock(&mut self) -> Result<(), String> {
        Err("clock".to_string())
    }

    fn send_note_on(&mut self, _channel_id: u8, _note: u8, _velocity: u8) -> Result<(), String> {
        Err("on".to_string())
    }

    fn send_note_off(&mut self, _channel_id: u8, _note: u8) -> Result<(), String> {
        Err("off".to_string())
    }

    fn send_cc(&mut self, _channel_id: u8, _parameter: u8, _value: u8) -> Result<(), String> {
        Err("cc".to_string())
    }

    fn send_pc(&mut self, _channel_id: u8, _value: u8) -> Result<(), String> {
        Err("pc".to_string())
    }
}

fn test_conductor<T: MidiOut>(mut conductor: impl Conductor, mut midi_controller: MidiController<T>) {
    let mut ctx = Context::new();
    conductor.init(&mut ctx);
    while ctx.is_running() {
        ctx.process_pre_tick(&mut conductor, &mut midi_controller);
        // No sleep between each cycle because we're testing
        ctx.process_post_tick(&mut midi_controller);
    }
    midi_controller.stop_all_notes(None);
    midi_controller.stop();
}

struct DebugConductor1(Rc<RefCell<DebugMidiOutInner>>);

impl Conductor for DebugConductor1 {
    fn init(&mut self, context: &mut Context) -> Vec<Instruction> {
        context.start();
        vec![]
    }

    fn update(&mut self, context: &mut Context) -> Vec<Instruction> {
        let mut instructions = vec![];
        if context.get_step() == 0 {
            let note = MidiNote::new(Note::B, 3, 21);
            instructions.push(Instruction::PlayNote { midi_note: note, len: 5, channel_id: 1 });
        } else if context.get_step() == 10 {
            context.quit();
        }
        if (1..=5).contains(&context.get_step()) {
            assert!(self.0.borrow().notes_on.len() == 1);
        } else {
            assert!(self.0.borrow().notes_on.is_empty());
        }
        instructions
    }
}

#[test]
fn unit_tests_play_note_conductor() {
    let debug_conn = debug_conn();
    let midi = MidiController::new(DebugMidiOut(debug_conn.clone()));
    let conductor = DebugConductor1(debug_conn);
    test_conductor(conductor, midi);
}

#[test]
fn integration_test_play_note_conductor() {
    let debug_conn = debug_conn();
    let midi = MidiController::new(DebugMidiOut(debug_conn.clone()));
    let conductor = DebugConductor1(debug_conn.clone());
    test_conductor(conductor, midi);
    assert!(debug_conn.borrow().notes_on.is_empty());
}

struct DebugConductor2(Rc<RefCell<DebugMidiOutInner>>);

impl Conductor for DebugConductor2 {
    fn init(&mut self, context: &mut Context) -> Vec<Instruction> {
        context.start();
        vec![]
    }

    fn update(&mut self, context: &mut Context) -> Vec<Instruction> {
        let mut instructions = vec![];
        if context.get_step() == 0 {
            let note = MidiNote::new(Note::B, 10, 21);
            instructions.push(Instruction::PlayNote { midi_note: note, len: 10, channel_id: 1 });
            instructions.push(Instruction::StartNote { midi_note: note, channel_id: 3 });
        } else if context.get_step() == 5 {
            context.quit();
        }

        if (1..=5).contains(&context.get_step()) {
            assert!(self.0.borrow().notes_on.len() == 2);
        }

        instructions
    }
}

#[test]
fn unit_tests_notes_stop_on_quit() {
    let debug_conn = debug_conn();
    let midi = MidiController::new(DebugMidiOut(debug_conn.clone()));
    let conductor = DebugConductor2(debug_conn.clone());
    test_conductor(conductor, midi);
    assert!(debug_conn.borrow().notes_on.is_empty());
}

#[test]
fn integration_test_notes_stop_on_quit() {
    let debug_conn = debug_conn();
    let mut midi = MidiController::new(DebugMidiOut(debug_conn.clone()));
    let mut conductor = DebugConductor2(debug_conn.clone());
    let mut ctx = Context::default();
    ctx.init(&mut conductor, &mut midi);
    while ctx.is_running() {
        ctx.process_pre_tick(&mut conductor, &mut midi);
        ctx.process_post_tick(&mut midi);
    }
    midi.finish();
    assert!(debug_conn.borrow().notes_on.is_empty());
}

struct DebugConductor3 {
    conn: Rc<RefCell<DebugMidiOutInner>>,
    track: DeteTrack,
}

impl Conductor for DebugConductor3 {
    fn init(&mut self, context: &mut Context) -> Vec<Instruction> {
        context.start();
        vec![]
    }

    fn update(&mut self, context: &mut Context) -> Vec<Instruction> {
        if context.get_step() == 74 {
            context.quit();
            vec![]
        } else {
            if context.get_step() == 0 {
                self.track.transpose(Some(Note::C));
            }

            if context.get_step() == 48 {
                self.track.transpose(Some(Note::G));
            }

            if context.get_step() == 1 {
                assert!(self
                    .conn
                    .borrow()
                    .notes_on
                    .contains_key(&(1, MidiNote::midi_value(&MidiNote::new(Note::C, 5, 89)))));
            }

            if context.get_step() == 25 {
                assert!(self
                    .conn
                    .borrow()
                    .notes_on
                    .contains_key(&(1, MidiNote::midi_value(&MidiNote::new(Note::DS, 5, 89)))));
            }

            if context.get_step() == 49 {
                assert!(self
                    .conn
                    .borrow()
                    .notes_on
                    .contains_key(&(1, MidiNote::midi_value(&MidiNote::new(Note::G, 4, 89)))));
            }

            if context.get_step() == 73 {
                assert!(self
                    .conn
                    .borrow()
                    .notes_on
                    .contains_key(&(1, MidiNote::midi_value(&MidiNote::new(Note::AS, 4, 89)))));
            }

            self.track.play_step(context.get_step())
        }
    }
}

fn transpose_conductor(conn: Rc<RefCell<DebugMidiOutInner>>) -> DebugConductor3 {
    DebugConductor3 {
        conn,
        track: DeteTrack::new(
            48,
            vec![
                (MidiNote::new(Note::A, 4, 89), 0, 12),
                (MidiNote::new(Note::C, 5, 89), 24, 12),
            ],
            Note::A,
            1,
            "test_transpose",
        ),
    }
}

#[test]
fn unit_tests_dete_track_transpose() {
    let debug_conn = debug_conn();
    let midi = MidiController::new(DebugMidiOut(debug_conn.clone()));
    let conductor = transpose_conductor(debug_conn);
    test_conductor(conductor, midi);
}

#[test]
fn integration_test_dete_track_transpose() {
    let debug_conn = debug_conn();
    let midi = MidiController::new(DebugMidiOut(debug_conn.clone()));
    let conductor = transpose_conductor(debug_conn.clone());
    test_conductor(conductor, midi);
    assert!(debug_conn.borrow().notes_on.is_empty());
}

#[test]
fn play_note() {
    let debug_conn = debug_conn();

    let mut controller = MidiController::new(DebugMidiOut(debug_conn.clone()));
    controller.start();

    let note = MidiNote::new(Note::B, 3, 21);
    controller.play_note(note, 3, 5);
    controller.send_clock();
    assert!(debug_conn.borrow().notes_on.is_empty());
    controller.update(1);
    assert!(debug_conn.borrow().notes_on.len() == 1);

    controller.send_clock();
    controller.update(2);
    assert!(debug_conn.borrow().notes_on.len() == 1);

    controller.send_clock();
    controller.update(3);
    assert!(debug_conn.borrow().notes_on.len() == 1);

    controller.send_clock();
    controller.update(4);
    assert!(debug_conn.borrow().notes_on.is_empty());

    controller.stop();
}

struct DebugInputConductor {
    midi_out: Rc<RefCell<DebugMidiOutInner>>,
}

impl Conductor for DebugInputConductor {
    fn init(&mut self, _context: &mut Context) -> Vec<Instruction> {
        vec![]
    }

    fn update(&mut self, context: &mut Context) -> Vec<Instruction> {
        if context.get_step() == 30 {
            context.quit();
            return vec![];
        }

        // Check forwarding worked
        if (21..=24).contains(&context.get_step()) {
            assert!(self.midi_out.borrow().notes_on.contains_key(&(
                1,
                MidiNote { note: Note::CS, octave: 4, vel: 160 }.midi_value()
            )));
        } else {
            assert!(self.midi_out.borrow().notes_on.is_empty());
        }

        vec![]
    }

    fn handle_input(&mut self, input: MidiMessage, _context: &Context) -> Vec<Instruction> {
        match input {
            MidiMessage::NoteOff { channel, note } => {
                vec![Instruction::MidiMessage {
                    midi_message: MidiMessage::NoteOff { channel, note: note.transpose(3) },
                }]
            }
            MidiMessage::NoteOn { channel, note } => {
                vec![Instruction::MidiMessage {
                    midi_message: MidiMessage::NoteOn { channel, note: note.transpose(3) },
                }]
            }
            _ => vec![],
        }
    }
}

fn input_test_simulation(ctx: &Context, input_queue: &mut InputQueue) {
    if ctx.get_step() == 20 {
        input_queue.push_back(MidiMessage::NoteOn {
            channel: 1,
            note: MidiNote { note: Note::AS, octave: 3, vel: 160 },
        });
    } else if ctx.get_step() == 24 {
        input_queue.push_back(MidiMessage::NoteOff {
            channel: 1,
            note: MidiNote { note: Note::AS, octave: 3, vel: 160 },
        });
    }
}

fn test_conductor_with_input<T: MidiOut>(
    mut conductor: impl Conductor,
    mut midi_controller: MidiController<T>,
    input_simulation: impl Fn(&Context, &mut InputQueue),
) {
    let mut ctx = Context::new();
    let mut input_queue = InputQueue::new();
    conductor.init(&mut ctx);
    while ctx.is_running() {
        // Simulate incoming input
        input_simulation(&ctx, &mut input_queue);

        ctx.process_pre_tick(&mut conductor, &mut midi_controller);
        ctx.process_post_tick(&mut midi_controller);

        // Simulate input handling
        ctx.handle_inputs(&mut conductor, &mut midi_controller, &mut input_queue);
    }
    midi_controller.stop_all_notes(None);
    midi_controller.stop();
}

#[test]
fn test_input() {
    let debug_conn = debug_conn();
    let midi = MidiController::new(DebugMidiOut(debug_conn.clone()));
    let conductor = DebugInputConductor { midi_out: debug_conn };
    test_conductor_with_input(conductor, midi, input_test_simulation);
}

fn notes_in(log: &[Sent]) -> Vec<Sent> {
    log.iter().filter(|s| matches!(s, Sent::On(..) | Sent::Off(..))).cloned().collect()
}

#[test]
fn played_note_sounds_from_the_first_flush_to_the_flush_of_its_last_step() {
    let conn = debug_conn();
    let mut controller = MidiController::new(DebugMidiOut(conn.clone()));
    controller.start();
    controller.play_note(MidiNote::new(Note::C, 4, 100), 5, 1);
    assert_eq!(notes_in(&conn.borrow().log), vec![]);
    controller.update(1);
    assert_eq!(notes_in(&conn.borrow().log), vec![Sent::On(1, 48, 100)]);
    for next in 2..=5 {
        controller.update(next);
        assert_eq!(notes_in(&conn.borrow().log), vec![Sent::On(1, 48, 100)]);
    }
    controller.update(6);
    assert_eq!(notes_in(&conn.borrow().log), vec![Sent::On(1, 48, 100), Sent::Off(1, 48)]);
    for next in 7..=10 {
        controller.update(next);
    }
    let before = conn.borrow().log.len();
    controller.finish();
    assert_eq!(conn.borrow().log[before..].to_vec(), vec![Sent::Stop]);
    controller.stop_all_notes(None);
    assert_eq!(conn.borrow().log.len(), before + 1);
    assert!(conn.borrow().notes_on.is_empty());
}

#[test]
fn started_note_is_released_once_at_shutdown() {
    let conn = debug_conn();
    let mut controller = MidiController::new(DebugMidiOut(conn.clone()));
    controller.start();
    controller.start_note(MidiNote::new(Note::E, 2, 90), 3);
    for next in 1..=5 {
        controller.update(next);
    }
    assert_eq!(notes_in(&conn.borrow().log), vec![Sent::On(3, 28, 90)]);
    let before = conn.borrow().log.len();
    controller.finish();
    assert_eq!(conn.borrow().log[before..].to_vec(), vec![Sent::Off(3, 28), Sent::Stop]);
    controller.stop_all_notes(None);
    assert_eq!(conn.borrow().log.len(), before + 2);
}

#[test]
fn every_note_on_has_its_note_off_after_shutdown() {
    let conn = debug_conn();
    let mut controller = MidiController::new(DebugMidiOut(conn.clone()));
    let a = MidiNote::new(Note::A, 4, 10);
    let d = MidiNote::new(Note::D, 3, 20);
    controller.play_note(a, 2, 1);
    controller.play_note(a, 7, 2);
    controller.start_note(d, 1);
    controller.update(1);
    controller.play_note(d, 1, 5);
    controller.update(2);
    controller.stop_note(d, 1);
    controller.start_note(a, 9);
    controller.update(3);
    controller.update(4);
    controller.finish();
    let log = conn.borrow().log.clone();
    for key in [(1u8, 57u8), (2, 57), (1, 38), (5, 38), (9, 57)] {
        let ons = log.iter().filter(|s| matches!(s, Sent::On(c, n, _) if (*c, *n) == key)).count();
        let offs = log.iter().filter(|s| matches!(s, Sent::Off(c, n) if (*c, *n) == key)).count();
        assert_eq!(ons, 1);
        assert_eq!(offs, 1);
    }
    assert!(conn.borrow().notes_on.is_empty());
}

#[test]
fn invalid_channel_sends_nothing_and_holds_nothing() {
    let conn = debug_conn();
    let mut controller = MidiController::new(DebugMidiOut(conn.clone()));
    let note = MidiNote::new(Note::C, 4, 100);
    for channel in [0u8, 17, 18, 255] {
        controller.execute(Instruction::PlayNote { midi_note: note, len: 3, channel_id: channel });
        controller.execute(Instruction::StartNote { midi_note: note, channel_id: channel });
        controller.execute(Instruction::StopNote { midi_note: note, channel_id: channel });
        controller.execute(Instruction::SendCC { channel_id: channel, parameter: 1, value: 2 });
        controller.execute(Instruction::MidiMessage {
            midi_message: MidiMessage::NoteOn { channel, note },
        });
        controller.execute(Instruction::MidiMessage {
            midi_message: MidiMessage::PC { channel, value: 1 },
        });
    }
    for next in 1..=4 {
        controller.update(next);
    }
    controller.stop_all_notes(None);
    assert_eq!(conn.borrow().log, vec![]);
}

#[test]
fn valid_channels_at_the_edges_are_accepted() {
    let conn = debug_conn();
    let mut controller = MidiController::new(DebugMidiOut(conn.clone()));
    controller.send_cc(1, 7, 99);
    controller.send_cc(16, 8, 100);
    assert_eq!(conn.borrow().log, vec![Sent::Cc(1, 7, 99), Sent::Cc(16, 8, 100)]);
}

#[test]
fn zero_length_note_is_dropped() {
    let conn = debug_conn();
    let mut controller = MidiController::new(DebugMidiOut(conn.clone()));
    controller.play_note(MidiNote::new(Note::C, 4, 100), 0, 1);
    controller.update(1);
    controller.stop_all_notes(None);
    assert_eq!(conn.borrow().log, vec![]);
}

#[test]
fn note_without_a_byte_value_is_dropped() {
    let conn = debug_conn();
    let mut controller = MidiController::new(DebugMidiOut(conn.clone()));
    controller.play_note(MidiNote::new(Note::E, 21, 100), 2, 1);
    controller.start_note(MidiNote::new(Note::C, 200, 100), 1);
    controller.update(1);
    controller.stop_all_notes(None);
    assert_eq!(conn.borrow().log, vec![]);
    controller.play_note(MidiNote::new(Note::DS, 21, 100), 2, 1);
    controller.update(2);
    assert_eq!(conn.borrow().log, vec![Sent::On(1, 255, 100)]);
}

#[test]
fn note_whose_release_cannot_be_counted_is_dropped() {
    let conn = debug_conn();
    let mut controller = MidiController::new(DebugMidiOut(conn.clone()));
    controller.update(u32::MAX - 1);
    controller.play_note(MidiNote::new(Note::C, 4, 100), 2, 1);
    controller.play_note(MidiNote::new(Note::D, 4, 100), 1, 1);
    controller.update(u32::MAX);
    assert_eq!(conn.borrow().log, vec![Sent::On(1, 50, 100)]);
    controller.update(0);
    assert_eq!(conn.borrow().log, vec![Sent::On(1, 50, 100), Sent::Off(1, 50)]);
}

#[test]
fn flush_releases_before_it_turns_on() {
    let conn = debug_conn();
    let mut controller = MidiController::new(DebugMidiOut(conn.clone()));
    let note = MidiNote::new(Note::F, 5, 64);
    controller.play_note(note, 1, 4);
    controller.update(1);
    controller.play_note(note, 1, 4);
    controller.update(2);
    controller.update(3);
    assert_eq!(
        conn.borrow().log,
        vec![Sent::On(4, 65, 64), Sent::Off(4, 65), Sent::On(4, 65, 64), Sent::Off(4, 65)]
    );
}

#[test]
fn notes_due_at_one_step_are_released_in_the_order_scheduled() {
    let conn = debug_conn();
    let mut controller = MidiController::new(DebugMidiOut(conn.clone()));
    controller.play_note(MidiNote::new(Note::C, 1, 1), 2, 1);
    controller.play_note(MidiNote::new(Note::D, 1, 2), 2, 2);
    controller.play_note(MidiNote::new(Note::E, 1, 3), 2, 3);
    controller.update(1);
    controller.update(2);
    controller.update(3);
    assert_eq!(
        conn.borrow().log,
        vec![
            Sent::On(1, 12, 1),
            Sent::On(2, 14, 2),
            Sent::On(3, 16, 3),
            Sent::Off(1, 12),
            Sent::Off(2, 14),
            Sent::Off(3, 16)
        ]
    );
}

#[test]
fn stop_note_releases_at_the_current_step() {
    let conn = debug_conn();
    let mut controller = MidiController::new(DebugMidiOut(conn.clone()));
    let note = MidiNote::new(Note::G, 3, 70);
    controller.start_note(note, 2);
    controller.update(1);
    controller.update(2);
    controller.stop_note(note, 2);
    assert_eq!(notes_in(&conn.borrow().log), vec![Sent::On(2, 43, 70)]);
    controller.update(3);
    assert_eq!(notes_in(&conn.borrow().log), vec![Sent::On(2, 43, 70), Sent::Off(2, 43)]);
    controller.finish();
    assert_eq!(
        conn.borrow().log,
        vec![Sent::On(2, 43, 70), Sent::Off(2, 43), Sent::Stop]
    );
}

#[test]
fn velocity_is_no_part_of_what_identifies_a_sustained_note() {
    let conn = debug_conn();
    let mut controller = MidiController::new(DebugMidiOut(conn.clone()));
    controller.start_note(MidiNote::new(Note::G, 3, 70), 2);
    controller.update(1);
    controller.stop_note(MidiNote::new(Note::G, 3, 5), 2);
    controller.update(2);
    controller.stop_all_notes(None);
    assert_eq!(conn.borrow().log, vec![Sent::On(2, 43, 70), Sent::Off(2, 43)]);
}

#[test]
fn stop_all_notes_on_one_channel_leaves_the_others() {
    let conn = debug_conn();
    let mut controller = MidiController::new(DebugMidiOut(conn.clone()));
    controller.start_note(MidiNote::new(Note::C, 2, 1), 1);
    controller.start_note(MidiNote::new(Note::C, 2, 1), 2);
    controller.play_note(MidiNote::new(Note::D, 2, 1), 8, 1);
    controller.play_note(MidiNote::new(Note::E, 2, 1), 8, 2);
    controller.play_note(MidiNote::new(Note::F, 2, 1), 9, 1);
    controller.update(1);
    let before = conn.borrow().log.len();
    controller.stop_all_notes(Some(1));
    let mut stopped = conn.borrow().log[before..].to_vec();
    stopped.sort_by_key(|s| format!("{:?}", s));
    assert_eq!(stopped, vec![Sent::Off(1, 24), Sent::Off(1, 26), Sent::Off(1, 29)]);
    let before = conn.borrow().log.len();
    controller.stop_all_notes(Some(1));
    assert_eq!(conn.borrow().log.len(), before);
    controller.stop_all_notes(None);
    let mut stopped = conn.borrow().log[before..].to_vec();
    stopped.sort_by_key(|s| format!("{:?}", s));
    assert_eq!(stopped, vec![Sent::Off(2, 24), Sent::Off(2, 28)]);
    assert!(conn.borrow().notes_on.is_empty());
}

#[test]
fn stop_all_notes_keeps_the_notes_that_wait() {
    let conn = loose_conn();
    let mut controller = MidiController::new(DebugMidiOut(conn.clone()));
    controller.start_note(MidiNote::new(Note::C, 2, 1), 1);
    controller.update(1);
    controller.start_note(MidiNote::new(Note::D, 2, 9), 1);
    controller.execute(Instruction::StopAllNotes);
    let mut stopped = conn.borrow().log[1..].to_vec();
    stopped.sort_by_key(|s| format!("{:?}", s));
    assert_eq!(conn.borrow().log[0], Sent::On(1, 24, 1));
    assert_eq!(stopped, vec![Sent::Off(1, 24), Sent::Off(1, 26)]);
    controller.update(2);
    assert_eq!(conn.borrow().log.len(), 4);
    assert_eq!(conn.borrow().log[3], Sent::On(1, 26, 9));
    controller.stop_all_notes(None);
    assert_eq!(conn.borrow().log.len(), 4);
}

#[test]
fn stopping_a_note_that_was_never_started_is_tolerated() {
    let conn = loose_conn();
    let mut controller = MidiController::new(DebugMidiOut(conn.clone()));
    controller.stop_note(MidiNote::new(Note::C, 2, 1), 1);
    assert_eq!(conn.borrow().log, vec![]);
    controller.update(1);
    assert_eq!(conn.borrow().log, vec![Sent::Off(1, 24)]);
}

#[test]
fn send_message_goes_to_the_primitive_of_its_kind() {
    let conn = debug_conn();
    let mut controller = MidiController::new(DebugMidiOut(conn.clone()));
    let note = MidiNote::new(Note::A, 5, 33);
    controller.send_message(MidiMessage::NoteOn { channel: 3, note });
    controller.send_message(MidiMessage::NoteOff { channel: 3, note });
    controller.send_message(MidiMessage::CC { channel: 4, controller: 5, value: 6 });
    controller.send_message(MidiMessage::PC { channel: 7, value: 8 });
    controller.send_message(MidiMessage::Clock);
    controller.send_message(MidiMessage::Start);
    controller.send_message(MidiMessage::Continue);
    controller.send_message(MidiMessage::Stop);
    assert_eq!(
        conn.borrow().log,
        vec![
            Sent::On(3, 69, 33),
            Sent::Off(3, 69),
            Sent::Cc(4, 5, 6),
            Sent::Pc(7, 8),
            Sent::Clock,
            Sent::Start,
            Sent::Continue,
            Sent::Stop
        ]
    );
}

#[test]
fn execute_carries_out_the_transport_instructions() {
    let conn = debug_conn();
    let mut controller = MidiController::new(DebugMidiOut(conn.clone()));
    controller.execute_all(&vec![
        Instruction::Start,
        Instruction::Continue,
        Instruction::Stop,
        Instruction::SendCC { channel_id: 2, parameter: 3, value: 4 },
    ]);
    assert_eq!(
        conn.borrow().log,
        vec![Sent::Start, Sent::Continue, Sent::Stop, Sent::Cc(2, 3, 4)]
    );
}

#[test]
fn start_sets_the_step_of_the_registry_back() {
    let conn = debug_conn();
    let mut controller = MidiController::new(DebugMidiOut(conn.clone()));
    controller.update(40);
    controller.start();
    controller.play_note(MidiNote::new(Note::C, 4, 1), 2, 1);
    controller.update(1);
    controller.update(2);
    controller.update(3);
    assert_eq!(conn.borrow().log, vec![Sent::Start, Sent::On(1, 48, 1), Sent::Off(1, 48)]);
}

#[test]
fn failing_output_does_not_stop_the_bookkeeping() {
    let mut controller = MidiController::new(FailingOut);
    controller.start();
    controller.play_note(MidiNote::new(Note::C, 4, 1), 2, 1);
    controller.start_note(MidiNote::new(Note::D, 4, 1), 1);
    controller.send_cc(1, 2, 3);
    controller.send_clock();
    controller.update(1);
    controller.update(2);
    controller.send_continue();
    controller.finish();
}

struct PausingConductor;

impl Conductor for PausingConductor {
    fn init(&mut self, context: &mut Context) -> Vec<Instruction> {
        context.start();
        vec![Instruction::SendCC { channel_id: 1, parameter: 2, value: 3 }]
    }

    fn update(&mut self, context: &mut Context) -> Vec<Instruction> {
        vec![Instruction::PlayNote {
            midi_note: MidiNote::new(Note::C, 4, 100),
            len: 10,
            channel_id: 1,
        }]
        .into_iter()
        .filter(|_| context.get_step() == 0 && !context.is_paused())
        .collect()
    }
}

#[test]
fn tick_sends_a_clock_and_flushes_unless_paused() {
    let conn = debug_conn();
    let mut controller = MidiController::new(DebugMidiOut(conn.clone()));
    let mut conductor = PausingConductor;
    let mut ctx = Context::new();
    ctx.init(&mut conductor, &mut controller);
    assert_eq!(conn.borrow().log, vec![Sent::Start, Sent::Cc(1, 2, 3)]);
    ctx.process_pre_tick(&mut conductor, &mut controller);
    ctx.process_post_tick(&mut controller);
    assert_eq!(ctx.get_step(), 1);
    assert_eq!(
        conn.borrow().log,
        vec![Sent::Start, Sent::Cc(1, 2, 3), Sent::Clock, Sent::On(1, 48, 100)]
    );

    // A pause stops the notes at once, and the next tick sends the stop.
    ctx.pause();
    assert!(ctx.is_paused());
    let before = conn.borrow().log.len();
    ctx.process_pre_tick(&mut conductor, &mut controller);
    assert_eq!(conn.borrow().log[before..].to_vec(), vec![Sent::Off(1, 48)]);
    ctx.process_post_tick(&mut controller);
    assert_eq!(ctx.get_step(), 1);
    assert_eq!(
        conn.borrow().log[before..].to_vec(),
        vec![Sent::Off(1, 48), Sent::Clock, Sent::Stop]
    );

    // While paused, ticks send the clock only, and the step stands still.
    let before = conn.borrow().log.len();
    ctx.process_pre_tick(&mut conductor, &mut controller);
    ctx.process_post_tick(&mut controller);
    assert_eq!(ctx.get_step(), 1);
    assert_eq!(conn.borrow().log[before..].to_vec(), vec![Sent::Clock]);

    // A resume sends the continue, and the step goes on from where it stood.
    let before = conn.borrow().log.len();
    ctx.resume();
    assert!(!ctx.is_paused());
    ctx.process_pre_tick(&mut conductor, &mut controller);
    ctx.process_post_tick(&mut controller);
    assert_eq!(ctx.get_step(), 2);
    assert_eq!(conn.borrow().log[before..].to_vec(), vec![Sent::Continue, Sent::Clock]);

    // A start sets the step back to 0.
    let before = conn.borrow().log.len();
    ctx.start();
    assert_eq!(ctx.get_step(), 0);
    ctx.process_post_tick(&mut controller);
    assert_eq!(ctx.get_step(), 1);
    assert_eq!(conn.borrow().log[before..].to_vec(), vec![Sent::Start, Sent::Clock]);

    ctx.quit();
    assert!(!ctx.is_running());
}

#[test]
fn handle_inputs_empties_the_queue_in_order() {
    let conn = debug_conn();
    let mut controller = MidiController::new(DebugMidiOut(conn.clone()));
    let mut conductor = DebugInputConductor { midi_out: conn.clone() };
    let mut ctx = Context::new();
    let mut queue = InputQueue::new();
    for value in [10u8, 20, 30] {
        queue.push_back(MidiMessage::NoteOn {
            channel: 2,
            note: MidiNote::from_midi_value(value, 1),
        });
    }
    queue.push_back(MidiMessage::CC { channel: 2, controller: 1, value: 1 });
    ctx.handle_inputs(&mut conductor, &mut controller, &mut queue);
    assert!(queue.is_empty());
    assert_eq!(
        conn.borrow().log,
        vec![Sent::On(2, 13, 1), Sent::On(2, 23, 1), Sent::On(2, 33, 1)]
    );
}

#[test]
fn play_track_carries_out_the_step_of_the_track() {
    let conn = debug_conn();
    let mut controller = MidiController::new(DebugMidiOut(conn.clone()));
    let mut track = DeteTrack::new(
        4,
        vec![(MidiNote::new(Note::C, 4, 9), 0, 1), (MidiNote::new(Note::D, 4, 9), 2, 1)],
        Note::C,
        6,
        "two",
    );
    for next in 1..=5 {
        controller.play_track(&mut track);
        controller.update(next);
    }
    assert_eq!(
        conn.borrow().log,
        vec![
            Sent::On(6, 48, 9),
            Sent::Off(6, 48),
            Sent::On(6, 50, 9),
            Sent::Off(6, 50),
            Sent::On(6, 48, 9)
        ]
    );
}

#[test]
fn send_message_of_a_backend_gives_the_result_of_its_primitive() {
    let note = MidiNote::new(Note::A, 5, 33);
    let mut out = FailingOut;
    assert_eq!(out.send_message(MidiMessage::NoteOn { channel: 3, note }), Err("on".to_string()));
    assert_eq!(out.send_message(MidiMessage::NoteOff { channel: 3, note }), Err("off".to_string()));
    assert_eq!(
        out.send_message(MidiMessage::CC { channel: 4, controller: 5, value: 6 }),
        Err("cc".to_string())
    );
    assert_eq!(out.send_message(MidiMessage::PC { channel: 7, value: 8 }), Err("pc".to_string()));
    assert_eq!(out.send_message(MidiMessage::Clock), Err("clock".to_string()));
    assert_eq!(out.send_message(MidiMessage::Start), Err("start".to_string()));
    assert_eq!(out.send_message(MidiMessage::Continue), Err("continue".to_string()));
    assert_eq!(out.send_message(MidiMessage::Stop), Err("stop".to_string()));
}

#[test]
fn send_message_of_a_backend_calls_one_primitive() {
    let conn = debug_conn();
    let mut out = DebugMidiOut(conn.clone());
    let note = MidiNote::new(Note::A, 5, 33);
    assert_eq!(out.send_message(MidiMessage::NoteOn { channel: 3, note }), Ok(()));
    assert_eq!(out.send_message(MidiMessage::NoteOff { channel: 3, note }), Ok(()));
    assert_eq!(out.send_message(MidiMessage::CC { channel: 4, controller: 5, value: 6 }), Ok(()));
    assert_eq!(out.send_message(MidiMessage::PC { channel: 7, value: 8 }), Ok(()));
    assert_eq!(out.send_message(MidiMessage::Clock), Ok(()));
    assert_eq!(out.send_message(MidiMessage::Start), Ok(()));
    assert_eq!(out.send_message(MidiMessage::Continue), Ok(()));
    assert_eq!(out.send_message(MidiMessage::Stop), Ok(()));
    // The backend itself does not look at the channel.
    assert_eq!(out.send_message(MidiMessage::PC { channel: 0, value: 1 }), Ok(()));
    assert_eq!(
        conn.borrow().log,
        vec![
            Sent::On(3, 69, 33),
            Sent::Off(3, 69),
            Sent::Cc(4, 5, 6),
            Sent::Pc(7, 8),
            Sent::Clock,
            Sent::Start,
            Sent::Continue,
            Sent::Stop,
            Sent::Pc(0, 1)
        ]
    );
}

#[test]
fn handle_inputs_carries_out_what_was_asked_for_before() {
    let conn = debug_conn();
    let mut controller = MidiController::new(DebugMidiOut(conn.clone()));
    let mut conductor = DebugInputConductor { midi_out: conn.clone() };
    let mut ctx = Context::new();
    let mut queue = InputQueue::new();
    ctx.start();
    ctx.handle_inputs(&mut conductor, &mut controller, &mut queue);
    assert_eq!(conn.borrow().log, vec![Sent::Start]);
    ctx.handle_inputs(&mut conductor, &mut controller, &mut queue);
    assert_eq!(conn.borrow().log, vec![Sent::Start]);
    ctx.resume();
    queue.push_back(MidiMessage::NoteOn { channel: 2, note: MidiNote::from_midi_value(10, 1) });
    ctx.handle_inputs(&mut conductor, &mut controller, &mut queue);
    assert_eq!(conn.borrow().log, vec![Sent::Start, Sent::Continue, Sent::On(2, 13, 1)]);
    assert!(queue.is_empty());
}
