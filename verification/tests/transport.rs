use mseq::bpm::Bpm;
use mseq::context::DEFAULT_BPM;
use mseq::sync::{
    check_port, choose_port, drain_system_queue, estimate_bpm, route, route_bytes, run_mode,
    BeatCounter, Drained, PortChoice, PortError, Route, RunMode, SysMessage, PULSES_PER_BEAT,
};
use mseq::{Context, InputQueue, MidiMessage, MidiNote, Note};

#[test]
fn period_is_a_minute_over_24_steps_per_beat() {
    assert_eq!(Bpm::compute_period_us(120), 20833);
    assert_eq!(Bpm::compute_period_us(60), 41666);
    assert_eq!(Bpm::compute_period_us(1), 2_500_000);
    assert_eq!(Bpm::compute_period_us(255), 9803);
    assert_eq!(Bpm::compute_period_us(7), 357142);
}

#[test]
fn bpm_keeps_its_period_with_its_tempo() {
    let mut bpm = Bpm::new(120);
    assert_eq!(bpm.get_bpm(), 120);
    assert_eq!(bpm.get_period_us(), 20833);
    bpm.set_bpm(60);
    assert_eq!(bpm.get_bpm(), 60);
    assert_eq!(bpm.get_period_us(), 41666);
}

#[test]
fn new_context_runs_at_step_zero() {
    for ctx in [Context::new(), Context::default()] {
        assert_eq!(ctx.get_step(), 0);
        assert!(ctx.is_running());
        assert!(!ctx.is_paused());
        assert_eq!(ctx.get_bpm(), DEFAULT_BPM);
        assert_eq!(ctx.get_bpm(), 120);
        assert_eq!(ctx.get_period_us(), 20833);
    }
}

#[test]
fn context_set_bpm_changes_the_period() {
    let mut ctx = Context::new();
    ctx.set_bpm(60);
    assert_eq!(ctx.get_bpm(), 60);
    assert_eq!(ctx.get_period_us(), 41666);
    assert_eq!(ctx.get_step(), 0);
}

#[test]
fn estimated_tempo_is_sixty_thousand_over_the_beat() {
    assert_eq!(estimate_bpm(12000), Some(5));
    assert_eq!(estimate_bpm(500), Some(120));
    assert_eq!(estimate_bpm(1000), Some(60));
    assert_eq!(estimate_bpm(501), Some(119));
    assert_eq!(estimate_bpm(60000), Some(1));
}

#[test]
fn estimated_tempo_has_none_for_no_time_and_is_cut_to_a_byte() {
    assert_eq!(estimate_bpm(0), None);
    assert_eq!(estimate_bpm(60001), Some(0));
    assert_eq!(estimate_bpm(u128::MAX), Some(0));
    assert_eq!(estimate_bpm(1), Some(96));
    assert_eq!(estimate_bpm(234), Some(0));
    assert_eq!(estimate_bpm(235), Some(255));
}

#[test]
fn sync_bpm_sets_the_tempo_of_a_beat() {
    let mut ctx = Context::new();
    ctx.sync_bpm(12000);
    assert_eq!(ctx.get_bpm(), 5);
    ctx.sync_bpm(0);
    assert_eq!(ctx.get_bpm(), 5);
    ctx.sync_bpm(500);
    assert_eq!(ctx.get_bpm(), 120);
}

#[test]
fn try_sync_bpm_passes_over_what_gives_no_tempo() {
    let mut ctx = Context::new();
    assert!(ctx.try_sync_bpm(1000));
    assert_eq!(ctx.get_bpm(), 60);
    assert!(!ctx.try_sync_bpm(0));
    assert_eq!(ctx.get_bpm(), 60);
    assert!(!ctx.try_sync_bpm(70000));
    assert_eq!(ctx.get_bpm(), 60);
    assert_eq!(ctx.get_period_us(), 41666);
}

#[test]
fn every_24th_pulse_is_a_beat() {
    assert_eq!(PULSES_PER_BEAT, 24);
    let mut counter = BeatCounter::new();
    for round in 0..3 {
        for pulse in 1..=24 {
            assert_eq!(counter.pulse(), pulse == 24, "round {} pulse {}", round, pulse);
        }
    }
}

#[test]
fn slave_clock_of_24_pulses_half_a_second_apart() {
    let mut ctx = Context::new();
    let mut counter = BeatCounter::new();
    let mut elapsed_ms: u128 = 0;
    let mut beats = 0;
    for _ in 0..24 {
        elapsed_ms += 500;
        if counter.pulse() {
            beats += 1;
            ctx.sync_bpm(elapsed_ms);
            elapsed_ms = 0;
        }
    }
    assert_eq!(beats, 1);
    assert_eq!(ctx.get_bpm(), 5);
}

#[test]
fn transport_messages_steer_the_context() {
    let mut ctx = Context::new();
    ctx.on_transport(SysMessage::Stop);
    assert!(ctx.is_paused());
    ctx.on_transport(SysMessage::Continue);
    assert!(!ctx.is_paused());
    ctx.on_transport(SysMessage::Stop);
    ctx.on_transport(SysMessage::Start);
    assert!(!ctx.is_paused());
    assert_eq!(ctx.get_step(), 0);
    assert!(ctx.is_running());
}

#[test]
fn system_queue_is_read_to_its_end() {
    let mut queue = InputQueue::new();
    assert_eq!(drain_system_queue(&mut queue, None), Drained { clock: false, transport: None });
    assert_eq!(
        drain_system_queue(&mut queue, Some(SysMessage::Stop)),
        Drained { clock: false, transport: Some(SysMessage::Stop) }
    );
    queue.push_back(MidiMessage::Start);
    queue.push_back(MidiMessage::Clock);
    queue.push_back(MidiMessage::Stop);
    queue.push_back(MidiMessage::Continue);
    assert_eq!(
        drain_system_queue(&mut queue, None),
        Drained { clock: true, transport: Some(SysMessage::Continue) }
    );
    assert!(queue.is_empty());
    queue.push_back(MidiMessage::Clock);
    assert_eq!(
        drain_system_queue(&mut queue, Some(SysMessage::Start)),
        Drained { clock: true, transport: Some(SysMessage::Start) }
    );
    queue.push_back(MidiMessage::Stop);
    assert_eq!(
        drain_system_queue(&mut queue, Some(SysMessage::Start)),
        Drained { clock: false, transport: Some(SysMessage::Stop) }
    );
    assert!(queue.is_empty());
}

#[test]
fn run_mode_follows_the_input() {
    assert_eq!(run_mode(false, false), RunMode::Standalone);
    assert_eq!(run_mode(false, true), RunMode::Standalone);
    assert_eq!(run_mode(true, false), RunMode::Master);
    assert_eq!(run_mode(true, true), RunMode::Slave);
}

#[test]
fn clock_and_transport_steer_a_slave_and_are_ignored_by_a_master() {
    for m in [MidiMessage::Clock, MidiMessage::Start, MidiMessage::Continue, MidiMessage::Stop] {
        assert_eq!(route(&m, true), Route::System);
        assert_eq!(route(&m, false), Route::Ignored);
    }
    let note = MidiNote::new(Note::C, 4, 1);
    for m in [
        MidiMessage::NoteOn { channel: 1, note },
        MidiMessage::NoteOff { channel: 1, note },
        MidiMessage::CC { channel: 1, controller: 2, value: 3 },
        MidiMessage::PC { channel: 1, value: 3 },
    ] {
        assert_eq!(route(&m, true), Route::Input);
        assert_eq!(route(&m, false), Route::Input);
    }
}

#[test]
fn incoming_bytes_are_parsed_and_routed() {
    assert_eq!(route_bytes(&[0xF8], true), Some((MidiMessage::Clock, Route::System)));
    assert_eq!(route_bytes(&[0xF8], false), Some((MidiMessage::Clock, Route::Ignored)));
    assert_eq!(
        route_bytes(&[0xC0, 5], true),
        Some((MidiMessage::PC { channel: 1, value: 5 }, Route::Input))
    );
    assert_eq!(route_bytes(&[0xF0, 1, 2, 3], true), None);
    assert_eq!(route_bytes(&[], false), None);
}

#[test]
fn port_asked_for_must_exist() {
    assert_eq!(choose_port(Some(0), 1, true), Ok(PortChoice::Port(0)));
    assert_eq!(choose_port(Some(2), 3, false), Ok(PortChoice::Port(2)));
    assert_eq!(choose_port(Some(3), 3, true), Err(PortError::PortNumber));
    assert_eq!(choose_port(Some(0), 0, false), Err(PortError::PortNumber));
    assert_eq!(choose_port(Some(u32::MAX), 5, true), Err(PortError::PortNumber));
}

#[test]
fn port_not_asked_for_is_the_only_one_or_the_users_pick() {
    assert_eq!(choose_port(None, 0, true), Err(PortError::NoOutput));
    assert_eq!(choose_port(None, 0, false), Err(PortError::NoInput));
    assert_eq!(choose_port(None, 1, true), Ok(PortChoice::Only));
    assert_eq!(choose_port(None, 2, true), Ok(PortChoice::Ask));
    assert_eq!(choose_port(None, 9, false), Ok(PortChoice::Ask));
    assert_eq!(check_port(0, 2), Ok(0));
    assert_eq!(check_port(1, 2), Ok(1));
    assert_eq!(check_port(2, 2), Err(PortError::PortNumber));
}

#[test]
fn port_errors_have_their_messages() {
    assert_eq!(PortError::PortNumber.to_string(), "Invalid port number selected");
    assert_eq!(PortError::NoOutput.to_string(), "No midi output found");
    assert_eq!(PortError::NoInput.to_string(), "No midi input found");
}
