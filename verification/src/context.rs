//! The tick engine: the step counter, the tempo and the transport state,
//! and the two halves of a tick.

use vstd::prelude::*;
use std::collections::VecDeque;
use crate::bpm::{period_us_of, Bpm};
use crate::conductor::Conductor;
use crate::instruction::Instruction;
use crate::midi::MidiMessage;
use crate::midi_controller::{MidiController, Registry};
use crate::midi_out::{MidiOut, OutCall};
use crate::sync::{estimate_bpm, estimated_bpm, SysMessage};

verus! {

/// The queue of the messages that came in and wait to be handled, in the
/// order of their arrival.
pub type InputQueue = VecDeque<MidiMessage>;

/// The tempo of a new context, in beats per minute.
pub const DEFAULT_BPM: u8 = 120;

/// What a context holds.
pub struct Transport {
    /// The current step: 24 steps make a quarter note.
    pub step: u32,
    /// The tempo in beats per minute.
    pub bpm: u8,
    /// Whether the run goes on after the current tick.
    pub running: bool,
    /// Whether the step stands still.
    pub on_pause: bool,
    /// Whether a transport stop is still to be sent for the pause.
    pub pause_pending: bool,
    /// The instructions that the transport calls have asked for and that
    /// are not carried out yet.
    pub queued: Seq<Instruction>,
}

impl Transport {
    /// The state of a new context: running at step 0, at the default tempo.
    pub open spec fn initial() -> Transport {
        Transport {
            step: 0,
            bpm: DEFAULT_BPM,
            running: true,
            on_pause: false,
            pause_pending: false,
            queued: Seq::empty(),
        }
    }

    /// A start sets the step back to 0, ends a pause, and asks for a
    /// transport start to be sent.
    pub open spec fn start(self) -> Transport {
        Transport {
            step: 0,
            on_pause: false,
            queued: self.queued.push(Instruction::Start),
            ..self
        }
    }

    /// A pause holds the step, asks for every sounding note to be stopped,
    /// and arms the transport stop that the next tick sends.
    pub open spec fn pause(self) -> Transport {
        Transport {
            on_pause: true,
            pause_pending: true,
            queued: self.queued.push(Instruction::StopAllNotes),
            ..self
        }
    }

    /// A resume ends the pause and asks for a transport continue to be
    /// sent; the step goes on from where it stood.
    pub open spec fn resume(self) -> Transport {
        Transport { on_pause: false, queued: self.queued.push(Instruction::Continue), ..self }
    }

    /// A transport message of an external clock source: a start starts, a
    /// stop pauses, a continue resumes.
    pub open spec fn on_transport(self, message: SysMessage) -> Transport {
        match message {
            SysMessage::Start => self.start(),
            SysMessage::Stop => self.pause(),
            SysMessage::Continue => self.resume(),
        }
    }

    /// The state after the second half of a tick: what was asked for is
    /// done; unless paused, the step has advanced; a pending pause is
    /// settled.
    pub open spec fn post_tick(self) -> Transport {
        if !self.on_pause {
            Transport { step: (self.step + 1) as u32, queued: Seq::empty(), ..self }
        } else {
            Transport { pause_pending: false, queued: Seq::empty(), ..self }
        }
    }

    /// Whether the second half of a tick can be gone through: the step can
    /// still be counted up, or stands still.
    pub open spec fn can_tick(self) -> bool {
        self.on_pause || self.step < u32::MAX
    }
}

/// The state of the engine that sequencing logic can read and steer.
pub struct Context {
    step: u32,
    running: bool,
    on_pause: bool,
    pause: bool,
    bpm: Bpm,
    queued: Vec<Instruction>,
}

impl View for Context {
    type V = Transport;

    closed spec fn view(&self) -> Transport {
        Transport {
            step: self.step,
            bpm: self.bpm.beats(),
            running: self.running,
            on_pause: self.on_pause,
            pause_pending: self.pause,
            queued: self.queued@,
        }
    }
}

/// Whether `post` is the registry after the second half of a tick that
/// began in the state `t`: the instructions asked for are carried out, a
/// clock pulse is sent, and then either the step is flushed, or the stop of
/// a pending pause is sent.
pub open spec fn post_ticked(t: Transport, pre: Registry, post: Registry) -> bool {
    exists|mid: Registry| #[trigger]
        pre.executed_all(mid, t.queued) && post == if !t.on_pause {
            mid.called(OutCall::Clock).update((t.step + 1) as u32)
        } else if t.pause_pending {
            mid.called(OutCall::Clock).called(OutCall::Stop)
        } else {
            mid.called(OutCall::Clock)
        }
}

impl Context {
    /// A context at step 0, running, at the default tempo.
    pub fn new() -> (r: Self)
        ensures
            r@ == Transport::initial(),
    {
        Self {
            step: 0,
            running: true,
            on_pause: false,
            pause: false,
            bpm: Bpm::new(DEFAULT_BPM),
            queued: Vec::new(),
        }
    }

    /// Sets the tempo to `bpm` beats per minute, which must not be 0.
    pub fn set_bpm(&mut self, bpm: u8)
        requires
            bpm > 0,
        ensures
            final(self)@ == (Transport { bpm, ..old(self)@ }),
    {
        self.bpm.set_bpm(bpm);
    }

    /// The tempo in beats per minute.
    pub fn get_bpm(&self) -> (r: u8)
        ensures
            r == self@.bpm,
            r > 0,
    {
        self.bpm.get_bpm()
    }

    /// The length of a step in microseconds at the current tempo.
    pub fn get_period_us(&self) -> (r: u64)
        ensures
            r as int == period_us_of(self@.bpm),
            self@.bpm > 0,
    {
        self.bpm.get_period_us()
    }

    /// Ends the run: the loop that drives the engine stops after the
    /// current tick.
    pub fn quit(&mut self)
        ensures
            final(self)@ == (Transport { running: false, ..old(self)@ }),
    {
        self.running = false;
    }

    /// Pauses: the step stands still from the next tick on, every sounding
    /// note is stopped, and the next tick sends a transport stop.
    pub fn pause(&mut self)
        ensures
            final(self)@ == old(self)@.pause(),
    {
        self.on_pause = true;
        self.pause = true;
        self.queued.push(Instruction::StopAllNotes);
    }

    /// Resumes from a pause and sends a transport continue.
    pub fn resume(&mut self)
        ensures
            final(self)@ == old(self)@.resume(),
    {
        self.on_pause = false;
        self.queued.push(Instruction::Continue);
    }

    /// Starts from step 0 and sends a transport start.
    pub fn start(&mut self)
        ensures
            final(self)@ == old(self)@.start(),
    {
        self.step = 0;
        self.on_pause = false;
        self.queued.push(Instruction::Start);
    }

    /// The current step.
    pub fn get_step(&self) -> (r: u32)
        ensures
            r == self@.step,
    {
        self.step
    }

    /// Whether the run goes on.
    pub fn is_running(&self) -> (r: bool)
        ensures
            r == self@.running,
    {
        self.running
    }

    /// Whether the step stands still.
    pub fn is_paused(&self) -> (r: bool)
        ensures
            r == self@.on_pause,
    {
        self.on_pause
    }

    /// Carries out what the transport calls have asked for, and then
    /// `instructions`.
    pub fn apply<T: MidiOut>(
        &mut self,
        controller: &mut MidiController<T>,
        instructions: &Vec<Instruction>,
    )
        ensures
            final(self)@ == (Transport { queued: Seq::empty(), ..old(self)@ }),
            old(controller)@.executed_all(final(controller)@, old(self)@.queued + instructions@),
    {
        let ghost pre = controller@;
        let ghost queued = self.queued@;
        controller.execute_all(&self.queued);
        let ghost mid = controller@;
        self.queued.clear();
        controller.execute_all(instructions);
        proof {
            crate::midi_controller::lemma_executed_concat(
                pre,
                mid,
                controller@,
                queued,
                instructions@,
            );
            assert(self@.queued =~= Seq::empty());
        }
    }

    /// Calls `init` of the conductor and carries out what it asks for.
    pub fn init<C: Conductor, T: MidiOut>(
        &mut self,
        conductor: &mut C,
        controller: &mut MidiController<T>,
    )
        ensures
            final(self)@.queued.len() == 0,
            exists|asked: Seq<Instruction>|
                old(controller)@.executed_all(final(controller)@, asked),
    {
        let instructions = conductor.init(self);
        self.apply(controller, &instructions);
    }

    /// The first half of a tick: calls `update` of the conductor and
    /// carries out what it asks for, whatever that is.
    pub fn process_pre_tick<C: Conductor, T: MidiOut>(
        &mut self,
        conductor: &mut C,
        controller: &mut MidiController<T>,
    )
        ensures
            final(self)@.queued.len() == 0,
            exists|asked: Seq<Instruction>|
                old(controller)@.executed_all(final(controller)@, asked),
    {
        let instructions = conductor.update(self);
        self.apply(controller, &instructions);
    }

    /// The second half of a tick: carries out what the transport calls
    /// have asked for since the first half, sends a clock pulse, and then,
    /// unless paused, advances the step and flushes the registry: the notes
    /// due at the step that ends are released, and the notes triggered in
    /// it are turned on. Where a pause is pending, its transport stop is
    /// sent instead, once.
    pub fn process_post_tick<T: MidiOut>(&mut self, controller: &mut MidiController<T>)
        requires
            old(self)@.can_tick(),
        ensures
            final(self)@ == old(self)@.post_tick(),
            post_ticked(old(self)@, old(controller)@, final(controller)@),
    {
        let ghost pre = controller@;
        controller.execute_all(&self.queued);
        let ghost mid = controller@;
        self.queued.clear();
        controller.send_clock();
        if !self.on_pause {
            self.step = self.step + 1;
            controller.update(self.step);
        } else if self.pause {
            controller.stop();
            self.pause = false;
        }
        proof {
            assert(self@.queued =~= Seq::empty());
            assert(pre.executed_all(mid, old(self)@.queued));
        }
    }

    /// Carries out what the transport calls have asked for; then hands
    /// each message of `queue` to the conductor, in the order of arrival,
    /// and carries out what it asks for in response, until the queue is
    /// empty. With no message in the queue nothing else is carried out.
    pub fn handle_inputs<C: Conductor, T: MidiOut>(
        &mut self,
        conductor: &mut C,
        controller: &mut MidiController<T>,
        queue: &mut VecDeque<MidiMessage>,
    )
        ensures
            final(self)@ == (Transport { queued: Seq::empty(), ..old(self)@ }),
            final(queue)@.len() == 0,
            exists|asked: Seq<Instruction>|
                old(controller)@.executed_all(final(controller)@, old(self)@.queued + asked) && (
                old(queue)@.len() == 0 ==> asked.len() == 0),
    {
        let ghost pre = controller@;
        let ghost queued = self.queued@;
        let ghost mut asked: Seq<Instruction> = Seq::empty();
        let empty: Vec<Instruction> = Vec::new();
        self.apply(controller, &empty);
        assert(queued + empty@ =~= queued + asked);
        loop
            invariant
                self@ == (Transport { queued: Seq::empty(), ..old(self)@ }),
                pre.executed_all(controller@, queued + asked),
                old(queue)@.len() == 0 ==> queue@.len() == 0 && asked.len() == 0,
            ensures
                queue@.len() == 0,
            decreases queue@.len(),
        {
            let message = match queue.pop_front() {
                Some(message) => message,
                None => {
                    break ;
                },
            };
            let ghost before = controller@;
            let instructions = conductor.handle_input(message, self);
            controller.execute_all(&instructions);
            proof {
                crate::midi_controller::lemma_executed_concat(
                    pre,
                    before,
                    controller@,
                    queued + asked,
                    instructions@,
                );
                assert((queued + asked) + instructions@ =~= queued + (asked + instructions@));
                asked = asked + instructions@;
            }
        }
    }

    /// Applies a transport message of an external clock source: a start
    /// starts from step 0, a stop pauses, a continue resumes.
    pub fn on_transport(&mut self, message: SysMessage)
        ensures
            final(self)@ == old(self)@.on_transport(message),
    {
        match message {
            SysMessage::Start => self.start(),
            SysMessage::Stop => self.pause(),
            SysMessage::Continue => self.resume(),
        }
    }

    /// Sets the tempo from the time that the last beat of an external
    /// clock took, in milliseconds. A beat that took no time is passed
    /// over. The tempo that follows must not be 0.
    pub fn sync_bpm(&mut self, elapsed_ms: u128)
        requires
            estimated_bpm(elapsed_ms) != Some(0u8),
        ensures
            final(self)@ == (match estimated_bpm(elapsed_ms) {
                Some(bpm) => Transport { bpm, ..old(self)@ },
                None => old(self)@,
            }),
    {
        if let Some(bpm) = estimate_bpm(elapsed_ms) {
            self.set_bpm(bpm);
        }
    }

    /// Sets the tempo from the time that the last beat of an external
    /// clock took, where a tempo follows from it that is not 0, and tells
    /// whether it did.
    pub fn try_sync_bpm(&mut self, elapsed_ms: u128) -> (done: bool)
        ensures
            done == (estimated_bpm(elapsed_ms).is_some() && estimated_bpm(elapsed_ms) != Some(
                0u8,
            )),
            final(self)@ == (if done {
                Transport { bpm: estimated_bpm(elapsed_ms).unwrap(), ..old(self)@ }
            } else {
                old(self)@
            }),
    {
        match estimate_bpm(elapsed_ms) {
            Some(bpm) => {
                if bpm != 0 {
                    self.set_bpm(bpm);
                    true
                } else {
                    false
                }
            },
            None => false,
        }
    }
}

impl Default for Context {
    /// A context at step 0, running, at the default tempo.
    fn default() -> (r: Self)
        ensures
            r@ == Transport::initial(),
    {
        Context::new()
    }
}

} // verus!
