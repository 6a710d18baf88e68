//! The sequencing logic that the engine drives.

use vstd::prelude::*;
use crate::context::Context;
use crate::instruction::Instruction;
use crate::midi::MidiMessage;

verus! {

/// Entry point for user-defined sequencer behavior.
///
/// The `Conductor` trait must be implemented by the user to define how their sequencer
/// is initialized, updated, and how it responds to external inputs. The
/// engine asks nothing of an implementation: whatever instructions come
/// back are carried out, and those that cannot be are dropped.
pub trait Conductor {
    /// Called once at startup to initialize state.
    /// Returns the set of instructions that should be executed at initialization.
    fn init(&mut self, context: &mut Context) -> Vec<Instruction>;

    /// Called at every clock tick to advance the sequencer state, and to
    /// produce the instructions to carry out at the current tick.
    fn update(&mut self, context: &mut Context) -> Vec<Instruction>;

    /// Handles a single input message, and produces the instructions to
    /// carry out in response to it. Clock and transport messages may be
    /// intercepted before they reach this function.
    ///
    /// A conductor that does not define it takes no notice of input and
    /// asks for nothing.
    fn handle_input(&mut self, input: MidiMessage, context: &Context) -> (r: Vec<Instruction>)
        default_ensures
            r@ == Seq::<Instruction>::empty(),
    {
        Vec::new()
    }
}

} // verus!
