//! Running against the outside world: the run modes, the routing of
//! incoming messages, the choice of a port, and the synchronisation to an
//! external clock.

use vstd::prelude::*;
use std::collections::VecDeque;
use crate::midi::MidiMessage;

verus! {

/// The clock pulses that make one beat.
pub const PULSES_PER_BEAT: u8 = 24;

/// How the engine runs.
#[derive(Clone, Copy, PartialEq, Eq, Structural, Debug)]
pub enum RunMode {
    /// On its own clock, reading no input.
    Standalone,
    /// On its own clock, handing input to the sequencing logic.
    Master,
    /// On the clock and the transport of an external source.
    Slave,
}

/// The run mode that follows from whether an input is configured and
/// whether it is a clock source.
pub fn run_mode(has_input: bool, slave: bool) -> (r: RunMode)
    ensures
        r == if !has_input {
            RunMode::Standalone
        } else if slave {
            RunMode::Slave
        } else {
            RunMode::Master
        },
{
    if !has_input {
        RunMode::Standalone
    } else if slave {
        RunMode::Slave
    } else {
        RunMode::Master
    }
}

/// Whether `message` is a clock pulse or a transport message.
pub open spec fn is_system(message: MidiMessage) -> bool {
    message is Clock || message is Start || message is Continue || message is Stop
}

/// Where an incoming message goes.
#[derive(Clone, Copy, PartialEq, Eq, Structural, Debug)]
pub enum Route {
    /// To the sequencing logic, through the input queue.
    Input,
    /// To the transport, through the system queue.
    System,
    /// Nowhere.
    Ignored,
}

/// Where a message goes in a run mode with input: clock and transport
/// messages steer a slave and are ignored by a master; every other message
/// goes to the sequencing logic.
pub open spec fn route_of(message: MidiMessage, slave: bool) -> Route {
    if !is_system(message) {
        Route::Input
    } else if slave {
        Route::System
    } else {
        Route::Ignored
    }
}

/// Where `message` goes.
pub fn route(message: &MidiMessage, slave: bool) -> (r: Route)
    ensures
        r == route_of(*message, slave),
{
    match message {
        MidiMessage::Clock | MidiMessage::Start | MidiMessage::Continue | MidiMessage::Stop => {
            if slave {
                Route::System
            } else {
                Route::Ignored
            }
        },
        _ => Route::Input,
    }
}

/// Parses incoming bytes and says where the message goes; bytes that spell
/// no message yield nothing.
pub fn route_bytes(bytes: &[u8], slave: bool) -> (r: Option<(MidiMessage, Route)>)
    ensures
        r == (match MidiMessage::spec_parse(bytes@) {
            Some(message) => Some((message, route_of(message, slave))),
            None => None,
        }),
{
    match MidiMessage::parse(bytes) {
        Some(message) => {
            let to = route(&message, slave);
            Some((message, to))
        },
        None => None,
    }
}

/// Why no port could be chosen.
#[derive(Clone, Copy, PartialEq, Eq, Structural, Debug)]
pub enum PortError {
    /// The port asked for does not exist.
    PortNumber,
    /// There is no output port.
    NoOutput,
    /// There is no input port.
    NoInput,
}

/// How the port is found.
#[derive(Clone, Copy, PartialEq, Eq, Structural, Debug)]
pub enum PortChoice {
    /// The port with this index, which was asked for.
    Port(usize),
    /// The only port there is, with index 0.
    Only,
    /// One of several: the user is to be asked.
    Ask,
}

/// The choice of a port among `available` ones: the one asked for if it
/// exists; else, where none was asked for, the only one, or the user's
/// pick among several. It fails where the port asked for does not exist,
/// and where there is no port at all.
pub open spec fn port_choice(requested: Option<u32>, available: usize, output: bool) -> Result<
    PortChoice,
    PortError,
> {
    match requested {
        Some(p) => if (p as int) < available {
            Ok(PortChoice::Port(p as usize))
        } else {
            Err(PortError::PortNumber)
        },
        None => if available == 0 {
            Err(
                if output {
                    PortError::NoOutput
                } else {
                    PortError::NoInput
                },
            )
        } else if available == 1 {
            Ok(PortChoice::Only)
        } else {
            Ok(PortChoice::Ask)
        },
    }
}

/// Chooses a port among `available` ones; `output` tells whether it is an
/// output port that is looked for.
pub fn choose_port(requested: Option<u32>, available: usize, output: bool) -> (r: Result<
    PortChoice,
    PortError,
>)
    ensures
        r == port_choice(requested, available, output),
{
    match requested {
        Some(p) => {
            if (p as u64) < (available as u64) {
                Ok(PortChoice::Port(p as usize))
            } else {
                Err(PortError::PortNumber)
            }
        },
        None => {
            if available == 0 {
                if output {
                    Err(PortError::NoOutput)
                } else {
                    Err(PortError::NoInput)
                }
            } else if available == 1 {
                Ok(PortChoice::Only)
            } else {
                Ok(PortChoice::Ask)
            }
        },
    }
}

/// Checks the port that the user picked among `available` ones.
pub fn check_port(picked: usize, available: usize) -> (r: Result<usize, PortError>)
    ensures
        r == if picked < available {
            Ok::<usize, PortError>(picked)
        } else {
            Err(PortError::PortNumber)
        },
{
    if picked < available {
        Ok(picked)
    } else {
        Err(PortError::PortNumber)
    }
}

impl PortError {
    /// The message of the error.
    pub open spec fn text(self) -> Seq<char> {
        match self {
            PortError::PortNumber => "Invalid port number selected"@,
            PortError::NoOutput => "No midi output found"@,
            PortError::NoInput => "No midi input found"@,
        }
    }

    /// The message of the error.
    pub fn to_string(&self) -> (r: String)
        ensures
            r@ == self.text(),
    {
        let s: &str = match self {
            PortError::PortNumber => "Invalid port number selected",
            PortError::NoOutput => "No midi output found",
            PortError::NoInput => "No midi input found",
        };
        String::from_str(s)
    }
}

/// A transport message of an external clock source.
#[derive(Clone, Copy, PartialEq, Eq, Structural, Debug)]
pub enum SysMessage {
    /// Start from the beginning.
    Start,
    /// Stop where the sequence stands.
    Stop,
    /// Go on from where the sequence stood.
    Continue,
}

/// What was found in the system queue.
#[derive(Clone, Copy, PartialEq, Eq, Structural, Debug)]
pub struct Drained {
    /// Whether a clock pulse was found: the signal to go on to the next
    /// tick.
    pub clock: bool,
    /// The last transport message found, or the one carried over.
    pub transport: Option<SysMessage>,
}

/// What `messages` hold, read after `carried`: a clock pulse counts
/// wherever it stands, and of the transport messages the last one.
pub open spec fn scanned(messages: Seq<MidiMessage>, carried: Option<SysMessage>) -> Drained
    decreases messages.len(),
{
    if messages.len() == 0 {
        Drained { clock: false, transport: carried }
    } else {
        let before = scanned(messages.drop_last(), carried);
        match messages.last() {
            MidiMessage::Clock => Drained { clock: true, ..before },
            MidiMessage::Start => Drained { transport: Some(SysMessage::Start), ..before },
            MidiMessage::Stop => Drained { transport: Some(SysMessage::Stop), ..before },
            MidiMessage::Continue => Drained { transport: Some(SysMessage::Continue), ..before },
            _ => before,
        }
    }
}

/// Empties the system queue and tells what it held: whether a clock pulse
/// came, and the last transport message, or `carried` where none came.
/// The queue must hold clock and transport messages only.
pub fn drain_system_queue(queue: &mut VecDeque<MidiMessage>, carried: Option<SysMessage>) -> (r:
    Drained)
    requires
        forall|i: int| 0 <= i < old(queue)@.len() ==> is_system(#[trigger] old(queue)@[i]),
    ensures
        final(queue)@.len() == 0,
        r == scanned(old(queue)@, carried),
{
    let ghost all = queue@;
    let ghost mut seen: Seq<MidiMessage> = Seq::empty();
    let mut found = Drained { clock: false, transport: carried };
    loop
        invariant
            all == seen + queue@,
            found == scanned(seen, carried),
        ensures
            queue@.len() == 0,
            found == scanned(all, carried),
        decreases queue@.len(),
    {
        let ghost rest = queue@;
        let message = match queue.pop_front() {
            Some(message) => message,
            None => {
                assert(seen =~= all);
                break ;
            },
        };
        proof {
            assert(seen.push(message).drop_last() =~= seen);
            assert(seen.push(message) + queue@ =~= seen + rest);
            seen = seen.push(message);
        }
        match message {
            MidiMessage::Clock => {
                found.clock = true;
            },
            MidiMessage::Start => {
                found.transport = Some(SysMessage::Start);
            },
            MidiMessage::Stop => {
                found.transport = Some(SysMessage::Stop);
            },
            MidiMessage::Continue => {
                found.transport = Some(SysMessage::Continue);
            },
            _ => {},
        }
    }
    found
}

/// Counts the clock pulses of an external source up to a beat.
pub struct BeatCounter {
    pulses: u8,
}

impl BeatCounter {
    #[verifier::type_invariant]
    spec fn within_beat(self) -> bool {
        self.pulses < PULSES_PER_BEAT
    }

    /// The pulses counted since the last beat.
    pub closed spec fn count(self) -> u8 {
        self.pulses
    }

    /// A counter at the start of a beat.
    pub fn new() -> (r: Self)
        ensures
            r.count() == 0,
    {
        BeatCounter { pulses: 0 }
    }

    /// Counts one pulse and tells whether it completes a beat; the count
    /// then starts again.
    pub fn pulse(&mut self) -> (beat: bool)
        ensures
            old(self).count() < PULSES_PER_BEAT,
            beat == (old(self).count() + 1 == PULSES_PER_BEAT),
            final(self).count() == if beat {
                0
            } else {
                old(self).count() + 1
            },
    {
        proof {
            use_type_invariant(&*self);
        }
        if self.pulses + 1 == PULSES_PER_BEAT {
            *self = BeatCounter { pulses: 0 };
            true
        } else {
            *self = BeatCounter { pulses: self.pulses + 1 };
            false
        }
    }
}

/// The tempo that follows from a beat of `elapsed_ms` milliseconds: 60000
/// divided by it, rounded down, and cut to a byte. A beat that took no time
/// gives none.
pub open spec fn estimated_bpm(elapsed_ms: u128) -> Option<u8> {
    if elapsed_ms == 0 {
        None
    } else {
        Some(((60000int / (elapsed_ms as int)) % 256) as u8)
    }
}

/// The tempo in beats per minute that follows from the time that the last
/// 24 clock pulses took.
pub fn estimate_bpm(elapsed_ms: u128) -> (r: Option<u8>)
    ensures
        r == estimated_bpm(elapsed_ms),
{
    if elapsed_ms != 0 {
        let bpm: u128 = 60000 / elapsed_ms;
        Some((bpm % 256) as u8)
    } else {
        None
    }
}

} // verus!
