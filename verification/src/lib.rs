//! A replicated log built on Multi-Paxos.
//!
//! A fixed group of replicas chooses a totally ordered sequence of
//! client-supplied commands.  Every replica that learns a slot applies the
//! command to a deterministic state machine, so all live replicas reach the
//! same state.  The replica core is a pure state machine: it consumes events
//! (messages, clock ticks, client submissions) and emits effects (messages to
//! send, state to persist, commands to apply); the process shell around the
//! library performs the actual I/O.

use vstd::prelude::*;

pub mod bank;
pub mod codec;
pub mod network;
pub mod protocol;
pub mod replica;

pub use replica::PaxosReplica;

verus! {

/// Commands replicated by the log.  Applications implement this marker for
/// their own command types; the replica core itself works on the serialized
/// form of a command.
pub trait AppCommand: Clone + Send + 'static {

}

impl AppCommand for String {

}

impl AppCommand for u32 {

}

/// The deterministic application onto which chosen commands are applied,
/// in slot order, exactly once per slot.
pub trait ReplicatedStateMachine {
    type Command: AppCommand;

    fn execute(&mut self, v: Self::Command) -> Result<String, ()>;
}

} // verus!
