//! Client identities and the typed commands that connection handlers
//! forward to the store actor.

use vstd::prelude::*;

verus! {

/// Identity of one live connection. The transport layer assigns each
/// accepted connection a value that is unique among concurrently open
/// connections (for a TCP transport, derived from the peer address).
/// The store actor keys its peer registry by this value.
#[derive(Clone, Copy, PartialEq, Eq, Structural, Hash, Debug)]
pub struct ClientId(pub u64);

/// Mathematical shape of a [`Command`]: the same variants with each
/// text field replaced by its character sequence.
pub ghost enum SpecCommand {
    Get { variable_name: Seq<char>, from: ClientId },
    SetValue { variable_name: Seq<char>, variable_value: Seq<char>, from: ClientId },
    Unknown { command_name: Seq<char>, from: ClientId },
    NewClient { from: ClientId },
}

/// One inbound event for the store actor. `Get`, `SetValue` and `Unknown`
/// carry the issuing client's identity; `NewClient` announces a fresh
/// connection that must be registered before it can receive responses.
#[derive(Debug, PartialEq)]
pub enum Command {
    Get { variable_name: String, from: ClientId },
    SetValue { variable_name: String, variable_value: String, from: ClientId },
    Unknown { command_name: String, from: ClientId },
    NewClient(ClientId),
}

impl View for Command {
    type V = SpecCommand;

    open spec fn view(&self) -> SpecCommand {
        match self {
            Command::Get { variable_name, from } => SpecCommand::Get {
                variable_name: variable_name@,
                from: *from,
            },
            Command::SetValue { variable_name, variable_value, from } => SpecCommand::SetValue {
                variable_name: variable_name@,
                variable_value: variable_value@,
                from: *from,
            },
            Command::Unknown { command_name, from } => SpecCommand::Unknown {
                command_name: command_name@,
                from: *from,
            },
            Command::NewClient(from) => SpecCommand::NewClient { from: *from },
        }
    }
}

impl Command {
    pub fn new_get(variable_name: String, from: ClientId) -> (c: Self)
        ensures
            c@ == (SpecCommand::Get { variable_name: variable_name@, from }),
    {
        Self::Get { variable_name, from }
    }

    pub fn new_set(variable_name: String, variable_value: String, from: ClientId) -> (c: Self)
        ensures
            c@ == (SpecCommand::SetValue {
                variable_name: variable_name@,
                variable_value: variable_value@,
                from,
            }),
    {
        Self::SetValue { variable_name, variable_value, from }
    }

    pub fn new_unknown(command_name: String, from: ClientId) -> (c: Self)
        ensures
            c@ == (SpecCommand::Unknown { command_name: command_name@, from }),
    {
        Self::Unknown { command_name, from }
    }
}

} // verus!
