//! Requests that are answered: what clients and the global-name protocol say.

use crate::pid::{NodeId, Pid};
use vstd::prelude::*;
use vstd::string::*;

verus! {

/// Whom a request is for.
#[derive(PartialEq, Debug)]
pub enum Target {
    Pid(Pid),
    Name(String),
}

/// A request to send a message to a particle.
#[derive(PartialEq, Debug)]
pub struct SendRequest {
    pub target: Target,
    pub msg: Vec<u8>,
}

#[derive(PartialEq, Debug)]
pub struct SendResponse {
    pub result: Result<(), String>,
}

/// A request to spawn a particle from a registered component.
#[derive(PartialEq, Debug)]
pub struct SpawnRequest {
    pub component: String,
    pub name: Option<String>,
    pub init_args: String,
}

#[derive(PartialEq, Debug)]
pub struct SpawnResult {
    pub pid: Pid,
    pub component: String,
    pub name: Option<String>,
}

/// Why a spawn failed on the node that was asked.
#[derive(Clone, Copy, PartialEq, Eq, Structural, Debug)]
pub enum SpawnFailureWire {
    ComponentNotFound,
    InitFailed,
    ResourceLimit,
}

#[derive(PartialEq, Debug)]
pub struct SpawnResponse {
    pub result: Result<SpawnResult, SpawnFailureWire>,
}

/// A request.
#[derive(PartialEq, Debug)]
pub enum Command {
    Send(SendRequest),
    Spawn(SpawnRequest),
    /// A step of the global-name protocol.
    Global(GlobalRequest),
}

/// One step of the global-name lock, commit, or merge.
#[derive(PartialEq, Debug)]
pub enum GlobalRequest {
    /// Take the lock on a name.
    Lock { name: String, holder: NodeId },
    /// Write a name into the table, while holding its lock.
    Commit { name: String, pid: Pid, holder: NodeId },
    /// Release the lock.
    Unlock { name: String, holder: NodeId },
    /// Remove a name, because its particle died or gave it up.
    Release { name: String, pid: Pid },
    /// Exchange whole tables.
    Sync { names: Vec<(String, Pid)> },
}

#[derive(PartialEq, Debug)]
pub enum GlobalResponse {
    Locked,
    /// Somebody else is claiming this name.
    Busy,
    /// The name is registered.
    Taken(Pid),
    /// The step was taken.
    Done,
    Names(Vec<(String, Pid)>),
}

/// A response.
#[derive(PartialEq, Debug)]
pub enum CommandResponse {
    Send(SendResponse),
    Spawn(SpawnResponse),
    Global(GlobalResponse),
}

/// Why a request to another node did not succeed.
#[derive(PartialEq, Debug)]
pub enum ClientError {
    /// The node refused to deliver, and says why.
    SendFailed(String),
    /// The node did not spawn the particle.
    SpawnFailed(SpawnFailureWire),
    /// The answer is not one to this kind of request.
    UnexpectedResponse,
}

/// The text of an optional string slice, kept.
fn own(name: Option<&str>) -> (r: Option<String>)
    ensures
        match (r, name) {
            (Some(a), Some(b)) => a@ == b@,
            (None, None) => true,
            _ => false,
        },
{
    match name {
        Some(n) => Some(n.to_owned()),
        None => None,
    }
}

/// The request to spawn a particle.
pub fn spawn_command(component: &str, name: Option<&str>, init_args: &str) -> (r: Command)
    ensures
        r matches Command::Spawn(s) && s.component@ == component@ && s.init_args@ == init_args@ && (
        match (s.name, name) {
            (Some(a), Some(b)) => a@ == b@,
            (None, None) => true,
            _ => false,
        }),
{
    Command::Spawn(
        SpawnRequest {
            component: component.to_owned(),
            name: own(name),
            init_args: init_args.to_owned(),
        },
    )
}

/// The request to send a message to a particle by name.
pub fn send_command(target: &str, msg: Vec<u8>) -> (r: Command)
    ensures
        r matches Command::Send(s) && s.msg == msg && (s.target matches Target::Name(n) && n@
            == target@),
{
    Command::Send(SendRequest { target: Target::Name(target.to_owned()), msg })
}

/// What the answer to a spawn request says.
pub fn spawn_outcome(response: CommandResponse) -> (r: Result<SpawnResult, ClientError>)
    ensures
        r == match response {
            CommandResponse::Spawn(s) => match s.result {
                Ok(x) => Ok::<SpawnResult, ClientError>(x),
                Err(e) => Err(ClientError::SpawnFailed(e)),
            },
            _ => Err(ClientError::UnexpectedResponse),
        },
{
    match response {
        CommandResponse::Spawn(s) => match s.result {
            Ok(x) => Ok(x),
            Err(e) => Err(ClientError::SpawnFailed(e)),
        },
        _ => Err(ClientError::UnexpectedResponse),
    }
}

/// What the answer to a send request says.
pub fn send_outcome(response: CommandResponse) -> (r: Result<(), ClientError>)
    ensures
        r == match response {
            CommandResponse::Send(s) => match s.result {
                Ok(_) => Ok::<(), ClientError>(()),
                Err(e) => Err(ClientError::SendFailed(e)),
            },
            _ => Err(ClientError::UnexpectedResponse),
        },
{
    match response {
        CommandResponse::Send(s) => match s.result {
            Ok(_) => Ok(()),
            Err(e) => Err(ClientError::SendFailed(e)),
        },
        _ => Err(ClientError::UnexpectedResponse),
    }
}

} // verus!
