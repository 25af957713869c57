//! Managing long-running operations of a server.

use crate::text::joined;
use vstd::prelude::*;

verus! {

/// Why a command failed. What others say of their errors is given in words.
#[derive(Debug, PartialEq, Eq)]
pub enum Error {
    /// The request failed.
    ClientError(String),
    /// The reply could not be printed.
    SerializationError(String),
}

/// What an error says, in words.
pub open spec fn error_text(error: Error) -> Seq<char> {
    match error {
        Error::ClientError(source) => "Client error: "@ + source@,
        Error::SerializationError(source) => "Output serialization error: "@ + source@,
    }
}

impl Error {
    /// What the error says, in words.
    pub fn message(&self) -> (message: String)
        ensures
            message@ == error_text(*self),
            match *self {
                Error::ClientError(source) => message@ == "Client error: "@ + source@,
                Error::SerializationError(source) => message@ == "Output serialization error: "@
                    + source@,
            },
    {
        match self {
            Error::ClientError(source) => joined("Client error: ", source.as_str()),
            Error::SerializationError(source) => joined(
                "Output serialization error: ",
                source.as_str(),
            ),
        }
    }
}

/// What to do with operations.
#[allow(inconsistent_fields)]
#[derive(Debug)]
pub enum Command {
    /// Get list of running operations.
    List,
    /// Get a specific operation.
    Get { id: usize },
    /// Wait for a specific operation to complete, the given number of nanoseconds at most before
    /// its current status is returned.
    Wait { id: usize, nanos: Option<u64> },
    /// Cancel a specific operation.
    Cancel { id: usize },
    /// Spawns a dummy test operation.
    Test { nanos: Vec<u64> },
}

/// Manage long-running operations.
#[derive(Debug)]
pub struct Config {
    pub command: Command,
}

/// A time span.
#[derive(Debug, Clone, Copy, PartialEq, Eq, Structural)]
pub struct Timeout {
    pub secs: u64,
    /// Less than a second.
    pub subsec_nanos: u32,
}

/// The number of nanoseconds in a second.
pub const NANOS_PER_SEC: u64 = 1_000_000_000;

impl Timeout {
    /// The time span in nanoseconds.
    pub open spec fn nanos(self) -> int {
        self.secs * NANOS_PER_SEC + self.subsec_nanos
    }

    /// The time span of the given number of nanoseconds.
    pub fn from_nanos(nanos: u64) -> (timeout: Self)
        ensures
            timeout.nanos() == nanos,
            timeout.subsec_nanos < NANOS_PER_SEC,
            timeout.secs * 1_000_000_000 + timeout.subsec_nanos == nanos,
            timeout.subsec_nanos < 1_000_000_000,
    {
        Timeout {
            secs: nanos / NANOS_PER_SEC,
            subsec_nanos: (nanos % NANOS_PER_SEC) as u32,
        }
    }
}

/// What is asked of the server.
#[derive(Debug)]
pub enum Request {
    ListOperations,
    GetOperation { id: usize },
    WaitOperation { id: usize, timeout: Option<Timeout> },
    CancelOperation { id: usize },
    CreateDummyJob { nanos: Vec<u64> },
}

/// What is printed when a request has been answered.
#[derive(Debug, PartialEq, Eq)]
pub enum Output<R> {
    /// The reply, as indented JSON.
    Json(R),
    /// A line of text.
    Line(String),
}

/// The request is what the command asks for.
pub open spec fn is_request(command: Command, request: Request) -> bool {
    match (command, request) {
        (Command::List, Request::ListOperations) => true,
        (Command::Get { id }, Request::GetOperation { id: asked }) => asked == id,
        (Command::Wait { id, nanos }, Request::WaitOperation { id: asked, timeout }) => {
            &&& asked == id
            &&& match (nanos, timeout) {
                (Some(nanos), Some(timeout)) => {
                    &&& timeout.nanos() == nanos
                    &&& timeout.subsec_nanos < NANOS_PER_SEC
                },
                (None, None) => true,
                _ => false,
            }
        },
        (Command::Cancel { id }, Request::CancelOperation { id: asked }) => asked == id,
        (Command::Test { nanos }, Request::CreateDummyJob { nanos: asked }) => asked == nanos,
        _ => false,
    }
}

/// The request that a command asks for.
pub fn command(config: Config) -> (request: Request)
    ensures
        is_request(config.command, request),
        match config.command {
            Command::List => request is ListOperations,
            Command::Get { id } => request matches Request::GetOperation { id: asked } && asked
                == id,
            Command::Wait { id, nanos } => request matches Request::WaitOperation {
                id: asked,
                timeout,
            } && asked == id && (timeout is Some <==> nanos is Some) && (nanos is Some ==> {
                &&& timeout->0.secs * 1_000_000_000 + timeout->0.subsec_nanos == nanos->0
                &&& timeout->0.subsec_nanos < 1_000_000_000
            }),
            Command::Cancel { id } => request matches Request::CancelOperation { id: asked }
                && asked == id,
            Command::Test { nanos } => request matches Request::CreateDummyJob { nanos: asked }
                && asked == nanos,
        },
{
    match config.command {
        Command::List => Request::ListOperations,
        Command::Get { id } => Request::GetOperation { id },
        Command::Wait { id, nanos } => {
            let timeout = match nanos {
                Some(nanos) => Some(Timeout::from_nanos(nanos)),
                None => None,
            };
            Request::WaitOperation { id, timeout }
        },
        Command::Cancel { id } => Request::CancelOperation { id },
        Command::Test { nanos } => Request::CreateDummyJob { nanos },
    }
}

/// What is printed of the answer to a request: the reply, but for a cancellation, which is only
/// acknowledged. A request that failed is an error.
pub fn answered<R>(request: &Request, reply: Result<R, String>) -> (result: Result<
    Output<R>,
    Error,
>)
    ensures
        match (reply, result) {
            (Err(e), Err(Error::ClientError(source))) => source == e,
            (Ok(reply), Ok(Output::Json(printed))) => {
                &&& request !is CancelOperation
                &&& printed == reply
            },
            (Ok(_), Ok(Output::Line(line))) => request is CancelOperation && line@ == "Ok"@,
            _ => false,
        },
{
    match reply {
        Err(source) => Err(Error::ClientError(source)),
        Ok(reply) => match request {
            Request::CancelOperation { .. } => Ok(Output::Line("Ok".to_owned())),
            _ => Ok(Output::Json(reply)),
        },
    }
}

/// What came of printing, given what came of writing the reply.
pub fn printed(written: Result<(), String>) -> (result: Result<(), Error>)
    ensures
        match (written, result) {
            (Ok(_), Ok(_)) => true,
            (Err(e), Err(Error::SerializationError(source))) => source == e,
            _ => false,
        },
{
    match written {
        Ok(_) => Ok(()),
        Err(source) => Err(Error::SerializationError(source)),
    }
}

/// Each command asks for what it is named for, of the very operation it states, and of no other;
/// a wait takes as long as was stated, to the nanosecond, or has no end if nothing was.
pub proof fn law_command_asks_for(command: Command, request: Request)
    requires
        is_request(command, request),
    ensures
        request is ListOperations <==> command is List,
        request is GetOperation <==> command is Get,
        request is WaitOperation <==> command is Wait,
        request is CancelOperation <==> command is Cancel,
        request is CreateDummyJob <==> command is Test,
        command is Get ==> request->GetOperation_id == command->Get_id,
        command is Cancel ==> request->CancelOperation_id == command->Cancel_id,
        command is Test ==> request->CreateDummyJob_nanos == command->Test_nanos,
        command is Wait ==> {
            &&& request->WaitOperation_id == command->Wait_id
            &&& request->timeout is Some <==> command->Wait_nanos is Some
            &&& command->Wait_nanos is Some ==> {
                &&& request->timeout->0.secs * 1_000_000_000 + request->timeout->0.subsec_nanos
                    == command->Wait_nanos->0
                &&& request->timeout->0.subsec_nanos < 1_000_000_000
            }
        },
{
}

} // verus!
