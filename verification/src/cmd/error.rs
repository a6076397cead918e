//! What can be wrong with a command.

use vstd::prelude::*;

verus! {

/// Why a frame is not a command.
#[derive(Debug, PartialEq)]
pub enum CommandError {
    /// The frame has not the shape of the command that it names.
    InvalidCommand(String),
    /// An argument is of the wrong kind.
    InvalidArguments(String),
    /// A length that no command can have.
    InvalidLength(isize),
    /// The command ends before it should.
    NotComplete,
}

/// The mathematical value of a [`CommandError`].
pub enum CommandFault {
    InvalidCommand(Seq<char>),
    InvalidArguments(Seq<char>),
    InvalidLength(isize),
    NotComplete,
}

impl View for CommandError {
    type V = CommandFault;

    open spec fn view(&self) -> CommandFault {
        match self {
            CommandError::InvalidCommand(msg) => CommandFault::InvalidCommand(msg@),
            CommandError::InvalidArguments(msg) => CommandFault::InvalidArguments(msg@),
            CommandError::InvalidLength(n) => CommandFault::InvalidLength(*n),
            CommandError::NotComplete => CommandFault::NotComplete,
        }
    }
}

impl CommandError {
    /// The error for a frame that has not the shape of a command, with the
    /// message `msg`.
    pub fn invalid(msg: &str) -> (e: Self)
        ensures
            e@ == CommandFault::InvalidCommand(msg@),
    {
        CommandError::InvalidCommand(msg.to_owned())
    }
}

} // verus!
