//! What a run reports while it goes on.

use vstd::prelude::*;

verus! {

/// A step of progress, reported in the order in which it happened.
#[derive(PartialEq, Eq, Debug)]
pub enum ExecutionMessage {
    MissingRequiredTaskParameter { parameter_name: String },
    WorkingDirectoryNotFound { path: String },
    AboutToRunCommand { command: String, working_directory: String },
    CommandOutput { output: String },
    CommandFailed,
    CommandSucceeded,
}

/// An [`ExecutionMessage`] as a mathematical value.
pub enum Message {
    MissingRequiredTaskParameter { parameter_name: Seq<char> },
    WorkingDirectoryNotFound { path: Seq<char> },
    AboutToRunCommand { command: Seq<char>, working_directory: Seq<char> },
    CommandOutput { output: Seq<char> },
    CommandFailed,
    CommandSucceeded,
}

impl DeepView for ExecutionMessage {
    type V = Message;

    open spec fn deep_view(&self) -> Message {
        match self {
            ExecutionMessage::MissingRequiredTaskParameter { parameter_name } => {
                Message::MissingRequiredTaskParameter { parameter_name: parameter_name@ }
            },
            ExecutionMessage::WorkingDirectoryNotFound { path } => {
                Message::WorkingDirectoryNotFound { path: path@ }
            },
            ExecutionMessage::AboutToRunCommand { command, working_directory } => {
                Message::AboutToRunCommand {
                    command: command@,
                    working_directory: working_directory@,
                }
            },
            ExecutionMessage::CommandOutput { output } => Message::CommandOutput {
                output: output@,
            },
            ExecutionMessage::CommandFailed => Message::CommandFailed,
            ExecutionMessage::CommandSucceeded => Message::CommandSucceeded,
        }
    }
}

} // verus!
