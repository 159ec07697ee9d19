//! The configuration as it is written down, before anything in it is parsed.
//!
//! An action is either one line of text, in the action grammar, or the call
//! of a task with its parameters spelled out, each value a text with
//! `{{ name }}` placeholders. A working directory is such a text as well.

use crate::ordered_map::OrderedMap;
use vstd::prelude::*;

verus! {

/// The whole configuration: the tasks by name, in the order in which they are
/// declared.
#[derive(Debug)]
pub struct Root {
    pub tasks: OrderedMap<Task>,
}

/// One step of a task, as written.
#[derive(Debug)]
pub enum Action {
    /// The call of a task: its name, and a text for each of its parameters.
    TaskCall { name: String, params: OrderedMap<String> },
    /// One line in the action grammar.
    Command(String),
}

/// A task, as written.
#[derive(Debug)]
pub struct Task {
    pub working_directory: Option<String>,
    pub actions: Vec<Action>,
    pub on_failure: Vec<Action>,
    pub on_success: Vec<Action>,
    pub params: OrderedMap<Param>,
}

/// A declared parameter, as written.
#[derive(PartialEq, Eq, Debug)]
pub struct Param {
    pub default: Option<String>,
}

} // verus!
