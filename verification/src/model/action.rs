//! Actions: the steps of a task.

use crate::ordered_map::OrderedMap;
use vstd::prelude::*;

verus! {

/// What an action line aims at: another task, or an external program.
#[derive(PartialEq, Eq, Debug, Clone, Copy)]
pub enum Target {
    Task,
    External,
}

/// An indivisible fragment of an argument: literal text, or a reference to a
/// variable that is looked up when the argument is rendered.
#[derive(PartialEq, Eq, Debug, Clone)]
pub enum ArgumentComponent {
    Literal(String),
    Interpolated(String),
}

/// One value of a command or of a task parameter. Its components are
/// concatenated when it is rendered.
#[derive(PartialEq, Eq, Debug, Clone)]
pub struct Argument {
    pub components: Vec<ArgumentComponent>,
}

/// The run of an external program.
#[derive(PartialEq, Eq, Debug)]
pub struct Command {
    pub name: String,
    pub arguments: Vec<Argument>,
}

/// The call of another task, with the values bound to its parameters.
#[derive(Debug)]
pub struct TaskCall {
    pub name: String,
    pub params: OrderedMap<Argument>,
}

/// One step of a task.
#[derive(Debug)]
pub enum Action {
    TaskCall(TaskCall),
    Command(Command),
}

/// An [`ArgumentComponent`] as a mathematical value.
pub enum Component {
    Literal(Seq<char>),
    Interpolated(Seq<char>),
}

impl DeepView for ArgumentComponent {
    type V = Component;

    open spec fn deep_view(&self) -> Component {
        match self {
            ArgumentComponent::Literal(text) => Component::Literal(text@),
            ArgumentComponent::Interpolated(name) => Component::Interpolated(name@),
        }
    }
}

impl DeepView for Argument {
    type V = Seq<Component>;

    open spec fn deep_view(&self) -> Seq<Component> {
        self.components.deep_view()
    }
}

/// A [`Command`] as a mathematical value.
pub struct CommandView {
    pub name: Seq<char>,
    pub arguments: Seq<Seq<Component>>,
}

impl DeepView for Command {
    type V = CommandView;

    open spec fn deep_view(&self) -> CommandView {
        CommandView { name: self.name@, arguments: self.arguments.deep_view() }
    }
}

/// A [`TaskCall`] as a mathematical value: the parameter names in the order
/// in which they were first bound, and the value of each.
pub struct TaskCallView {
    pub name: Seq<char>,
    pub params: Seq<(Seq<char>, Seq<Component>)>,
}

/// The entries of a map of arguments, in insertion order.
pub open spec fn bindings(params: OrderedMap<Argument>) -> Seq<(Seq<char>, Seq<Component>)> {
    Seq::new(params.names().len(), |i: int| (params.names()[i], params.values()[i].deep_view()))
}

impl DeepView for TaskCall {
    type V = TaskCallView;

    open spec fn deep_view(&self) -> TaskCallView {
        TaskCallView { name: self.name@, params: bindings(self.params) }
    }
}

/// An [`Action`] as a mathematical value.
pub enum ActionView {
    TaskCall(TaskCallView),
    Command(CommandView),
}

impl DeepView for Action {
    type V = ActionView;

    open spec fn deep_view(&self) -> ActionView {
        match self {
            Action::TaskCall(call) => ActionView::TaskCall(call.deep_view()),
            Action::Command(command) => ActionView::Command(command.deep_view()),
        }
    }
}

} // verus!
