//! What the library does with the model: parsing, rendering and running.
//!
//! This file holds the execution engine. A [`Run`] is one run of a task. It
//! does no work on the outside itself: [`Run::step`] takes what happened
//! last, an [`Event`], moves the run on by one transition, and says in a
//! [`Step`] what is to be reported and what it needs next, a [`Request`].
//! Whoever drives the run resolves directories, spawns processes and feeds
//! their output back.

use crate::message::{ExecutionMessage, Message};
use crate::model::action::{bindings, Action, Command, Component, TaskCall};
use crate::model::task::Task;
use crate::model::{ParamContext, TaskerieContext};
use crate::service::interpolated_string::{rendered_template, TemplateError, TemplateFailure};
use crate::service::render::{command_line, rendered, UnboundVariable};
use vstd::prelude::*;
use vstd::string::StringExecFns;

pub mod action_laws;
pub mod action_parser;
pub mod brace_laws;
pub mod braces;
pub mod interpolated_string;
pub mod laws;
pub mod render;
pub mod task_parser;
pub mod template_laws;

verus! {

/// How a command or a task ended.
#[derive(PartialEq, Eq, Debug, Clone, Copy)]
pub enum ExitOutcome {
    Succeeded,
    Failed,
    /// No process ran: a required parameter was missing, or the working
    /// directory was not found.
    Undetermined,
}

/// Which list of actions a task is in.
#[derive(PartialEq, Eq, Debug, Clone, Copy)]
pub enum Phase {
    Primary,
    OnSuccess,
    OnFailure,
}

/// What an invocation of a task is about to do, or is waiting for.
#[derive(PartialEq, Eq, Debug, Clone, Copy)]
pub enum Stage {
    /// The parameters are to be bound.
    Binding,
    /// The working directory is to be rendered.
    Locating,
    /// The working directory is being resolved on the outside.
    Resolving,
    /// The next action is to be started.
    Acting,
    /// A command is running on the outside.
    Process,
}

/// What happened on the outside since the last step.
#[derive(PartialEq, Eq, Debug)]
pub enum Event {
    /// Nothing: the last step asked for nothing.
    Resume,
    /// The directory that was to be resolved exists, under this name, or
    /// does not exist.
    Directory(Option<String>),
    /// The running command wrote this line.
    Output(String),
    /// The running command ended, with success or without.
    Exited(bool),
}

/// What a run needs from the outside before its next step.
#[derive(PartialEq, Eq, Debug)]
pub enum Request {
    /// Nothing: the next event is [`Event::Resume`].
    Continue,
    /// Whether this directory exists; the next event is [`Event::Directory`].
    ResolveDirectory(String),
    /// The start of this command in this directory; the next event is its
    /// first line of output or its end.
    RunCommand { command: String, working_directory: String },
    /// The next line of output of the running command, or its end.
    ReadProcess,
    /// Nothing more: the run is over, with this outcome.
    Finished(ExitOutcome),
}

/// What one step of a run gives: at most one message to report, and what the
/// run needs next.
#[derive(PartialEq, Eq, Debug)]
pub struct Step {
    pub message: Option<ExecutionMessage>,
    pub request: Request,
}

/// Why a run was given up.
#[derive(PartialEq, Eq, Debug)]
pub enum RunError {
    /// The run is over, or never began.
    NotRunning,
    /// The event is not the one that the last step asked for.
    UnexpectedEvent,
    /// No task of this name is declared.
    UnknownTask(String),
    /// An argument or a working directory refers to a variable of this name,
    /// which is not bound.
    UnboundVariable(String),
    /// The working directory's template holds a variable out of place, at
    /// this position among its parts.
    MisplacedVariable(usize),
}

impl RunError {
    /// The text that describes the error.
    pub open spec fn message(self) -> Seq<char> {
        match self {
            RunError::NotRunning => "No task is running"@,
            RunError::UnexpectedEvent => "Unexpected event"@,
            RunError::UnknownTask(name) => "Task "@ + name@ + " is not defined"@,
            RunError::UnboundVariable(name) => "Could not find value for param "@ + name@
                + " during string interpolation"@,
            RunError::MisplacedVariable(_) => "Variable out of place in working directory"@,
        }
    }

    /// The text that describes the error.
    pub fn to_string(&self) -> (text: String)
        ensures
            text@ == self.message(),
    {
        match self {
            RunError::NotRunning => "No task is running".to_owned(),
            RunError::UnexpectedEvent => "Unexpected event".to_owned(),
            RunError::UnknownTask(name) => {
                let mut text = "Task ".to_owned();
                text.append(name.as_str());
                text.append(" is not defined");
                text
            },
            RunError::UnboundVariable(name) => {
                let mut text = "Could not find value for param ".to_owned();
                text.append(name.as_str());
                text.append(" during string interpolation");
                text
            },
            RunError::MisplacedVariable(_) => "Variable out of place in working directory"
                .to_owned(),
        }
    }
}

/// An [`Event`] as a mathematical value.
pub enum EventView {
    Resume,
    Directory(Option<Seq<char>>),
    Output(Seq<char>),
    Exited(bool),
}

impl DeepView for Event {
    type V = EventView;

    open spec fn deep_view(&self) -> EventView {
        match self {
            Event::Resume => EventView::Resume,
            Event::Directory(found) => EventView::Directory(found.deep_view()),
            Event::Output(line) => EventView::Output(line@),
            Event::Exited(success) => EventView::Exited(*success),
        }
    }
}

/// A [`Request`] as a mathematical value.
pub enum RequestView {
    Continue,
    ResolveDirectory(Seq<char>),
    RunCommand { command: Seq<char>, working_directory: Seq<char> },
    ReadProcess,
    Finished(ExitOutcome),
}

impl DeepView for Request {
    type V = RequestView;

    open spec fn deep_view(&self) -> RequestView {
        match self {
            Request::Continue => RequestView::Continue,
            Request::ResolveDirectory(path) => RequestView::ResolveDirectory(path@),
            Request::RunCommand { command, working_directory } => RequestView::RunCommand {
                command: command@,
                working_directory: working_directory@,
            },
            Request::ReadProcess => RequestView::ReadProcess,
            Request::Finished(outcome) => RequestView::Finished(*outcome),
        }
    }
}

/// A [`RunError`] as a mathematical value.
pub enum RunFailure {
    NotRunning,
    UnexpectedEvent,
    UnknownTask(Seq<char>),
    UnboundVariable(Seq<char>),
    MisplacedVariable(int),
}

impl DeepView for RunError {
    type V = RunFailure;

    open spec fn deep_view(&self) -> RunFailure {
        match self {
            RunError::NotRunning => RunFailure::NotRunning,
            RunError::UnexpectedEvent => RunFailure::UnexpectedEvent,
            RunError::UnknownTask(name) => RunFailure::UnknownTask(name@),
            RunError::UnboundVariable(name) => RunFailure::UnboundVariable(name@),
            RunError::MisplacedVariable(index) => RunFailure::MisplacedVariable(*index as int),
        }
    }
}

/// One invocation of a task, as a mathematical value.
pub struct FrameView {
    pub task: Task,
    pub context: Map<Seq<char>, Seq<char>>,
    pub stage: Stage,
    pub phase: Phase,
    /// The position, in the list of the phase, of the next action to start.
    pub next: int,
    /// How the last primary action that ran ended.
    pub outcome: ExitOutcome,
    /// The working directory: as rendered while it is being resolved, as
    /// resolved after that.
    pub directory: Seq<char>,
}

/// What a step leads to, as a mathematical value.
pub struct StepView {
    /// The invocations that are under way, the innermost last.
    pub frames: Seq<FrameView>,
    pub message: Option<Message>,
    pub request: RequestView,
}

/// The parameters that a task declares, each with its default, in order.
pub open spec fn declared(task: Task) -> Seq<(Seq<char>, Option<Seq<char>>)> {
    Seq::new(
        task.params.names().len(),
        |i: int| (task.params.names()[i], task.params.values()[i].default.deep_view()),
    )
}

/// The context after each declared parameter that it does not bind has got
/// its default, in order; or the name of the first that it does not bind and
/// that has none.
pub open spec fn with_defaults(
    params: Seq<(Seq<char>, Option<Seq<char>>)>,
    context: Map<Seq<char>, Seq<char>>,
) -> Result<Map<Seq<char>, Seq<char>>, Seq<char>>
    decreases params.len(),
{
    if params.len() == 0 {
        Ok(context)
    } else {
        match with_defaults(params.drop_last(), context) {
            Ok(bound) => {
                let (name, default) = params.last();
                if bound.contains_key(name) {
                    Ok(bound)
                } else {
                    match default {
                        Some(value) => Ok(bound.insert(name, value)),
                        None => Err(name),
                    }
                }
            },
            Err(name) => Err(name),
        }
    }
}

/// The context in which a called task starts: nothing but the bindings of
/// the call, each value rendered in the context of the caller. Where a value
/// refers to a variable that the caller does not bind, the name of that
/// variable.
pub open spec fn called_context(
    params: Seq<(Seq<char>, Seq<Component>)>,
    caller: Map<Seq<char>, Seq<char>>,
) -> Result<Map<Seq<char>, Seq<char>>, Seq<char>>
    decreases params.len(),
{
    if params.len() == 0 {
        Ok(Map::empty())
    } else {
        match called_context(params.drop_last(), caller) {
            Ok(bound) => match rendered(params.last().1, caller) {
                Ok(value) => Ok(bound.insert(params.last().0, value)),
                Err(name) => Err(name),
            },
            Err(name) => Err(name),
        }
    }
}

/// The working directory of a task in a context: its template rendered, or
/// `./` where it declares none.
pub open spec fn working_directory(task: Task, context: Map<Seq<char>, Seq<char>>) -> Result<
    Seq<char>,
    RunFailure,
> {
    match task.working_directory {
        Some(template) => match rendered_template(template.deep_view(), context) {
            Ok(path) => Ok(path),
            Err(TemplateFailure::UnboundVariable(name)) => Err(RunFailure::UnboundVariable(name)),
            Err(TemplateFailure::MisplacedVariable(index)) => Err(
                RunFailure::MisplacedVariable(index),
            ),
        },
        None => Ok("./"@),
    }
}

impl FrameView {
    /// The invocation of `task` in `context`, before anything is done.
    pub open spec fn start(task: Task, context: Map<Seq<char>, Seq<char>>) -> FrameView {
        FrameView {
            task,
            context,
            stage: Stage::Binding,
            phase: Phase::Primary,
            next: 0,
            outcome: ExitOutcome::Succeeded,
            directory: Seq::empty(),
        }
    }

    /// The list of actions of the phase that the invocation is in.
    pub open spec fn list(self) -> Seq<Action> {
        match self.phase {
            Phase::Primary => self.task.actions@,
            Phase::OnSuccess => self.task.on_success@,
            Phase::OnFailure => self.task.on_failure@,
        }
    }

    /// The actions of the current list that are still to be started.
    pub open spec fn upcoming(self) -> Seq<Action> {
        if 0 <= self.next <= self.list().len() {
            self.list().skip(self.next)
        } else {
            Seq::empty()
        }
    }

    /// The invocation after the action that it had started ended with
    /// `outcome`. A primary action that did not succeed ends the primary list
    /// and turns to the failure hooks; how a hook ends changes nothing.
    pub open spec fn completed(self, outcome: ExitOutcome) -> FrameView {
        match self.phase {
            Phase::Primary => if outcome is Succeeded {
                FrameView { stage: Stage::Acting, outcome, ..self }
            } else {
                FrameView {
                    stage: Stage::Acting,
                    phase: Phase::OnFailure,
                    next: 0,
                    outcome,
                    ..self
                }
            },
            _ => FrameView { stage: Stage::Acting, ..self },
        }
    }
}

/// What the end of the innermost invocation leads to, `below` being the
/// invocations around it: the one that called it goes on, or the run is over.
pub open spec fn finished(
    below: Seq<FrameView>,
    outcome: ExitOutcome,
    message: Option<Message>,
) -> StepView {
    if below.len() == 0 {
        StepView { frames: below, message, request: RequestView::Finished(outcome) }
    } else {
        StepView {
            frames: below.drop_last().push(below.last().completed(outcome)),
            message,
            request: RequestView::Continue,
        }
    }
}

/// The step of an invocation whose parameters are to be bound.
pub open spec fn bind_step(below: Seq<FrameView>, frame: FrameView) -> StepView {
    match with_defaults(declared(frame.task), frame.context) {
        Ok(context) => StepView {
            frames: below.push(FrameView { context, stage: Stage::Locating, ..frame }),
            message: None,
            request: RequestView::Continue,
        },
        Err(name) => finished(
            below,
            ExitOutcome::Undetermined,
            Some(Message::MissingRequiredTaskParameter { parameter_name: name }),
        ),
    }
}

/// The step of an invocation whose working directory is to be rendered.
pub open spec fn locate_step(below: Seq<FrameView>, frame: FrameView) -> Result<
    StepView,
    RunFailure,
> {
    match working_directory(frame.task, frame.context) {
        Ok(path) => Ok(
            StepView {
                frames: below.push(FrameView { stage: Stage::Resolving, directory: path, ..frame }),
                message: None,
                request: RequestView::ResolveDirectory(path),
            },
        ),
        Err(e) => Err(e),
    }
}

/// The step of an invocation that learns whether its working directory
/// exists.
pub open spec fn resolve_step(
    below: Seq<FrameView>,
    frame: FrameView,
    found: Option<Seq<char>>,
) -> StepView {
    match found {
        Some(directory) => StepView {
            frames: below.push(FrameView { stage: Stage::Acting, directory, ..frame }),
            message: None,
            request: RequestView::Continue,
        },
        None => finished(
            below,
            ExitOutcome::Undetermined,
            Some(Message::WorkingDirectoryNotFound { path: frame.directory }),
        ),
    }
}

/// The step of an invocation that is to start its next action.
pub open spec fn act_step(
    registry: TaskerieContext,
    below: Seq<FrameView>,
    frame: FrameView,
) -> Result<StepView, RunFailure> {
    if !(0 <= frame.next < frame.list().len()) {
        match frame.phase {
            Phase::Primary => Ok(
                StepView {
                    frames: below.push(FrameView { phase: Phase::OnSuccess, next: 0, ..frame }),
                    message: None,
                    request: RequestView::Continue,
                },
            ),
            _ => Ok(finished(below, frame.outcome, None)),
        }
    } else {
        let started = FrameView { next: frame.next + 1, ..frame };
        match frame.list()[frame.next] {
            Action::Command(command) => match command_line(command.deep_view(), frame.context) {
                Ok(text) => Ok(
                    StepView {
                        frames: below.push(FrameView { stage: Stage::Process, ..started }),
                        message: Some(
                            Message::AboutToRunCommand {
                                command: text,
                                working_directory: frame.directory,
                            },
                        ),
                        request: RequestView::RunCommand {
                            command: text,
                            working_directory: frame.directory,
                        },
                    },
                ),
                Err(name) => Err(RunFailure::UnboundVariable(name)),
            },
            Action::TaskCall(call) => match registry.tasks.lookup(call.name@) {
                Some(task) => match called_context(bindings(call.params), frame.context) {
                    Ok(context) => Ok(
                        StepView {
                            frames: below.push(started).push(FrameView::start(task, context)),
                            message: None,
                            request: RequestView::Continue,
                        },
                    ),
                    Err(name) => Err(RunFailure::UnboundVariable(name)),
                },
                None => Err(RunFailure::UnknownTask(call.name@)),
            },
        }
    }
}

/// The step of an invocation whose command is running.
pub open spec fn process_step(below: Seq<FrameView>, frame: FrameView, event: EventView) -> Result<
    StepView,
    RunFailure,
> {
    match event {
        EventView::Output(line) => Ok(
            StepView {
                frames: below.push(frame),
                message: Some(Message::CommandOutput { output: line }),
                request: RequestView::ReadProcess,
            },
        ),
        EventView::Exited(success) => Ok(
            StepView {
                frames: below.push(
                    frame.completed(
                        if success {
                            ExitOutcome::Succeeded
                        } else {
                            ExitOutcome::Failed
                        },
                    ),
                ),
                message: Some(
                    if success {
                        Message::CommandSucceeded
                    } else {
                        Message::CommandFailed
                    },
                ),
                request: RequestView::Continue,
            },
        ),
        _ => Err(RunFailure::UnexpectedEvent),
    }
}

/// One step of a run: what the innermost invocation does with the event.
pub open spec fn next(registry: TaskerieContext, frames: Seq<FrameView>, event: EventView) -> Result<
    StepView,
    RunFailure,
> {
    if frames.len() == 0 {
        Err(RunFailure::NotRunning)
    } else {
        let below = frames.drop_last();
        let frame = frames.last();
        match frame.stage {
            Stage::Binding => if event is Resume {
                Ok(bind_step(below, frame))
            } else {
                Err(RunFailure::UnexpectedEvent)
            },
            Stage::Locating => if event is Resume {
                locate_step(below, frame)
            } else {
                Err(RunFailure::UnexpectedEvent)
            },
            Stage::Resolving => match event {
                EventView::Directory(found) => Ok(resolve_step(below, frame, found)),
                _ => Err(RunFailure::UnexpectedEvent),
            },
            Stage::Acting => if event is Resume {
                act_step(registry, below, frame)
            } else {
                Err(RunFailure::UnexpectedEvent)
            },
            Stage::Process => process_step(below, frame, event),
        }
    }
}

/// Where binding the defaults of the first `n` parameters fails, binding
/// those of all of them fails in the same way.
pub proof fn lemma_with_defaults_prefix_error(
    params: Seq<(Seq<char>, Option<Seq<char>>)>,
    n: int,
    context: Map<Seq<char>, Seq<char>>,
)
    requires
        0 <= n <= params.len(),
        with_defaults(params.take(n), context) is Err,
    ensures
        with_defaults(params, context) == with_defaults(params.take(n), context),
    decreases params.len() - n,
{
    if n < params.len() {
        assert(params.take(n + 1).drop_last() =~= params.take(n));
        lemma_with_defaults_prefix_error(params, n + 1, context);
    } else {
        assert(params.take(n) =~= params);
    }
}

/// Where rendering the first `n` bindings of a call fails, rendering all of
/// them fails in the same way.
pub proof fn lemma_called_context_prefix_error(
    params: Seq<(Seq<char>, Seq<Component>)>,
    n: int,
    caller: Map<Seq<char>, Seq<char>>,
)
    requires
        0 <= n <= params.len(),
        called_context(params.take(n), caller) is Err,
    ensures
        called_context(params, caller) == called_context(params.take(n), caller),
    decreases params.len() - n,
{
    if n < params.len() {
        assert(params.take(n + 1).drop_last() =~= params.take(n));
        lemma_called_context_prefix_error(params, n + 1, caller);
    } else {
        assert(params.take(n) =~= params);
    }
}

/// Builds the context in which a called task starts.
pub fn bind_call(call: &TaskCall, caller: &ParamContext) -> (result: Result<
    ParamContext,
    UnboundVariable,
>)
    ensures
        match result {
            Ok(context) => called_context(bindings(call.params), caller@) == Ok::<
                Map<Seq<char>, Seq<char>>,
                Seq<char>,
            >(context@),
            Err(e) => called_context(bindings(call.params), caller@) == Err::<
                Map<Seq<char>, Seq<char>>,
                Seq<char>,
            >(e.name@),
        },
{
    let ghost all = bindings(call.params);
    let count = call.params.len();
    let mut context = ParamContext::default();
    let mut i: usize = 0;
    assert(all.take(0) =~= Seq::empty());
    while i < count
        invariant
            i <= count == all.len(),
            count == call.params.names().len(),
            count == call.params.values().len(),
            all == bindings(call.params),
            called_context(all.take(i as int), caller@) == Ok::<
                Map<Seq<char>, Seq<char>>,
                Seq<char>,
            >(context@),
        decreases count - i,
    {
        assert(all.take(i + 1).drop_last() =~= all.take(i as int));
        assert(all.take(i + 1).last() == all[i as int]);
        match call.params.get_index(i) {
            Some((name, argument)) => match argument.render(caller) {
                Ok(value) => {
                    context.set(name.as_str(), value.as_str());
                },
                Err(e) => {
                    proof {
                        lemma_called_context_prefix_error(all, i + 1, caller@);
                    }
                    return Err(e);
                },
            },
            None => {},
        }
        i += 1;
    }
    assert(all.take(count as int) =~= all);
    Ok(context)
}

/// One invocation of a task.
#[derive(Debug)]
pub struct Frame<'a> {
    task: &'a Task,
    context: ParamContext,
    stage: Stage,
    phase: Phase,
    next: usize,
    outcome: ExitOutcome,
    directory: String,
}

impl<'a> DeepView for Frame<'a> {
    type V = FrameView;

    closed spec fn deep_view(&self) -> FrameView {
        FrameView {
            task: *self.task,
            context: self.context@,
            stage: self.stage,
            phase: self.phase,
            next: self.next as int,
            outcome: self.outcome,
            directory: self.directory@,
        }
    }
}

impl<'a> Frame<'a> {
    /// Takes note of how the action that was started ended.
    fn complete(&mut self, outcome: ExitOutcome)
        ensures
            final(self).deep_view() == old(self).deep_view().completed(outcome),
    {
        self.stage = Stage::Acting;
        match self.phase {
            Phase::Primary => {
                self.outcome = outcome;
                match outcome {
                    ExitOutcome::Succeeded => {},
                    _ => {
                        self.phase = Phase::OnFailure;
                        self.next = 0;
                    },
                }
            },
            _ => {},
        }
    }
}

impl Step {
    /// The step as a mathematical value, with the invocations that it leaves
    /// under way.
    pub open spec fn with(self, frames: Seq<FrameView>) -> StepView {
        StepView {
            frames,
            message: self.message.deep_view(),
            request: self.request.deep_view(),
        }
    }
}

/// One run of a task.
#[derive(Debug)]
pub struct Run<'a> {
    registry: &'a TaskerieContext,
    frames: Vec<Frame<'a>>,
}

impl<'a> Run<'a> {
    /// The registry in which the run looks up the tasks that it calls.
    pub closed spec fn registry(&self) -> TaskerieContext {
        *self.registry
    }

    /// The invocations that are under way, the innermost last.
    pub closed spec fn frames(&self) -> Seq<FrameView> {
        self.frames.deep_view()
    }

    fn push(&mut self, frame: Frame<'a>)
        ensures
            final(self).frames() == old(self).frames().push(frame.deep_view()),
            final(self).registry() == old(self).registry(),
    {
        self.frames.push(frame);
        assert(self.frames.deep_view() =~= old(self).frames.deep_view().push(frame.deep_view()));
    }

    fn pop(&mut self) -> (top: Option<Frame<'a>>)
        ensures
            final(self).registry() == old(self).registry(),
            match top {
                Some(frame) => old(self).frames().len() > 0 && final(self).frames() == old(
                    self,
                ).frames().drop_last() && frame.deep_view() == old(self).frames().last(),
                None => old(self).frames().len() == 0 && final(self).frames() == old(self).frames(),
            },
    {
        let top = self.frames.pop();
        assert(top is Some ==> self.frames.deep_view() =~= old(self).frames.deep_view().drop_last());
        top
    }

    /// Ends the innermost invocation, which has been taken off already.
    fn finish(&mut self, outcome: ExitOutcome, message: Option<ExecutionMessage>) -> (step: Step)
        ensures
            step.with(final(self).frames()) == finished(
                old(self).frames(),
                outcome,
                message.deep_view(),
            ),
            final(self).registry() == old(self).registry(),
    {
        match self.pop() {
            None => Step { message, request: Request::Finished(outcome) },
            Some(mut caller) => {
                caller.complete(outcome);
                self.push(caller);
                Step { message, request: Request::Continue }
            },
        }
    }

    /// Binds the parameters of an invocation: each declared parameter that
    /// the context does not bind gets its default, and the first that has
    /// none ends the invocation.
    fn run_task(&mut self, frame: Frame<'a>) -> (step: Step)
        ensures
            step.with(final(self).frames()) == bind_step(old(self).frames(), frame.deep_view()),
            final(self).registry() == old(self).registry(),
    {
        let ghost begun = frame.deep_view();
        let ghost all = declared(*frame.task);
        let task: &'a Task = frame.task;
        let mut current = frame;
        let count = task.params.len();
        let mut i: usize = 0;
        assert(all.take(0) =~= Seq::empty());
        while i < count
            invariant
                i <= count == all.len(),
                count == task.params.names().len(),
                count == task.params.values().len(),
                all == declared(*task),
                task == begun.task,
                begun == frame.deep_view(),
                current.deep_view() == (FrameView { context: current.context@, ..begun }),
                with_defaults(all.take(i as int), begun.context) == Ok::<
                    Map<Seq<char>, Seq<char>>,
                    Seq<char>,
                >(current.context@),
                self.frames() == old(self).frames(),
                self.registry() == old(self).registry(),
            decreases count - i,
        {
            assert(all.take(i + 1).drop_last() =~= all.take(i as int));
            assert(all.take(i + 1).last() == all[i as int]);
            match task.params.get_index(i) {
                Some((name, param)) => {
                    if !current.context.has(name.as_str()) {
                        match &param.default {
                            Some(default) => {
                                current.context.set(name.as_str(), default.as_str());
                            },
                            None => {
                                proof {
                                    lemma_with_defaults_prefix_error(all, i + 1, begun.context);
                                }
                                let message = ExecutionMessage::MissingRequiredTaskParameter {
                                    parameter_name: name.clone(),
                                };
                                return self.finish(ExitOutcome::Undetermined, Some(message));
                            },
                        }
                    }
                },
                None => {},
            }
            i += 1;
        }
        assert(all.take(count as int) =~= all);
        current.stage = Stage::Locating;
        self.push(current);
        Step { message: None, request: Request::Continue }
    }

    /// Renders the working directory of an invocation and asks for it to be
    /// resolved.
    fn locate(&mut self, frame: Frame<'a>) -> (result: Result<Step, RunError>)
        ensures
            match result {
                Ok(step) => locate_step(old(self).frames(), frame.deep_view()) == Ok::<
                    StepView,
                    RunFailure,
                >(step.with(final(self).frames())),
                Err(e) => locate_step(old(self).frames(), frame.deep_view()) == Err::<
                    StepView,
                    RunFailure,
                >(e.deep_view()) && final(self).frames() == old(self).frames().push(
                    frame.deep_view(),
                ),
            },
            final(self).registry() == old(self).registry(),
    {
        let mut frame = frame;
        let task: &'a Task = frame.task;
        let path = match &task.working_directory {
            Some(template) => match template.render(&frame.context) {
                Ok(path) => path,
                Err(TemplateError::UnboundVariable(name)) => {
                    self.push(frame);
                    return Err(RunError::UnboundVariable(name));
                },
                Err(TemplateError::MisplacedVariable(index)) => {
                    self.push(frame);
                    return Err(RunError::MisplacedVariable(index));
                },
            },
            None => "./".to_owned(),
        };
        frame.directory = path.clone();
        frame.stage = Stage::Resolving;
        self.push(frame);
        Ok(Step { message: None, request: Request::ResolveDirectory(path) })
    }

    /// Takes note of whether the working directory of an invocation exists.
    fn resolve(&mut self, frame: Frame<'a>, found: Option<String>) -> (step: Step)
        ensures
            step.with(final(self).frames()) == resolve_step(
                old(self).frames(),
                frame.deep_view(),
                found.deep_view(),
            ),
            final(self).registry() == old(self).registry(),
    {
        let mut frame = frame;
        match found {
            Some(directory) => {
                frame.directory = directory;
                frame.stage = Stage::Acting;
                self.push(frame);
                Step { message: None, request: Request::Continue }
            },
            None => {
                let message = ExecutionMessage::WorkingDirectoryNotFound { path: frame.directory };
                self.finish(ExitOutcome::Undetermined, Some(message))
            },
        }
    }

    /// Starts the next action of an invocation, or ends its list of actions.
    fn run_action(&mut self, frame: Frame<'a>) -> (result: Result<Step, RunError>)
        ensures
            match result {
                Ok(step) => act_step(old(self).registry(), old(self).frames(), frame.deep_view())
                    == Ok::<StepView, RunFailure>(step.with(final(self).frames())),
                Err(e) => act_step(old(self).registry(), old(self).frames(), frame.deep_view())
                    == Err::<StepView, RunFailure>(e.deep_view()) && final(self).frames() == old(
                    self,
                ).frames().push(frame.deep_view()),
            },
            final(self).registry() == old(self).registry(),
    {
        let mut frame = frame;
        let task: &'a Task = frame.task;
        let list: &'a Vec<Action> = match frame.phase {
            Phase::Primary => &task.actions,
            Phase::OnSuccess => &task.on_success,
            Phase::OnFailure => &task.on_failure,
        };
        if frame.next >= list.len() {
            match frame.phase {
                Phase::Primary => {
                    frame.phase = Phase::OnSuccess;
                    frame.next = 0;
                    self.push(frame);
                    Ok(Step { message: None, request: Request::Continue })
                },
                _ => Ok(self.finish(frame.outcome, None)),
            }
        } else {
            let action = &list[frame.next];
            let ghost before = frame.deep_view();
            frame.next = frame.next + 1;
            match action {
                Action::Command(command) => self.start_command(frame, command, Ghost(before)),
                Action::TaskCall(call) => self.run_task_from_action(frame, call, Ghost(before)),
            }
        }
    }

    /// Starts a command: its line is rendered and announced.
    fn start_command(
        &mut self,
        frame: Frame<'a>,
        command: &Command,
        Ghost(before): Ghost<FrameView>,
    ) -> (result: Result<Step, RunError>)
        requires
            0 <= before.next < before.list().len(),
            before.list()[before.next] == Action::Command(*command),
            frame.deep_view() == (FrameView { next: before.next + 1, ..before }),
        ensures
            match result {
                Ok(step) => act_step(old(self).registry(), old(self).frames(), before) == Ok::<
                    StepView,
                    RunFailure,
                >(step.with(final(self).frames())),
                Err(e) => act_step(old(self).registry(), old(self).frames(), before) == Err::<
                    StepView,
                    RunFailure,
                >(e.deep_view()) && final(self).frames() == old(self).frames().push(before),
            },
            final(self).registry() == old(self).registry(),
    {
        let mut frame = frame;
        let text = match command.render(&frame.context) {
            Ok(text) => text,
            Err(e) => {
                frame.next = frame.next - 1;
                self.push(frame);
                return Err(RunError::UnboundVariable(e.name));
            },
        };
        frame.stage = Stage::Process;
        let working_directory = frame.directory.clone();
        let message = ExecutionMessage::AboutToRunCommand {
            command: text.clone(),
            working_directory: working_directory.clone(),
        };
        self.push(frame);
        Ok(
            Step {
                message: Some(message),
                request: Request::RunCommand { command: text, working_directory },
            },
        )
    }

    /// Starts the call of a task: the task is looked up, and its invocation
    /// begins in a context of its own.
    fn run_task_from_action(
        &mut self,
        frame: Frame<'a>,
        task_call: &TaskCall,
        Ghost(before): Ghost<FrameView>,
    ) -> (result: Result<Step, RunError>)
        requires
            0 <= before.next < before.list().len(),
            before.list()[before.next] == Action::TaskCall(*task_call),
            frame.deep_view() == (FrameView { next: before.next + 1, ..before }),
        ensures
            match result {
                Ok(step) => act_step(old(self).registry(), old(self).frames(), before) == Ok::<
                    StepView,
                    RunFailure,
                >(step.with(final(self).frames())),
                Err(e) => act_step(old(self).registry(), old(self).frames(), before) == Err::<
                    StepView,
                    RunFailure,
                >(e.deep_view()) && final(self).frames() == old(self).frames().push(before),
            },
            final(self).registry() == old(self).registry(),
    {
        let mut frame = frame;
        let registry: &'a TaskerieContext = self.registry;
        let task = match registry.tasks.get(task_call.name.as_str()) {
            Some(task) => task,
            None => {
                frame.next = frame.next - 1;
                self.push(frame);
                return Err(RunError::UnknownTask(task_call.name.clone()));
            },
        };
        let context = match bind_call(task_call, &frame.context) {
            Ok(context) => context,
            Err(e) => {
                frame.next = frame.next - 1;
                self.push(frame);
                return Err(RunError::UnboundVariable(e.name));
            },
        };
        self.push(frame);
        self.push(
            Frame {
                task,
                context,
                stage: Stage::Binding,
                phase: Phase::Primary,
                next: 0,
                outcome: ExitOutcome::Succeeded,
                directory: String::new(),
            },
        );
        Ok(Step { message: None, request: Request::Continue })
    }

    /// Takes note of what the running command did: a line of output, or its
    /// end.
    fn read_command(&mut self, frame: Frame<'a>, event: Event) -> (result: Result<Step, RunError>)
        ensures
            match result {
                Ok(step) => process_step(old(self).frames(), frame.deep_view(), event.deep_view())
                    == Ok::<StepView, RunFailure>(step.with(final(self).frames())),
                Err(e) => process_step(old(self).frames(), frame.deep_view(), event.deep_view())
                    == Err::<StepView, RunFailure>(e.deep_view()) && final(self).frames() == old(
                    self,
                ).frames().push(frame.deep_view()),
            },
            final(self).registry() == old(self).registry(),
    {
        let mut frame = frame;
        match event {
            Event::Output(output) => {
                self.push(frame);
                Ok(
                    Step {
                        message: Some(ExecutionMessage::CommandOutput { output }),
                        request: Request::ReadProcess,
                    },
                )
            },
            Event::Exited(success) => {
                if success {
                    frame.complete(ExitOutcome::Succeeded);
                    self.push(frame);
                    Ok(
                        Step {
                            message: Some(ExecutionMessage::CommandSucceeded),
                            request: Request::Continue,
                        },
                    )
                } else {
                    frame.complete(ExitOutcome::Failed);
                    self.push(frame);
                    Ok(
                        Step {
                            message: Some(ExecutionMessage::CommandFailed),
                            request: Request::Continue,
                        },
                    )
                }
            },
            _ => {
                self.push(frame);
                Err(RunError::UnexpectedEvent)
            },
        }
    }

    /// Moves the run on by one transition. Where the step is refused, the run
    /// is left as it was.
    pub fn step(&mut self, event: Event) -> (result: Result<Step, RunError>)
        ensures
            match result {
                Ok(step) => next(old(self).registry(), old(self).frames(), event.deep_view())
                    == Ok::<StepView, RunFailure>(step.with(final(self).frames())),
                Err(e) => next(old(self).registry(), old(self).frames(), event.deep_view())
                    == Err::<StepView, RunFailure>(e.deep_view()) && final(self).frames() == old(
                    self,
                ).frames(),
            },
            final(self).registry() == old(self).registry(),
    {
        let frame = match self.pop() {
            Some(frame) => frame,
            None => {
                return Err(RunError::NotRunning);
            },
        };
        assert(old(self).frames().drop_last().push(old(self).frames().last()) =~= old(
            self,
        ).frames());
        match frame.stage {
            Stage::Binding => match event {
                Event::Resume => Ok(self.run_task(frame)),
                _ => {
                    self.push(frame);
                    Err(RunError::UnexpectedEvent)
                },
            },
            Stage::Locating => match event {
                Event::Resume => self.locate(frame),
                _ => {
                    self.push(frame);
                    Err(RunError::UnexpectedEvent)
                },
            },
            Stage::Resolving => match event {
                Event::Directory(found) => Ok(self.resolve(frame, found)),
                _ => {
                    self.push(frame);
                    Err(RunError::UnexpectedEvent)
                },
            },
            Stage::Acting => match event {
                Event::Resume => self.run_action(frame),
                _ => {
                    self.push(frame);
                    Err(RunError::UnexpectedEvent)
                },
            },
            Stage::Process => self.read_command(frame, event),
        }
    }
}

/// The messages of one command, in order: its announcement, a message for
/// each line that it wrote, and its end.
pub open spec fn command_messages(
    command: Seq<char>,
    working_directory: Seq<char>,
    output: Seq<Seq<char>>,
    success: bool,
) -> Seq<Message> {
    seq![Message::AboutToRunCommand { command, working_directory }] + Seq::new(
        output.len(),
        |i: int| Message::CommandOutput { output: output[i] },
    ) + seq![
        if success {
            Message::CommandSucceeded
        } else {
            Message::CommandFailed
        },
    ]
}

/// Reports one command from its start to its end, given the directory in
/// which it ran, the lines that it wrote and whether it ended with success:
/// the outcome, and the messages in the order in which a run reports them.
pub fn run_command(
    command: &Command,
    working_directory: &str,
    param_context: &ParamContext,
    output: Vec<String>,
    success: bool,
) -> (result: Result<(ExitOutcome, Vec<ExecutionMessage>), UnboundVariable>)
    ensures
        match result {
            Ok((outcome, messages)) => {
                &&& command_line(command.deep_view(), param_context@) matches Ok(text)
                &&& messages.deep_view() == command_messages(
                    text,
                    working_directory@,
                    output.deep_view(),
                    success,
                )
                &&& outcome == if success {
                    ExitOutcome::Succeeded
                } else {
                    ExitOutcome::Failed
                }
            },
            Err(e) => command_line(command.deep_view(), param_context@) == Err::<
                Seq<char>,
                Seq<char>,
            >(e.name@),
        },
{
    let text = match command.render(param_context) {
        Ok(text) => text,
        Err(e) => {
            return Err(e);
        },
    };
    let ghost lines = output.deep_view();
    let ghost written = output@;
    let ghost announced = Message::AboutToRunCommand {
        command: text@,
        working_directory: working_directory@,
    };
    let mut messages: Vec<ExecutionMessage> = Vec::new();
    messages.push(
        ExecutionMessage::AboutToRunCommand {
            command: text,
            working_directory: working_directory.to_owned(),
        },
    );
    let len = output.len();
    let mut count: usize = 0;
    assert(messages.deep_view() =~= seq![announced] + Seq::new(
        0,
        |i: int| Message::CommandOutput { output: lines[i] },
    ));
    for line in rest: output
        invariant
            rest.seq() == written,
            lines == output.deep_view(),
            written == output@,
            count == rest.index(),
            count <= written.len() == len,
            messages.deep_view() == seq![announced] + Seq::new(
                count as nat,
                |i: int| Message::CommandOutput { output: lines[i] },
            ),
    {
        let ghost before = messages.deep_view();
        assert(line@ == lines[count as int]) by {
            assert(written[count as int] == line);
        }
        messages.push(ExecutionMessage::CommandOutput { output: line });
        count = count + 1;
        assert(messages.deep_view() =~= seq![announced] + Seq::new(
            count as nat,
            |i: int| Message::CommandOutput { output: lines[i] },
        )) by {
            assert(messages.deep_view() =~= before.push(
                Message::CommandOutput { output: lines[count - 1] },
            ));
        }
    }
    let ghost before = messages.deep_view();
    if success {
        messages.push(ExecutionMessage::CommandSucceeded);
        assert(messages.deep_view() =~= before.push(Message::CommandSucceeded));
        Ok((ExitOutcome::Succeeded, messages))
    } else {
        messages.push(ExecutionMessage::CommandFailed);
        assert(messages.deep_view() =~= before.push(Message::CommandFailed));
        Ok((ExitOutcome::Failed, messages))
    }
}

/// The names of the first `n` tasks of a registry that can run without any
/// parameter handed to them, in the order of the registry.
pub open spec fn standalone_names(registry: TaskerieContext, n: int) -> Seq<Seq<char>>
    decreases n,
{
    if n <= 0 {
        Seq::empty()
    } else if registry.tasks.values()[n - 1].standalone() {
        standalone_names(registry, n - 1).push(registry.tasks.names()[n - 1])
    } else {
        standalone_names(registry, n - 1)
    }
}

impl TaskerieContext {
    /// The names of the tasks that can run without any parameter handed to
    /// them, in the order in which the tasks were declared.
    #[must_use]
    pub fn get_all_standalone_task_names(&self) -> (names: Vec<String>)
        ensures
            names.deep_view() == standalone_names(*self, self.tasks.names().len() as int),
    {
        let count = self.tasks.len();
        let mut names: Vec<String> = Vec::new();
        let mut i: usize = 0;
        assert(names.deep_view() =~= Seq::empty());
        while i < count
            invariant
                i <= count == self.tasks.names().len(),
                count == self.tasks.values().len(),
                names.deep_view() == standalone_names(*self, i as int),
            decreases count - i,
        {
            let ghost before = names.deep_view();
            match self.tasks.get_index(i) {
                Some((name, task)) => {
                    if task.is_standalone() {
                        names.push(name.clone());
                        assert(names.deep_view() =~= before.push(name@));
                    }
                },
                None => {},
            }
            i += 1;
        }
        names
    }

    /// The task of this name.
    #[must_use]
    pub fn get_task_by_name(&self, name: &str) -> (found: Option<&Task>)
        ensures
            match found {
                Some(task) => self.tasks.lookup(name@) == Some(*task),
                None => self.tasks.lookup(name@) is None,
            },
    {
        self.tasks.get(name)
    }

    /// Begins a run of the task of this name in the given context. Nothing is
    /// done yet: the run goes on by [`Run::step`], the first event being
    /// [`Event::Resume`].
    pub fn run_task_by_name<'a>(&'a self, name: &str, param_context: ParamContext) -> (result:
        Result<Run<'a>, RunError>)
        ensures
            match result {
                Ok(run) => match self.tasks.lookup(name@) {
                    Some(task) => run.frames() == seq![FrameView::start(task, param_context@)]
                        && run.registry() == *self,
                    None => false,
                },
                Err(e) => self.tasks.lookup(name@) is None && e.deep_view()
                    == RunFailure::UnknownTask(name@),
            },
    {
        match self.get_task_by_name(name) {
            Some(task) => {
                let mut frames: Vec<Frame<'a>> = Vec::new();
                frames.push(
                    Frame {
                        task,
                        context: param_context,
                        stage: Stage::Binding,
                        phase: Phase::Primary,
                        next: 0,
                        outcome: ExitOutcome::Succeeded,
                        directory: String::new(),
                    },
                );
                let run = Run { registry: self, frames };
                assert(run.frames() =~= seq![FrameView::start(*task, param_context@)]);
                Ok(run)
            },
            None => Err(RunError::UnknownTask(name.to_owned())),
        }
    }
}

} // verus!
