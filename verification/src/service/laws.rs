//! What holds of every run.

use crate::message::Message;
use crate::model::action::Component;
use crate::model::task::Task;
use crate::model::TaskerieContext;
use crate::service::render::{command_line, rendered};
use crate::service::{
    command_messages, act_step, called_context, declared, finished, next, with_defaults, EventView, ExitOutcome,
    FrameView, Phase, RequestView, RunFailure, Stage, StepView,
};
use vstd::prelude::*;

verus! {

/// The names of declared parameters.
pub open spec fn declared_names(params: Seq<(Seq<char>, Option<Seq<char>>)>) -> Seq<Seq<char>> {
    Seq::new(params.len(), |i: int| params[i].0)
}

/// Binding defaults binds no name but those that the context binds already
/// and those that are declared.
pub proof fn lemma_with_defaults_domain(
    params: Seq<(Seq<char>, Option<Seq<char>>)>,
    context: Map<Seq<char>, Seq<char>>,
)
    ensures
        with_defaults(params, context) matches Ok(bound) ==> forall|name: Seq<char>|
            #[trigger] bound.contains_key(name) ==> context.contains_key(name) || declared_names(
                params,
            ).contains(name),
    decreases params.len(),
{
    if params.len() > 0 {
        let front = params.drop_last();
        lemma_with_defaults_domain(front, context);
        if let Ok(bound) = with_defaults(params, context) {
            let earlier = with_defaults(front, context)->Ok_0;
            assert forall|name: Seq<char>| #[trigger] bound.contains_key(name) implies (
            context.contains_key(name) || declared_names(params).contains(name)) by {
                if earlier.contains_key(name) {
                    if !context.contains_key(name) {
                        let j = choose|j: int|
                            0 <= j < front.len() && declared_names(front)[j] == name;
                        assert(declared_names(params)[j] == name);
                    }
                } else {
                    assert(declared_names(params)[params.len() - 1] == name);
                }
            }
        }
    }
}

/// Binding defaults leaves what the context binds as it is: a default never
/// takes the place of a value that was handed in.
pub proof fn lemma_with_defaults_keeps_bindings(
    params: Seq<(Seq<char>, Option<Seq<char>>)>,
    context: Map<Seq<char>, Seq<char>>,
    name: Seq<char>,
)
    requires
        with_defaults(params, context) is Ok,
        context.contains_key(name),
    ensures
        with_defaults(params, context)->Ok_0.contains_key(name),
        with_defaults(params, context)->Ok_0[name] == context[name],
    decreases params.len(),
{
    if params.len() > 0 {
        lemma_with_defaults_keeps_bindings(params.drop_last(), context, name);
    }
}

/// Binding defaults binds every declared parameter.
pub proof fn lemma_with_defaults_binds_all(
    params: Seq<(Seq<char>, Option<Seq<char>>)>,
    context: Map<Seq<char>, Seq<char>>,
    i: int,
)
    requires
        with_defaults(params, context) is Ok,
        0 <= i < params.len(),
    ensures
        with_defaults(params, context)->Ok_0.contains_key(params[i].0),
    decreases params.len(),
{
    let front = params.drop_last();
    if i < params.len() - 1 {
        lemma_with_defaults_binds_all(front, context, i);
        assert(front[i] == params[i]);
    }
}

/// A declared parameter that has no default and that the context does not
/// bind makes the binding of defaults fail.
pub proof fn lemma_with_defaults_fails(
    params: Seq<(Seq<char>, Option<Seq<char>>)>,
    context: Map<Seq<char>, Seq<char>>,
    i: int,
)
    requires
        declared_names(params).no_duplicates(),
        0 <= i < params.len(),
        params[i].1 is None,
        !context.contains_key(params[i].0),
    ensures
        with_defaults(params, context) is Err,
    decreases params.len(),
{
    let front = params.drop_last();
    assert forall|a: int, b: int| 0 <= a < front.len() && 0 <= b < front.len() && a != b implies
        declared_names(front)[a] != declared_names(front)[b] by {
        assert(declared_names(params)[a] == declared_names(front)[a]);
        assert(declared_names(params)[b] == declared_names(front)[b]);
    }
    if i < params.len() - 1 {
        lemma_with_defaults_fails(front, context, i);
    } else if let Ok(bound) = with_defaults(front, context) {
        lemma_with_defaults_domain(front, context);
        if bound.contains_key(params[i].0) {
            let j = choose|j: int| 0 <= j < front.len() && declared_names(front)[j] == params[i].0;
            assert(declared_names(params)[j] == declared_names(params)[i]);
        }
    }
}

/// A task that requires a parameter which the context does not bind is over
/// after one step: the step reports the missing parameter, the outcome is
/// `Undetermined`, and nothing is left to run, so that no command is ever
/// announced.
pub proof fn lemma_required_parameter_missing(
    registry: TaskerieContext,
    task: Task,
    context: Map<Seq<char>, Seq<char>>,
    i: int,
)
    requires
        task.params.wf(),
        0 <= i < declared(task).len(),
        declared(task)[i].1 is None,
        !context.contains_key(declared(task)[i].0),
    ensures
        with_defaults(declared(task), context) is Err,
        next(registry, seq![FrameView::start(task, context)], EventView::Resume) == Ok::<
            StepView,
            RunFailure,
        >(
            StepView {
                frames: Seq::empty(),
                message: Some(
                    Message::MissingRequiredTaskParameter {
                        parameter_name: with_defaults(declared(task), context)->Err_0,
                    },
                ),
                request: RequestView::Finished(ExitOutcome::Undetermined),
            },
        ),
{
    assert(declared_names(declared(task)) =~= task.params.names());
    lemma_with_defaults_fails(declared(task), context, i);
    let frames = seq![FrameView::start(task, context)];
    assert(frames.drop_last() =~= Seq::empty());
}

/// A run that is over takes no further step.
pub proof fn lemma_finished_run_stays_finished(registry: TaskerieContext, event: EventView)
    ensures
        next(registry, Seq::empty(), event) == Err::<StepView, RunFailure>(RunFailure::NotRunning),
{
}

/// How a task moves between its lists of actions.
///
/// A primary action that does not succeed ends the primary list: the failure
/// hooks are next, all of them. A primary list that comes to its end, every
/// action having succeeded, is followed by the success hooks, all of them.
/// How a hook ends changes neither the list nor the recorded outcome, and at
/// the end of a list of hooks the invocation ends with the outcome that the
/// primary list left.
pub proof fn lemma_hooks(
    registry: TaskerieContext,
    below: Seq<FrameView>,
    frame: FrameView,
    outcome: ExitOutcome,
)
    ensures
        frame.phase is Primary && !(outcome is Succeeded) ==> {
            &&& frame.completed(outcome).phase is OnFailure
            &&& frame.completed(outcome).upcoming() == frame.task.on_failure@
            &&& frame.completed(outcome).outcome == outcome
        },
        frame.phase is Primary && outcome is Succeeded ==> {
            &&& frame.completed(outcome).phase is Primary
            &&& frame.completed(outcome).upcoming() == frame.upcoming()
        },
        !(frame.phase is Primary) ==> frame.completed(outcome) == (FrameView {
            stage: Stage::Acting,
            ..frame
        }),
        frame.phase is Primary && frame.next == frame.list().len() ==> {
            let then = FrameView { phase: Phase::OnSuccess, next: 0, ..frame };
            &&& act_step(registry, below, frame) == Ok::<StepView, RunFailure>(
                StepView {
                    frames: below.push(then),
                    message: None,
                    request: RequestView::Continue,
                },
            )
            &&& then.upcoming() == frame.task.on_success@
        },
        !(frame.phase is Primary) && frame.next == frame.list().len() ==> act_step(
            registry,
            below,
            frame,
        ) == Ok::<StepView, RunFailure>(finished(below, frame.outcome, None)),
{
    assert(frame.task.on_failure@.skip(0) =~= frame.task.on_failure@);
    assert(frame.task.on_success@.skip(0) =~= frame.task.on_success@);
}

/// Once a task is in one of its lists of hooks it stays in that list: no step
/// of a run moves an invocation from the failure hooks to the success hooks,
/// from the success hooks to the failure hooks, or back to the primary list.
pub proof fn lemma_hook_lists_are_final(
    registry: TaskerieContext,
    frames: Seq<FrameView>,
    event: EventView,
    j: int,
)
    requires
        next(registry, frames, event) is Ok,
        0 <= j < frames.len(),
        j < next(registry, frames, event)->Ok_0.frames.len(),
    ensures
        next(registry, frames, event)->Ok_0.frames[j].task == frames[j].task,
        !(frames[j].phase is Primary) ==> next(registry, frames, event)->Ok_0.frames[j].phase
            == frames[j].phase,
        !(frames[j].phase is Primary) ==> next(registry, frames, event)->Ok_0.frames[j].outcome
            == frames[j].outcome,
{
    let below = frames.drop_last();
    if below.len() > 0 {
        assert(below.last() == frames[frames.len() - 2]);
    }
}

/// Whether an invocation is one that a run can come to: the position of its
/// next action lies within its list, and as long as its parameters are not
/// bound and its working directory is not resolved it has started nothing.
pub open spec fn consistent(frame: FrameView) -> bool {
    &&& 0 <= frame.next <= frame.list().len()
    &&& frame.stage is Binding || frame.stage is Locating || frame.stage is Resolving
        ==> frame.phase is Primary && frame.next == 0
}

/// Whether every invocation that is under way is consistent.
pub open spec fn all_consistent(frames: Seq<FrameView>) -> bool {
    forall|j: int| 0 <= j < frames.len() ==> consistent(#[trigger] frames[j])
}

/// A run begins with a consistent invocation, and every step of a run leaves
/// consistent what was consistent.
pub proof fn lemma_consistency_kept(
    registry: TaskerieContext,
    frames: Seq<FrameView>,
    event: EventView,
)
    requires
        all_consistent(frames),
        next(registry, frames, event) is Ok,
    ensures
        all_consistent(next(registry, frames, event)->Ok_0.frames),
        forall|task: Task, context: Map<Seq<char>, Seq<char>>|
            consistent(#[trigger] FrameView::start(task, context)),
{
    let later = next(registry, frames, event)->Ok_0.frames;
    let below = frames.drop_last();
    assert(consistent(frames[frames.len() - 1]));
    assert forall|j: int| 0 <= j < later.len() implies consistent(#[trigger] later[j]) by {
        if j < below.len() {
            assert(consistent(frames[j]));
        }
    }
}

/// An invocation that is in one of its lists of hooks ends only when every
/// action of that list has been started.
pub proof fn lemma_hooks_end_when_exhausted(
    registry: TaskerieContext,
    frames: Seq<FrameView>,
    event: EventView,
)
    requires
        all_consistent(frames),
        frames.len() > 0,
        !(frames.last().phase is Primary),
        next(registry, frames, event) is Ok,
        next(registry, frames, event)->Ok_0.frames.len() < frames.len(),
    ensures
        frames.last().stage is Acting,
        frames.last().next == frames.last().list().len(),
        frames.last().upcoming().len() == 0,
{
    assert(consistent(frames[frames.len() - 1]));
}

/// The invocations that are under way after a run was fed `events`, where
/// the run took every one of them and never had `depth` invocations or
/// fewer left.
pub open spec fn reached(
    registry: TaskerieContext,
    frames: Seq<FrameView>,
    events: Seq<EventView>,
    depth: int,
) -> Option<Seq<FrameView>>
    decreases events.len(),
{
    if events.len() == 0 {
        Some(frames)
    } else {
        match next(registry, frames, events[0]) {
            Ok(step) => if step.frames.len() > depth {
                reached(registry, step.frames, events.drop_first(), depth)
            } else {
                None
            },
            Err(_) => None,
        }
    }
}

/// For as long as an invocation that is in one of its lists of hooks is
/// under way, whatever the run is fed, it stays in that list, of the same
/// task, with the outcome that its primary list left: after a failure no
/// success hook is ever started, and after a success no failure hook.
pub proof fn lemma_hooks_never_switch(
    registry: TaskerieContext,
    frames: Seq<FrameView>,
    events: Seq<EventView>,
    j: int,
)
    requires
        0 <= j < frames.len(),
        !(frames[j].phase is Primary),
        reached(registry, frames, events, j) is Some,
    ensures
        reached(registry, frames, events, j)->Some_0.len() > j,
        reached(registry, frames, events, j)->Some_0[j].phase == frames[j].phase,
        reached(registry, frames, events, j)->Some_0[j].task == frames[j].task,
        reached(registry, frames, events, j)->Some_0[j].outcome == frames[j].outcome,
    decreases events.len(),
{
    if events.len() > 0 {
        let step = next(registry, frames, events[0])->Ok_0;
        lemma_hook_lists_are_final(registry, frames, events[0], j);
        lemma_hooks_never_switch(registry, step.frames, events.drop_first(), j);
    }
}

/// The context of a called task binds the names that the call binds and no
/// others: a variable of the caller that the call does not hand on is not
/// bound in it.
pub proof fn lemma_called_context_domain(
    params: Seq<(Seq<char>, Seq<Component>)>,
    caller: Map<Seq<char>, Seq<char>>,
    name: Seq<char>,
)
    requires
        called_context(params, caller) is Ok,
    ensures
        called_context(params, caller)->Ok_0.contains_key(name) <==> exists|i: int|
            0 <= i < params.len() && (#[trigger] params[i]).0 == name,
    decreases params.len(),
{
    if params.len() > 0 {
        let front = params.drop_last();
        lemma_called_context_domain(front, caller, name);
        let bound = called_context(params, caller)->Ok_0;
        if bound.contains_key(name) {
            if params.last().0 == name {
                assert(params[params.len() - 1].0 == name);
            } else {
                let i = choose|i: int| 0 <= i < front.len() && (#[trigger] front[i]).0 == name;
                assert(params[i].0 == name);
            }
        } else {
            if exists|i: int| 0 <= i < params.len() && (#[trigger] params[i]).0 == name {
                let i = choose|i: int| 0 <= i < params.len() && (#[trigger] params[i]).0 == name;
                if i < front.len() {
                    assert(front[i].0 == name);
                }
            }
        }
    }
}

/// What a called task sees of a variable does not depend on what the caller
/// binds it to, unless a value of the call refers to it: the value of each
/// binding is the rendering of its argument and of nothing else.
pub proof fn lemma_called_context_values(
    params: Seq<(Seq<char>, Seq<Component>)>,
    caller: Map<Seq<char>, Seq<char>>,
    i: int,
)
    requires
        called_context(params, caller) is Ok,
        0 <= i < params.len(),
        forall|j: int| i < j < params.len() ==> (#[trigger] params[j]).0 != params[i].0,
    ensures
        rendered(params[i].1, caller) is Ok,
        called_context(params, caller)->Ok_0.contains_key(params[i].0),
        called_context(params, caller)->Ok_0[params[i].0] == rendered(params[i].1, caller)->Ok_0,
    decreases params.len(),
{
    let front = params.drop_last();
    if i < params.len() - 1 {
        assert forall|j: int| i < j < front.len() implies (#[trigger] front[j]).0 != front[i].0 by {
            assert(params[j].0 != params[i].0);
        }
        lemma_called_context_values(front, caller, i);
        assert(params[params.len() - 1].0 != params[i].0);
    }
}

/// Whether a command is running on the outside.
pub open spec fn running(frames: Seq<FrameView>) -> bool {
    frames.len() > 0 && frames.last().stage is Process
}

/// The messages that a run reports, in order, while it is fed `events`. The
/// run stops reporting at the first event that it refuses.
pub open spec fn trace(
    registry: TaskerieContext,
    frames: Seq<FrameView>,
    events: Seq<EventView>,
) -> Seq<Message>
    decreases events.len(),
{
    if events.len() == 0 {
        Seq::empty()
    } else {
        match next(registry, frames, events[0]) {
            Ok(step) => (match step.message {
                Some(message) => seq![message],
                None => Seq::empty(),
            }) + trace(registry, step.frames, events.drop_first()),
            Err(_) => Seq::empty(),
        }
    }
}

/// Whether messages come in the order of the commands that they speak of:
/// a command is announced only while none is running; lines of output and a
/// command's end are reported only while one is running; and the end of a
/// command closes it. `running` says whether a command is running before
/// the first message.
pub open spec fn ordered(messages: Seq<Message>, running: bool) -> bool
    decreases messages.len(),
{
    if messages.len() == 0 {
        true
    } else {
        let rest = messages.drop_first();
        match messages[0] {
            Message::AboutToRunCommand { .. } => !running && ordered(rest, true),
            Message::CommandOutput { .. } => running && ordered(rest, true),
            Message::CommandSucceeded | Message::CommandFailed => running && ordered(rest, false),
            _ => !running && ordered(rest, false),
        }
    }
}

/// Whatever a run is fed, its messages come in order: every line of output
/// of a command comes after the announcement of that command and before its
/// end, and the end of a command comes before the announcement of the next.
pub proof fn lemma_messages_ordered(
    registry: TaskerieContext,
    frames: Seq<FrameView>,
    events: Seq<EventView>,
)
    ensures
        ordered(trace(registry, frames, events), running(frames)),
    decreases events.len(),
{
    if events.len() > 0 {
        if let Ok(step) = next(registry, frames, events[0]) {
            let rest = trace(registry, step.frames, events.drop_first());
            lemma_messages_ordered(registry, step.frames, events.drop_first());
            let below = frames.drop_last();
            match step.message {
                Some(message) => {
                    assert((seq![message] + rest).drop_first() =~= rest);
                },
                None => {
                    assert(Seq::<Message>::empty() + rest =~= rest);
                },
            }
        }
    }
}

/// What a command does on the outside, as the events that a run is fed: a
/// line of output for each line that it wrote, and its end.
pub open spec fn process_events(output: Seq<Seq<char>>, success: bool) -> Seq<EventView> {
    Seq::new(output.len(), |i: int| EventView::Output(output[i])) + seq![
        EventView::Exited(success),
    ]
}

/// A run whose command is running, fed the lines that the command writes and
/// then its end, reports each line, in the order in which they were written,
/// and then the end, and nothing else.
pub proof fn lemma_process_trace(
    registry: TaskerieContext,
    frames: Seq<FrameView>,
    output: Seq<Seq<char>>,
    success: bool,
)
    requires
        running(frames),
    ensures
        trace(registry, frames, process_events(output, success)) == Seq::new(
            output.len(),
            |i: int| Message::CommandOutput { output: output[i] },
        ) + seq![
            if success {
                Message::CommandSucceeded
            } else {
                Message::CommandFailed
            },
        ],
    decreases output.len(),
{
    let events = process_events(output, success);
    let ended = if success {
        Message::CommandSucceeded
    } else {
        Message::CommandFailed
    };
    let told = Seq::new(output.len(), |i: int| Message::CommandOutput { output: output[i] });
    let step = next(registry, frames, events[0])->Ok_0;
    if output.len() == 0 {
        assert(events[0] == EventView::Exited(success));
        assert(events.drop_first() =~= Seq::<EventView>::empty());
        assert(trace(registry, step.frames, events.drop_first()) =~= Seq::<Message>::empty());
        assert(trace(registry, frames, events) =~= told + seq![ended]);
    } else {
        let rest = output.drop_first();
        assert(events[0] == EventView::Output(output[0]));
        assert(step.frames =~= frames);
        assert(events.drop_first() =~= process_events(rest, success));
        lemma_process_trace(registry, frames, rest, success);
        let later = Seq::new(rest.len(), |i: int| Message::CommandOutput { output: rest[i] });
        assert(seq![Message::CommandOutput { output: output[0] }] + (later + seq![ended]) =~= told
            + seq![ended]);
    }
}

/// A run that is about to start a command, fed what the command does on the
/// outside, reports the command from its start to its end: first the
/// announcement, then every line of output, in order, then the end.
pub proof fn lemma_command_trace(
    registry: TaskerieContext,
    frames: Seq<FrameView>,
    output: Seq<Seq<char>>,
    success: bool,
)
    requires
        frames.len() > 0,
        frames.last().stage is Acting,
        0 <= frames.last().next < frames.last().list().len(),
        frames.last().list()[frames.last().next] is Command,
        command_line(
            frames.last().list()[frames.last().next]->Command_0.deep_view(),
            frames.last().context,
        ) is Ok,
    ensures
        trace(registry, frames, seq![EventView::Resume] + process_events(output, success))
            == command_messages(
            command_line(
                frames.last().list()[frames.last().next]->Command_0.deep_view(),
                frames.last().context,
            )->Ok_0,
            frames.last().directory,
            output,
            success,
        ),
{
    let events = seq![EventView::Resume] + process_events(output, success);
    assert(events[0] == EventView::Resume);
    assert(events.drop_first() =~= process_events(output, success));
    let step = next(registry, frames, EventView::Resume)->Ok_0;
    assert(running(step.frames));
    lemma_process_trace(registry, step.frames, output, success);
}

} // verus!
