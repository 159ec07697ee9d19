//! From the configuration as written to the tasks that the engine runs.

use crate::config;
use crate::model::action::{bindings, Action, ActionView, Argument, Component, TaskCall, TaskCallView};
use crate::model::task::{Param, Task};
use crate::model::InterpolatedString;
use crate::ordered_map::OrderedMap;
use crate::service::action_parser::{bound_names, parse, parse_spec, rebound, ParseError};
use crate::service::braces::{components_from, components_of};
use crate::service::interpolated_string::{template_of, Template, TemplateSyntaxError};
use crate::text::to_chars;
use vstd::prelude::*;

verus! {

/// Why a configuration is refused.
#[derive(PartialEq, Eq, Debug, Clone, Copy)]
pub enum ConfigError {
    /// A line is not an action.
    Action(ParseError),
    /// The value of a parameter of a call holds a `{` that starts no
    /// placeholder, or a placeholder that holds a brace.
    Parameter,
    /// A working directory is not a template.
    WorkingDirectory(TemplateSyntaxError),
}

impl ConfigError {
    /// The text that describes the error.
    pub open spec fn message(self) -> Seq<char> {
        match self {
            ConfigError::Action(error) => error.message(),
            ConfigError::Parameter => "Parameter value is not a template"@,
            ConfigError::WorkingDirectory(_) => "Working directory is not a template"@,
        }
    }

    /// The text that describes the error.
    pub fn to_string(&self) -> (text: String)
        ensures
            text@ == self.message(),
    {
        match self {
            ConfigError::Action(error) => error.to_string(),
            ConfigError::Parameter => "Parameter value is not a template".to_owned(),
            ConfigError::WorkingDirectory(_) => "Working directory is not a template".to_owned(),
        }
    }
}

/// The bindings that the written parameters from position `from` on add to
/// `params`, each value cut into its components.
pub open spec fn written_bindings(
    names: Seq<Seq<char>>,
    values: Seq<String>,
    from: int,
    params: Seq<(Seq<char>, Seq<Component>)>,
) -> Result<Seq<(Seq<char>, Seq<Component>)>, ConfigError>
    decreases values.len() - from,
{
    if from < 0 || from >= values.len() || from >= names.len() {
        Ok(params)
    } else {
        match components_from(values[from]@, 0) {
            Some(components) => written_bindings(
                names,
                values,
                from + 1,
                rebound(params, names[from], components),
            ),
            None => Err(ConfigError::Parameter),
        }
    }
}

/// The action that a written action stands for.
pub open spec fn action_from(action: config::Action) -> Result<ActionView, ConfigError> {
    match action {
        config::Action::TaskCall { name, params } => match written_bindings(
            params.names(),
            params.values(),
            0,
            Seq::empty(),
        ) {
            Ok(params) => Ok(ActionView::TaskCall(TaskCallView { name: name@, params })),
            Err(e) => Err(e),
        },
        config::Action::Command(line) => match parse_spec(line@) {
            Ok(action) => Ok(action),
            Err(e) => Err(ConfigError::Action(e)),
        },
    }
}

/// The actions that written actions stand for; the first that is refused
/// decides.
pub open spec fn actions_from(actions: Seq<config::Action>) -> Result<Seq<ActionView>, ConfigError>
    decreases actions.len(),
{
    if actions.len() == 0 {
        Ok(Seq::empty())
    } else {
        match actions_from(actions.drop_last()) {
            Ok(front) => match action_from(actions.last()) {
                Ok(action) => Ok(front.push(action)),
                Err(e) => Err(e),
            },
            Err(e) => Err(e),
        }
    }
}

/// Where the first `n` written actions are refused, all of them are, in the
/// same way.
pub proof fn lemma_actions_from_prefix_error(actions: Seq<config::Action>, n: int)
    requires
        0 <= n <= actions.len(),
        actions_from(actions.take(n)) is Err,
    ensures
        actions_from(actions) == actions_from(actions.take(n)),
    decreases actions.len() - n,
{
    if n < actions.len() {
        assert(actions.take(n + 1).drop_last() =~= actions.take(n));
        lemma_actions_from_prefix_error(actions, n + 1);
    } else {
        assert(actions.take(n) =~= actions);
    }
}

/// A task as a mathematical value.
pub struct TaskView {
    pub working_directory: Option<Template>,
    pub actions: Seq<ActionView>,
    pub on_success: Seq<ActionView>,
    pub on_failure: Seq<ActionView>,
    pub params: Seq<(Seq<char>, Option<Seq<char>>)>,
}

impl DeepView for Task {
    type V = TaskView;

    open spec fn deep_view(&self) -> TaskView {
        TaskView {
            working_directory: self.working_directory.deep_view(),
            actions: self.actions.deep_view(),
            on_success: self.on_success.deep_view(),
            on_failure: self.on_failure.deep_view(),
            params: crate::service::declared(*self),
        }
    }
}

/// The parameters that a written task declares, each with its default.
pub open spec fn written_params(params: OrderedMap<config::Param>) -> Seq<
    (Seq<char>, Option<Seq<char>>),
> {
    Seq::new(
        params.names().len(),
        |i: int| (params.names()[i], params.values()[i].default.deep_view()),
    )
}

/// The task that a written task stands for. Its parts are read in this
/// order: the primary actions, the success hooks, the failure hooks, the
/// working directory; the first part that is refused decides.
pub open spec fn task_from(task: config::Task) -> Result<TaskView, ConfigError> {
    match actions_from(task.actions@) {
        Ok(actions) => match actions_from(task.on_success@) {
            Ok(on_success) => match actions_from(task.on_failure@) {
                Ok(on_failure) => match task.working_directory {
                    Some(text) => match template_of(text@) {
                        Ok(template) => Ok(
                            TaskView {
                                working_directory: Some(template),
                                actions,
                                on_success,
                                on_failure,
                                params: written_params(task.params),
                            },
                        ),
                        Err(e) => Err(ConfigError::WorkingDirectory(e)),
                    },
                    None => Ok(
                        TaskView {
                            working_directory: None,
                            actions,
                            on_success,
                            on_failure,
                            params: written_params(task.params),
                        },
                    ),
                },
                Err(e) => Err(e),
            },
            Err(e) => Err(e),
        },
        Err(e) => Err(e),
    }
}

impl Param {
    /// The parameter that a written parameter stands for.
    pub fn from(param: &config::Param) -> (made: Param)
        ensures
            made.default.deep_view() == param.default.deep_view(),
    {
        Param {
            default: match &param.default {
                Some(value) => Some(value.clone()),
                None => None,
            },
        }
    }
}

impl Action {
    /// Parses a written action.
    pub fn try_from(action: &config::Action) -> (result: Result<Action, ConfigError>)
        ensures
            match result {
                Ok(made) => action_from(*action) == Ok::<ActionView, ConfigError>(made.deep_view()),
                Err(e) => action_from(*action) == Err::<ActionView, ConfigError>(e),
            },
    {
        match action {
            config::Action::Command(line) => match parse(line.as_str()) {
                Ok(made) => Ok(made),
                Err(e) => Err(ConfigError::Action(e)),
            },
            config::Action::TaskCall { name, params } => {
                let count = params.len();
                let mut made: OrderedMap<Argument> = OrderedMap::new();
                let mut i: usize = 0;
                assert(bindings(made) =~= Seq::empty());
                while i < count
                    invariant
                        i <= count == params.names().len(),
                        count == params.values().len(),
                        *action == (config::Action::TaskCall { name: *name, params: *params }),
                        written_bindings(params.names(), params.values(), 0, Seq::empty())
                            == written_bindings(
                            params.names(),
                            params.values(),
                            i as int,
                            bindings(made),
                        ),
                    decreases count - i,
                {
                    match params.get_index(i) {
                        Some((key, value)) => {
                            let chars = to_chars(value.as_str());
                            let components = match components_of(&chars) {
                                Some(components) => components,
                                None => {
                                    return Err(ConfigError::Parameter);
                                },
                            };
                            let ghost before = made;
                            made.well_formed();
                            made.insert(key.clone(), Argument { components });
                            proof {
                                let was = bindings(before);
                                assert(bound_names(was) =~= before.names());
                                assert(bindings(made) =~= rebound(
                                    was,
                                    key@,
                                    components.deep_view(),
                                ));
                            }
                        },
                        None => {},
                    }
                    i += 1;
                }
                Ok(Action::TaskCall(TaskCall { name: name.clone(), params: made }))
            },
        }
    }
}

/// Parses written actions, in order.
pub fn parse_actions(actions: &Vec<config::Action>) -> (result: Result<Vec<Action>, ConfigError>)
    ensures
        match result {
            Ok(made) => actions_from(actions@) == Ok::<Seq<ActionView>, ConfigError>(
                made.deep_view(),
            ),
            Err(e) => actions_from(actions@) == Err::<Seq<ActionView>, ConfigError>(e),
        },
{
    let mut made: Vec<Action> = Vec::new();
    let mut i: usize = 0;
    assert(actions@.take(0) =~= Seq::empty());
    assert(made.deep_view() =~= Seq::empty());
    while i < actions.len()
        invariant
            i <= actions.len(),
            actions_from(actions@.take(i as int)) == Ok::<Seq<ActionView>, ConfigError>(
                made.deep_view(),
            ),
        decreases actions.len() - i,
    {
        assert(actions@.take(i + 1).drop_last() =~= actions@.take(i as int));
        assert(actions@.take(i + 1).last() == actions@[i as int]);
        let ghost before = made.deep_view();
        match Action::try_from(&actions[i]) {
            Ok(action) => {
                made.push(action);
                assert(made.deep_view() =~= before.push(action.deep_view()));
            },
            Err(e) => {
                proof {
                    lemma_actions_from_prefix_error(actions@, i + 1);
                }
                return Err(e);
            },
        }
        i += 1;
    }
    assert(actions@.take(i as int) =~= actions@);
    Ok(made)
}

impl Task {
    /// Parses a written task.
    pub fn try_from(value: &config::Task) -> (result: Result<Task, ConfigError>)
        ensures
            match result {
                Ok(made) => task_from(*value) == Ok::<TaskView, ConfigError>(made.deep_view()),
                Err(e) => task_from(*value) == Err::<TaskView, ConfigError>(e),
            },
    {
        let actions = match parse_actions(&value.actions) {
            Ok(actions) => actions,
            Err(e) => {
                return Err(e);
            },
        };
        let on_success = match parse_actions(&value.on_success) {
            Ok(actions) => actions,
            Err(e) => {
                return Err(e);
            },
        };
        let on_failure = match parse_actions(&value.on_failure) {
            Ok(actions) => actions,
            Err(e) => {
                return Err(e);
            },
        };
        let working_directory = match &value.working_directory {
            Some(text) => match InterpolatedString::from_str(text.as_str()) {
                Ok(template) => Some(template),
                Err(e) => {
                    return Err(ConfigError::WorkingDirectory(e));
                },
            },
            None => None,
        };
        let count = value.params.len();
        let mut params: OrderedMap<Param> = OrderedMap::new();
        let mut i: usize = 0;
        value.params.well_formed();
        while i < count
            invariant
                i <= count == value.params.names().len(),
                count == value.params.values().len(),
                value.params.wf(),
                params.names() == value.params.names().take(i as int),
                params.values().len() == i,
                forall|j: int|
                    0 <= j < i ==> (#[trigger] params.values()[j]).default.deep_view()
                        == value.params.values()[j].default.deep_view(),
            decreases count - i,
        {
            match value.params.get_index(i) {
                Some((name, param)) => {
                    let ghost before = params;
                    proof {
                        if before.names().contains(name@) {
                            let j = before.names().index_of(name@);
                            assert(value.params.names()[j] == value.params.names()[i as int]);
                        }
                    }
                    params.insert(name.clone(), Param::from(param));
                    assert(params.names() =~= value.params.names().take(i + 1));
                },
                None => {},
            }
            i += 1;
        }
        let made = Task { working_directory, actions, on_success, on_failure, params };
        proof {
            assert(value.params.names().take(count as int) =~= value.params.names());
            assert(crate::service::declared(made) =~= written_params(value.params));
        }
        Ok(made)
    }
}

} // verus!
