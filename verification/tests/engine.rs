//! Runs of tasks, driven by a scripted outside.

use taskerie::config;
use taskerie::load;
use taskerie::message::ExecutionMessage;
use taskerie::model::task::Task;
use taskerie::model::{InterpolatedString, InterpolatedVariable, ParamContext, TaskerieContext};
use taskerie::ordered_map::OrderedMap;
use taskerie::model::action::{Argument, ArgumentComponent, Command};
use taskerie::service::render::UnboundVariable;
use taskerie::service::{run_command, Event, ExitOutcome, Request, RunError};

fn lines(actions: &[&str]) -> Vec<config::Action> {
    actions.iter().map(|line| config::Action::Command(line.to_string())).collect()
}

fn task(actions: &[&str], on_success: &[&str], on_failure: &[&str]) -> config::Task {
    config::Task {
        working_directory: None,
        actions: lines(actions),
        on_success: lines(on_success),
        on_failure: lines(on_failure),
        params: OrderedMap::new(),
    }
}

fn with_param(mut task: config::Task, name: &str, default: Option<&str>) -> config::Task {
    task.params.insert(name.to_string(), config::Param { default: default.map(str::to_string) });
    task
}

fn registry(tasks: Vec<(&str, config::Task)>) -> TaskerieContext {
    let mut written = OrderedMap::new();
    for (name, task) in tasks {
        written.insert(name.to_string(), task);
    }
    load(&config::Root { tasks: written }).expect("the configuration is valid")
}

/// The outside: a command fails if its line holds `fail`, writes the lines
/// that follow `say:` separated by `|`, and a directory is missing if its
/// name holds `missing`.
fn drive(
    registry: &TaskerieContext,
    name: &str,
    context: ParamContext,
) -> (Result<ExitOutcome, RunError>, Vec<ExecutionMessage>) {
    let mut messages = Vec::new();
    let mut run = match registry.run_task_by_name(name, context) {
        Ok(run) => run,
        Err(error) => return (Err(error), messages),
    };
    let mut pending: Vec<Event> = Vec::new();
    let mut event = Event::Resume;
    for _ in 0..10_000 {
        let step = match run.step(event) {
            Ok(step) => step,
            Err(error) => return (Err(error), messages),
        };
        if let Some(message) = step.message {
            messages.push(message);
        }
        event = match step.request {
            Request::Continue => Event::Resume,
            Request::ResolveDirectory(path) => {
                if path.contains("missing") {
                    Event::Directory(None)
                } else {
                    Event::Directory(Some(format!("/resolved/{path}")))
                }
            }
            Request::RunCommand { command, .. } => {
                pending.clear();
                pending.push(Event::Exited(!command.contains("fail")));
                if let Some((_, said)) = command.split_once("say:") {
                    for line in said.split('|').rev() {
                        pending.push(Event::Output(line.to_string()));
                    }
                }
                pending.pop().unwrap()
            }
            Request::ReadProcess => pending.pop().unwrap(),
            Request::Finished(outcome) => return (Ok(outcome), messages),
        };
    }
    panic!("the run does not end");
}

fn announced(messages: &[ExecutionMessage]) -> Vec<String> {
    messages
        .iter()
        .filter_map(|message| match message {
            ExecutionMessage::AboutToRunCommand { command, .. } => Some(command.clone()),
            _ => None,
        })
        .collect()
}

fn about(command: &str) -> ExecutionMessage {
    ExecutionMessage::AboutToRunCommand {
        command: command.to_string(),
        working_directory: "/resolved/./".to_string(),
    }
}

fn output(line: &str) -> ExecutionMessage {
    ExecutionMessage::CommandOutput { output: line.to_string() }
}

#[test]
fn empty_task_succeeds_without_messages() {
    let registry = registry(vec![("idle", task(&[], &[], &[]))]);
    let (outcome, messages) = drive(&registry, "idle", ParamContext::default());
    assert_eq!(outcome, Ok(ExitOutcome::Succeeded));
    assert!(messages.is_empty());
}

#[test]
fn required_parameter_missing_is_undetermined() {
    let registry =
        registry(vec![("needy", with_param(task(&["echo ${p}"], &["ok"], &["ko"]), "p", None))]);
    let (outcome, messages) = drive(&registry, "needy", ParamContext::default());
    assert_eq!(outcome, Ok(ExitOutcome::Undetermined));
    assert_eq!(
        messages,
        vec![ExecutionMessage::MissingRequiredTaskParameter { parameter_name: "p".to_string() }]
    );
    assert!(announced(&messages).is_empty());
}

#[test]
fn required_parameter_bound_by_caller_runs() {
    let registry = registry(vec![("needy", with_param(task(&["echo ${p}"], &[], &[]), "p", None))]);
    let mut context = ParamContext::default();
    context.set("p", "given");
    let (outcome, messages) = drive(&registry, "needy", context);
    assert_eq!(outcome, Ok(ExitOutcome::Succeeded));
    assert_eq!(messages, vec![about("echo given"), ExecutionMessage::CommandSucceeded]);
}

#[test]
fn default_is_bound_where_the_context_binds_nothing() {
    let registry =
        registry(vec![("polite", with_param(task(&["echo ${p}"], &[], &[]), "p", Some("dflt")))]);
    let (outcome, messages) = drive(&registry, "polite", ParamContext::default());
    assert_eq!(outcome, Ok(ExitOutcome::Succeeded));
    assert_eq!(announced(&messages), vec!["echo dflt".to_string()]);

    let mut context = ParamContext::default();
    context.set("p", "mine");
    let (_, messages) = drive(&registry, "polite", context);
    assert_eq!(announced(&messages), vec!["echo mine".to_string()]);
}

#[test]
fn failure_runs_every_failure_hook_and_no_success_hook() {
    let registry = registry(vec![(
        "job",
        task(&["fail now", "never"], &["good one", "good two"], &["bad one", "bad fail", "bad three"]),
    )]);
    let (outcome, messages) = drive(&registry, "job", ParamContext::default());
    assert_eq!(outcome, Ok(ExitOutcome::Failed));
    assert_eq!(announced(&messages), vec!["fail now", "bad one", "bad fail", "bad three"]);
}

#[test]
fn success_runs_only_the_success_hooks() {
    let registry = registry(vec![(
        "job",
        task(&["one", "two"], &["good one", "good fail", "good three"], &["bad one"]),
    )]);
    let (outcome, messages) = drive(&registry, "job", ParamContext::default());
    assert_eq!(outcome, Ok(ExitOutcome::Succeeded));
    assert_eq!(announced(&messages), vec!["one", "two", "good one", "good fail", "good three"]);
}

#[test]
fn messages_of_two_commands_come_in_order() {
    let registry = registry(vec![("job", task(&["first say:a|b", "second say:c"], &[], &[]))]);
    let (outcome, messages) = drive(&registry, "job", ParamContext::default());
    assert_eq!(outcome, Ok(ExitOutcome::Succeeded));
    assert_eq!(
        messages,
        vec![
            about("first say:a|b"),
            output("a"),
            output("b"),
            ExecutionMessage::CommandSucceeded,
            about("second say:c"),
            output("c"),
            ExecutionMessage::CommandSucceeded,
        ]
    );
}

#[test]
fn caller_variable_is_invisible_unless_passed() {
    let registry = registry(vec![
        ("outer", task(&["_inner"], &[], &[])),
        ("passing", task(&["_inner --x ${x}"], &[], &[])),
        ("inner", task(&["echo ${x}"], &[], &[])),
    ]);
    let mut context = ParamContext::default();
    context.set("x", "secret");
    let (outcome, messages) = drive(&registry, "outer", context);
    assert_eq!(outcome, Err(RunError::UnboundVariable("x".to_string())));
    assert!(messages.is_empty());

    let mut context = ParamContext::default();
    context.set("x", "secret");
    let (outcome, messages) = drive(&registry, "passing", context);
    assert_eq!(outcome, Ok(ExitOutcome::Succeeded));
    assert_eq!(announced(&messages), vec!["echo secret"]);
}

#[test]
fn nested_failure_turns_the_caller_to_its_failure_hooks() {
    let registry = registry(vec![
        ("outer", task(&["_inner", "skipped"], &["outer good"], &["outer bad"])),
        ("inner", task(&["fail inside"], &["inner good"], &["inner bad"])),
    ]);
    let (outcome, messages) = drive(&registry, "outer", ParamContext::default());
    assert_eq!(outcome, Ok(ExitOutcome::Failed));
    assert_eq!(announced(&messages), vec!["fail inside", "inner bad", "outer bad"]);
}

#[test]
fn nested_missing_parameter_is_a_failure_of_the_call() {
    let registry = registry(vec![
        ("outer", task(&["_inner"], &["outer good"], &["outer bad"])),
        ("inner", with_param(task(&["echo ${p}"], &[], &["inner bad"]), "p", None)),
    ]);
    let (outcome, messages) = drive(&registry, "outer", ParamContext::default());
    assert_eq!(outcome, Ok(ExitOutcome::Undetermined));
    assert_eq!(
        messages,
        vec![
            ExecutionMessage::MissingRequiredTaskParameter { parameter_name: "p".to_string() },
            about("outer bad"),
            ExecutionMessage::CommandSucceeded,
        ]
    );
}

#[test]
fn unknown_task_aborts_the_run() {
    let registry = registry(vec![("outer", task(&["first", "_nowhere", "last"], &[], &["bad"]))]);
    let (outcome, messages) = drive(&registry, "outer", ParamContext::default());
    assert_eq!(outcome, Err(RunError::UnknownTask("nowhere".to_string())));
    assert_eq!(announced(&messages), vec!["first"]);

    let (outcome, _) = drive(&registry, "absent", ParamContext::default());
    assert_eq!(outcome, Err(RunError::UnknownTask("absent".to_string())));
}

#[test]
fn unbound_variable_aborts_the_run_before_any_hook() {
    let registry = registry(vec![("job", task(&["echo ${nope}"], &["good"], &["bad"]))]);
    let (outcome, messages) = drive(&registry, "job", ParamContext::default());
    assert_eq!(outcome, Err(RunError::UnboundVariable("nope".to_string())));
    assert!(messages.is_empty());
}

#[test]
fn working_directory_is_rendered_and_resolved() {
    let mut written = task(&["pwd"], &[], &[]);
    written.working_directory = Some("/srv/{{ where }}".to_string());
    let registry = registry(vec![("job", with_param(written, "where", Some("app")))]);
    let (outcome, messages) = drive(&registry, "job", ParamContext::default());
    assert_eq!(outcome, Ok(ExitOutcome::Succeeded));
    assert_eq!(
        messages,
        vec![
            ExecutionMessage::AboutToRunCommand {
                command: "pwd".to_string(),
                working_directory: "/resolved//srv/app".to_string(),
            },
            ExecutionMessage::CommandSucceeded,
        ]
    );
}

#[test]
fn working_directory_not_found_is_undetermined() {
    let mut written = task(&["pwd"], &["good"], &["bad"]);
    written.working_directory = Some("/missing/{{ where }}".to_string());
    let registry = registry(vec![("job", with_param(written, "where", Some("app")))]);
    let (outcome, messages) = drive(&registry, "job", ParamContext::default());
    assert_eq!(outcome, Ok(ExitOutcome::Undetermined));
    assert_eq!(
        messages,
        vec![ExecutionMessage::WorkingDirectoryNotFound { path: "/missing/app".to_string() }]
    );
}

#[test]
fn working_directory_with_unbound_variable_aborts() {
    let mut written = task(&["pwd"], &[], &[]);
    written.working_directory = Some("/srv/{{ where }}".to_string());
    let registry = registry(vec![("job", written)]);
    let (outcome, _) = drive(&registry, "job", ParamContext::default());
    assert_eq!(outcome, Err(RunError::UnboundVariable("where".to_string())));
}

#[test]
fn events_out_of_turn_are_refused() {
    let registry = registry(vec![("job", task(&["echo"], &[], &[]))]);
    let mut run = registry.run_task_by_name("job", ParamContext::default()).unwrap();
    assert_eq!(run.step(Event::Exited(true)), Err(RunError::UnexpectedEvent));
    assert_eq!(run.step(Event::Resume).unwrap().request, Request::Continue);
    assert_eq!(
        run.step(Event::Resume).unwrap().request,
        Request::ResolveDirectory("./".to_string())
    );
    assert_eq!(run.step(Event::Resume), Err(RunError::UnexpectedEvent));
    assert_eq!(run.step(Event::Output("x".to_string())), Err(RunError::UnexpectedEvent));
    assert_eq!(
        run.step(Event::Directory(Some("/here".to_string()))).unwrap().request,
        Request::Continue
    );
}

#[test]
fn a_finished_run_takes_no_step() {
    let registry = registry(vec![("idle", task(&[], &[], &[]))]);
    let mut run = registry.run_task_by_name("idle", ParamContext::default()).unwrap();
    let mut event = Event::Resume;
    loop {
        let step = run.step(event).unwrap();
        event = match step.request {
            Request::Continue => Event::Resume,
            Request::ResolveDirectory(path) => Event::Directory(Some(path)),
            Request::Finished(outcome) => {
                assert_eq!(outcome, ExitOutcome::Succeeded);
                break;
            }
            other => panic!("unexpected request {other:?}"),
        };
    }
    assert_eq!(run.step(Event::Resume), Err(RunError::NotRunning));
}

#[test]
fn command_line_joins_the_rendered_arguments() {
    let registry = registry(vec![(
        "job",
        with_param(task(&[r#"tool "two words" pre${p}post ${p}"#], &[], &[]), "p", Some("V")),
    )]);
    let (_, messages) = drive(&registry, "job", ParamContext::default());
    assert_eq!(announced(&messages), vec!["tool two words preVpost V"]);
}

#[test]
fn written_call_binds_its_parameters() {
    let mut params = OrderedMap::new();
    params.insert("x".to_string(), "<{{ y }}>".to_string());
    let mut outer = task(&[], &[], &[]);
    outer.actions.push(config::Action::TaskCall { name: "inner".to_string(), params });
    let registry = registry(vec![
        ("outer", with_param(outer, "y", Some("why"))),
        ("inner", task(&["echo ${x}"], &[], &[])),
    ]);
    let (outcome, messages) = drive(&registry, "outer", ParamContext::default());
    assert_eq!(outcome, Ok(ExitOutcome::Succeeded));
    assert_eq!(announced(&messages), vec!["echo <why>"]);
}

#[test]
fn standalone_tasks_are_listed_in_order() {
    let registry = registry(vec![
        ("zeta", task(&[], &[], &[])),
        ("needy", with_param(task(&[], &[], &[]), "p", None)),
        ("alpha", with_param(task(&[], &[], &[]), "p", Some("d"))),
        ("mixed", with_param(with_param(task(&[], &[], &[]), "p", Some("d")), "q", None)),
    ]);
    assert_eq!(registry.get_all_standalone_task_names(), vec!["zeta", "alpha"]);
    assert!(registry.get_task_by_name("zeta").unwrap().is_standalone());
    assert!(!registry.get_task_by_name("mixed").unwrap().is_standalone());
    assert!(registry.get_task_by_name("nope").is_none());
}

#[test]
fn misplaced_variable_in_the_working_directory_aborts() {
    let mut tasks = OrderedMap::new();
    tasks.insert(
        "job".to_string(),
        Task {
            working_directory: Some(InterpolatedString {
                value: "abc".to_string(),
                parts: vec![InterpolatedVariable { name: "x".to_string(), start: 9 }],
            }),
            actions: vec![],
            on_success: vec![],
            on_failure: vec![],
            params: OrderedMap::new(),
        },
    );
    let registry = TaskerieContext { tasks };
    let mut context = ParamContext::default();
    context.set("x", "1");
    let (outcome, messages) = drive(&registry, "job", context);
    assert_eq!(outcome, Err(RunError::MisplacedVariable(0)));
    assert!(messages.is_empty());
}

#[test]
fn recursion_ends_when_a_primary_action_fails() {
    let registry = registry(vec![("again", task(&["try ${n}", "_again --n fail"], &[], &["gave up"]))]);
    let mut context = ParamContext::default();
    context.set("n", "once");
    let (outcome, messages) = drive(&registry, "again", context);
    assert_eq!(outcome, Ok(ExitOutcome::Failed));
    assert_eq!(announced(&messages), vec!["try once", "try fail", "gave up", "gave up"]);
}

#[test]
fn run_errors_say_what_is_wrong() {
    assert_eq!(RunError::UnknownTask("t".to_string()).to_string(), "Task t is not defined");
    assert_eq!(
        RunError::UnboundVariable("v".to_string()).to_string(),
        "Could not find value for param v during string interpolation"
    );
    assert_eq!(RunError::NotRunning.to_string(), "No task is running");
    assert_eq!(RunError::UnexpectedEvent.to_string(), "Unexpected event");
    assert_eq!(
        RunError::MisplacedVariable(3).to_string(),
        "Variable out of place in working directory"
    );
}

#[test]
fn a_refused_step_leaves_the_run_as_it_was() {
    let registry = registry(vec![("job", task(&["echo ${x}"], &[], &[]))]);
    let mut run = registry.run_task_by_name("job", ParamContext::default()).unwrap();
    assert_eq!(run.step(Event::Resume).unwrap().request, Request::Continue);
    assert!(run.step(Event::Resume).is_ok());
    assert!(run.step(Event::Directory(Some("/here".to_string()))).is_ok());
    for _ in 0..3 {
        assert_eq!(run.step(Event::Resume), Err(RunError::UnboundVariable("x".to_string())));
    }
}

#[test]
fn one_command_is_reported_from_start_to_end() {
    let command = Command {
        name: "tool".to_string(),
        arguments: vec![Argument {
            components: vec![ArgumentComponent::Interpolated("a".to_string())],
        }],
    };
    let mut context = ParamContext::default();
    assert_eq!(
        run_command(&command, "/dir", &context, vec!["never".to_string()], true),
        Err(UnboundVariable { name: "a".to_string() })
    );
    context.set("a", "A");
    let lines = vec!["one".to_string(), "two".to_string()];
    let announced = ExecutionMessage::AboutToRunCommand {
        command: "tool A".to_string(),
        working_directory: "/dir".to_string(),
    };
    assert_eq!(
        run_command(&command, "/dir", &context, lines.clone(), false),
        Ok((
            ExitOutcome::Failed,
            vec![
                ExecutionMessage::AboutToRunCommand {
                    command: "tool A".to_string(),
                    working_directory: "/dir".to_string(),
                },
                output("one"),
                output("two"),
                ExecutionMessage::CommandFailed,
            ]
        ))
    );
    assert_eq!(
        run_command(&command, "/dir", &context, vec![], true),
        Ok((ExitOutcome::Succeeded, vec![announced, ExecutionMessage::CommandSucceeded]))
    );
}
