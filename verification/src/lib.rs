//! A local task-automation engine.
//!
//! A task is a named sequence of actions; an action either runs an external
//! program or calls another task. The library parses action lines, renders
//! variable interpolation against a parameter context, and decides, one step
//! at a time, what a run of a task does next. Reading files and spawning
//! processes is left to the caller.

use crate::config::Root;
use crate::model::task::Task;
use crate::model::TaskerieContext;
use crate::ordered_map::OrderedMap;
use crate::service::task_parser::{task_from, ConfigError, TaskView};
use vstd::prelude::*;

pub mod config;
pub mod message;
pub mod model;
pub mod names;
pub mod ordered_map;
pub mod pattern;
pub mod service;
pub mod text;

verus! {

/// The tasks that written tasks stand for; the first that is refused
/// decides.
pub open spec fn tasks_from(tasks: Seq<config::Task>) -> Result<Seq<TaskView>, ConfigError>
    decreases tasks.len(),
{
    if tasks.len() == 0 {
        Ok(Seq::empty())
    } else {
        match tasks_from(tasks.drop_last()) {
            Ok(front) => match task_from(tasks.last()) {
                Ok(task) => Ok(front.push(task)),
                Err(e) => Err(e),
            },
            Err(e) => Err(e),
        }
    }
}

/// Where the first `n` written tasks are refused, all of them are, in the
/// same way.
pub proof fn lemma_tasks_from_prefix_error(tasks: Seq<config::Task>, n: int)
    requires
        0 <= n <= tasks.len(),
        tasks_from(tasks.take(n)) is Err,
    ensures
        tasks_from(tasks) == tasks_from(tasks.take(n)),
    decreases tasks.len() - n,
{
    if n < tasks.len() {
        assert(tasks.take(n + 1).drop_last() =~= tasks.take(n));
        lemma_tasks_from_prefix_error(tasks, n + 1);
    } else {
        assert(tasks.take(n) =~= tasks);
    }
}

/// Tasks as mathematical values.
pub open spec fn task_views(tasks: Seq<Task>) -> Seq<TaskView> {
    Seq::new(tasks.len(), |i: int| tasks[i].deep_view())
}

/// Makes the registry of a configuration: every action and every working
/// directory in it is parsed, so that a run meets no syntax error. The tasks
/// keep their names and their order.
pub fn load(config: &Root) -> (result: Result<TaskerieContext, ConfigError>)
    ensures
        match result {
            Ok(registry) => {
                &&& registry.tasks.names() == config.tasks.names()
                &&& tasks_from(config.tasks.values()) == Ok::<Seq<TaskView>, ConfigError>(
                    task_views(registry.tasks.values()),
                )
            },
            Err(e) => tasks_from(config.tasks.values()) == Err::<Seq<TaskView>, ConfigError>(e),
        },
{
    let ghost written = config.tasks.values();
    let count = config.tasks.len();
    let mut tasks: OrderedMap<Task> = OrderedMap::new();
    let mut i: usize = 0;
    config.tasks.well_formed();
    assert(written.take(0) =~= Seq::empty());
    assert(task_views(tasks.values()) =~= Seq::empty());
    while i < count
        invariant
            i <= count == config.tasks.names().len(),
            count == written.len(),
            written == config.tasks.values(),
            config.tasks.wf(),
            tasks.names() == config.tasks.names().take(i as int),
            tasks_from(written.take(i as int)) == Ok::<Seq<TaskView>, ConfigError>(
                task_views(tasks.values()),
            ),
        decreases count - i,
    {
        assert(written.take(i + 1).drop_last() =~= written.take(i as int));
        assert(written.take(i + 1).last() == written[i as int]);
        match config.tasks.get_index(i) {
            Some((name, task)) => match Task::try_from(task) {
                Ok(made) => {
                    let ghost before = tasks;
                    proof {
                        if before.names().contains(name@) {
                            let j = before.names().index_of(name@);
                            assert(config.tasks.names()[j] == config.tasks.names()[i as int]);
                        }
                    }
                    tasks.insert(name.clone(), made);
                    assert(tasks.names() =~= config.tasks.names().take(i + 1));
                    assert(task_views(tasks.values()) =~= task_views(before.values()).push(
                        made.deep_view(),
                    ));
                },
                Err(e) => {
                    proof {
                        lemma_tasks_from_prefix_error(written, i + 1);
                    }
                    return Err(e);
                },
            },
            None => {},
        }
        i += 1;
    }
    assert(written.take(count as int) =~= written);
    assert(config.tasks.names().take(count as int) =~= config.tasks.names());
    Ok(TaskerieContext { tasks })
}

} // verus!
