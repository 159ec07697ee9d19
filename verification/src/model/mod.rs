//! The data that the engine works on.

use crate::ordered_map::OrderedMap;
use vstd::prelude::*;

pub mod action;
pub mod task;

verus! {

/// A variable of a template: its name, and the place in the text at which its
/// value goes, counted in bytes.
#[derive(PartialEq, Eq, Debug)]
pub struct InterpolatedVariable {
    pub name: String,
    pub start: usize,
}

/// A template: text, and the variables whose values are woven into it.
#[derive(PartialEq, Eq, Debug)]
pub struct InterpolatedString {
    /// The text without the variables.
    pub value: String,
    /// The variables, in the order of the places at which they go.
    pub parts: Vec<InterpolatedVariable>,
}

/// The registry: the tasks by name, in the order in which they were declared.
#[derive(Debug)]
pub struct TaskerieContext {
    pub tasks: OrderedMap<task::Task>,
}

/// The parameters of one invocation of a task: a value for each bound name.
#[derive(Debug)]
pub struct ParamContext {
    pub params: OrderedMap<String>,
}

impl View for ParamContext {
    type V = Map<Seq<char>, Seq<char>>;

    open spec fn view(&self) -> Map<Seq<char>, Seq<char>> {
        Map::new(
            |name: Seq<char>| self.params.has(name),
            |name: Seq<char>| self.params.lookup(name)->Some_0@,
        )
    }
}

impl Default for ParamContext {
    fn default() -> (context: ParamContext)
        ensures
            context@ == Map::<Seq<char>, Seq<char>>::empty(),
    {
        let context = ParamContext { params: OrderedMap::new() };
        assert(context@ =~= Map::<Seq<char>, Seq<char>>::empty());
        context
    }
}

impl ParamContext {
    /// Whether `param_name` is bound.
    pub fn has(&self, param_name: &str) -> (bound: bool)
        ensures
            bound == self@.contains_key(param_name@),
    {
        self.params.contains_key(param_name)
    }

    /// Binds `param_name` to `value`, in place of what it was bound to before.
    pub fn set(&mut self, param_name: &str, value: &str)
        ensures
            final(self)@ == old(self)@.insert(param_name@, value@),
    {
        self.params.insert(param_name.to_owned(), value.to_owned());
        proof {
            let after = old(self)@.insert(param_name@, value@);
            let now = self@;
            assert forall|name: Seq<char>| #[trigger]
                now.dom().contains(name) == after.dom().contains(name) by {
                if name != param_name@ {
                    assert(self.params.lookup(name) == old(self).params.lookup(name));
                }
            }
            assert forall|name: Seq<char>| now.dom().contains(name) implies #[trigger] now[name]
                == after[name] by {
                if name != param_name@ {
                    assert(self.params.lookup(name) == old(self).params.lookup(name));
                }
            }
            assert(now =~= after);
        }
    }

    /// The value that `param_name` is bound to.
    pub fn get(&self, param_name: &str) -> (value: Option<&String>)
        ensures
            match value {
                Some(value) => self@.contains_key(param_name@) && value@ == self@[param_name@],
                None => !self@.contains_key(param_name@),
            },
    {
        self.params.get(param_name)
    }
}

} // verus!
