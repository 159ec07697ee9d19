//! Tasks: what the registry holds.

use crate::model::action::Action;
use crate::model::InterpolatedString;
use crate::ordered_map::OrderedMap;
use vstd::prelude::*;

verus! {

/// A declared parameter of a task. One without a default is required.
#[derive(PartialEq, Eq, Debug)]
pub struct Param {
    pub default: Option<String>,
}

/// A task: the actions that it runs, the hooks that follow them, and the
/// parameters that it declares.
#[derive(Debug)]
pub struct Task {
    /// The directory in which the commands of the task run, as a template.
    pub working_directory: Option<InterpolatedString>,
    /// The primary actions.
    pub actions: Vec<Action>,
    /// The actions that follow when every primary action succeeded.
    pub on_success: Vec<Action>,
    /// The actions that follow when a primary action did not succeed.
    pub on_failure: Vec<Action>,
    pub params: OrderedMap<Param>,
}

/// Whether every one of `params` has a default.
pub open spec fn all_defaulted(params: Seq<Param>) -> bool {
    forall|i: int| 0 <= i < params.len() ==> (#[trigger] params[i]).default is Some
}

impl Task {
    /// Whether the task can run without any parameter handed to it: every
    /// parameter that it declares has a default.
    pub open spec fn standalone(self) -> bool {
        all_defaulted(self.params.values())
    }

    /// Check whether the task can be executed without any additional parameters.
    #[must_use]
    pub fn is_standalone(&self) -> (standalone: bool)
        ensures
            standalone == self.standalone(),
    {
        let count = self.params.len();
        let mut i: usize = 0;
        while i < count
            invariant
                i <= count == self.params.values().len(),
                count == self.params.names().len(),
                forall|j: int| 0 <= j < i ==> (#[trigger] self.params.values()[j]).default is Some,
            decreases count - i,
        {
            match self.params.get_index(i) {
                Some((_, param)) => {
                    if param.default.is_none() {
                        return false;
                    }
                },
                None => {},
            }
            i += 1;
        }
        true
    }
}

} // verus!
