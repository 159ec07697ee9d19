//! Rendering: components and a parameter context become text.

use crate::model::action::{Argument, ArgumentComponent, Command, CommandView, Component};
use crate::model::ParamContext;
use vstd::prelude::*;
use vstd::string::StringExecFns;

verus! {

/// A variable that an argument refers to and that the context does not bind.
#[derive(PartialEq, Eq, Debug)]
pub struct UnboundVariable {
    pub name: String,
}

/// The text of `components` in `context`: the literals as they are and, for
/// each variable, the value that it is bound to. Where a variable is not
/// bound, the result is the name of the first such variable.
pub open spec fn rendered(components: Seq<Component>, context: Map<Seq<char>, Seq<char>>) -> Result<
    Seq<char>,
    Seq<char>,
>
    decreases components.len(),
{
    if components.len() == 0 {
        Ok(Seq::empty())
    } else {
        match rendered(components.drop_last(), context) {
            Ok(text) => match components.last() {
                Component::Literal(literal) => Ok(text + literal),
                Component::Interpolated(name) => if context.contains_key(name) {
                    Ok(text + context[name])
                } else {
                    Err(name)
                },
            },
            Err(name) => Err(name),
        }
    }
}

/// Whether no component is a variable.
pub open spec fn all_literal(components: Seq<Component>) -> bool {
    forall|i: int| 0 <= i < components.len() ==> components[i] is Literal
}

/// The literals of `components`, one after the other.
pub open spec fn literal_text(components: Seq<Component>) -> Seq<char>
    decreases components.len(),
{
    if components.len() == 0 {
        Seq::empty()
    } else {
        literal_text(components.drop_last()) + match components.last() {
            Component::Literal(literal) => literal,
            Component::Interpolated(_) => Seq::empty(),
        }
    }
}

/// Rendering components that hold no variable gives their literal text,
/// whatever the context binds.
pub proof fn lemma_literals_ignore_context(
    components: Seq<Component>,
    context: Map<Seq<char>, Seq<char>>,
)
    requires
        all_literal(components),
    ensures
        rendered(components, context) == Ok::<Seq<char>, Seq<char>>(literal_text(components)),
    decreases components.len(),
{
    if components.len() > 0 {
        assert(components.last() is Literal);
        lemma_literals_ignore_context(components.drop_last(), context);
    }
}

/// Rendering fails exactly where some variable is not bound, and then with
/// the first such variable.
pub proof fn lemma_rendered_fails_on_unbound(
    components: Seq<Component>,
    context: Map<Seq<char>, Seq<char>>,
)
    ensures
        rendered(components, context) is Ok <==> forall|i: int|
            0 <= i < components.len() ==> (#[trigger] components[i] matches Component::Interpolated(
                name,
            ) ==> context.contains_key(name)),
    decreases components.len(),
{
    if components.len() > 0 {
        let front = components.drop_last();
        lemma_rendered_fails_on_unbound(front, context);
        if rendered(components, context) is Ok {
            assert forall|i: int| 0 <= i < components.len() implies (
            #[trigger] components[i] matches Component::Interpolated(name)
                ==> context.contains_key(name)) by {
                if i < front.len() {
                    assert(front[i] == components[i]);
                }
            }
        } else {
            if rendered(front, context) is Ok {
                assert(components[components.len() - 1] == components.last());
            } else {
                let i = choose|i: int|
                    0 <= i < front.len() && !(#[trigger] front[i] matches Component::Interpolated(
                        name,
                    ) ==> context.contains_key(name));
                assert(front[i] == components[i]);
            }
        }
    }
}

/// The command line of `command` in `context`: the name of the program and,
/// each after one space, the rendered arguments.
pub open spec fn command_line(command: CommandView, context: Map<Seq<char>, Seq<char>>) -> Result<
    Seq<char>,
    Seq<char>,
> {
    joined(command.name, command.arguments, context)
}

/// `head` followed by the rendered `arguments`, each after one space.
pub open spec fn joined(
    head: Seq<char>,
    arguments: Seq<Seq<Component>>,
    context: Map<Seq<char>, Seq<char>>,
) -> Result<Seq<char>, Seq<char>>
    decreases arguments.len(),
{
    if arguments.len() == 0 {
        Ok(head)
    } else {
        match joined(head, arguments.drop_last(), context) {
            Ok(text) => match rendered(arguments.last(), context) {
                Ok(argument) => Ok(text + seq![' '] + argument),
                Err(name) => Err(name),
            },
            Err(name) => Err(name),
        }
    }
}

impl Argument {
    /// Renders the argument: its components, concatenated, with each variable
    /// replaced by the value that `context` binds it to.
    pub fn render(&self, context: &ParamContext) -> (result: Result<String, UnboundVariable>)
        ensures
            match result {
                Ok(text) => rendered(self.deep_view(), context@) == Ok::<Seq<char>, Seq<char>>(
                    text@,
                ),
                Err(e) => rendered(self.deep_view(), context@) == Err::<Seq<char>, Seq<char>>(
                    e.name@,
                ),
            },
    {
        let mut text = String::new();
        let mut i: usize = 0;
        let ghost all = self.deep_view();
        assert(all.take(0) =~= Seq::empty());
        while i < self.components.len()
            invariant
                i <= self.components.len(),
                all == self.deep_view(),
                rendered(all.take(i as int), context@) == Ok::<Seq<char>, Seq<char>>(text@),
            decreases self.components.len() - i,
        {
            assert(all.take(i + 1).drop_last() =~= all.take(i as int));
            assert(all.take(i + 1).last() == self.components[i as int].deep_view());
            match &self.components[i] {
                ArgumentComponent::Literal(literal) => {
                    text.append(literal.as_str());
                },
                ArgumentComponent::Interpolated(name) => match context.get(name.as_str()) {
                    Some(value) => {
                        text.append(value.as_str());
                    },
                    None => {
                        proof {
                            lemma_rendered_prefix_error(all, i + 1, context@);
                        }
                        return Err(UnboundVariable { name: name.clone() });
                    },
                },
            }
            i += 1;
        }
        assert(all.take(i as int) =~= all);
        Ok(text)
    }
}

/// Where rendering the first `n` components fails, rendering all of them
/// fails in the same way.
pub proof fn lemma_rendered_prefix_error(
    components: Seq<Component>,
    n: int,
    context: Map<Seq<char>, Seq<char>>,
)
    requires
        0 <= n <= components.len(),
        rendered(components.take(n), context) is Err,
    ensures
        rendered(components, context) == rendered(components.take(n), context),
    decreases components.len() - n,
{
    if n < components.len() {
        assert(components.take(n + 1).drop_last() =~= components.take(n));
        lemma_rendered_prefix_error(components, n + 1, context);
    } else {
        assert(components.take(n) =~= components);
    }
}

/// Where joining the first `n` arguments fails, joining all of them fails in
/// the same way.
pub proof fn lemma_joined_prefix_error(
    head: Seq<char>,
    arguments: Seq<Seq<Component>>,
    n: int,
    context: Map<Seq<char>, Seq<char>>,
)
    requires
        0 <= n <= arguments.len(),
        joined(head, arguments.take(n), context) is Err,
    ensures
        joined(head, arguments, context) == joined(head, arguments.take(n), context),
    decreases arguments.len() - n,
{
    if n < arguments.len() {
        assert(arguments.take(n + 1).drop_last() =~= arguments.take(n));
        lemma_joined_prefix_error(head, arguments, n + 1, context);
    } else {
        assert(arguments.take(n) =~= arguments);
    }
}

impl Command {
    /// Renders the command line: the name of the program and, each after one
    /// space, its arguments.
    pub fn render(&self, context: &ParamContext) -> (result: Result<String, UnboundVariable>)
        ensures
            match result {
                Ok(text) => command_line(self.deep_view(), context@) == Ok::<Seq<char>, Seq<char>>(
                    text@,
                ),
                Err(e) => command_line(self.deep_view(), context@) == Err::<Seq<char>, Seq<char>>(
                    e.name@,
                ),
            },
    {
        let mut text = self.name.clone();
        let mut i: usize = 0;
        let ghost all = self.arguments.deep_view();
        assert(all.take(0) =~= Seq::empty());
        while i < self.arguments.len()
            invariant
                i <= self.arguments.len(),
                all == self.arguments.deep_view(),
                joined(self.name@, all.take(i as int), context@) == Ok::<Seq<char>, Seq<char>>(
                    text@,
                ),
            decreases self.arguments.len() - i,
        {
            assert(all.take(i + 1).drop_last() =~= all.take(i as int));
            assert(all.take(i + 1).last() == self.arguments[i as int].deep_view());
            let ghost before = text@;
            match self.arguments[i].render(context) {
                Ok(argument) => {
                    text.push(' ');
                    text.append(argument.as_str());
                    assert(text@ =~= before + seq![' '] + argument@);
                },
                Err(e) => {
                    proof {
                        lemma_joined_prefix_error(self.name@, all, i + 1, context@);
                    }
                    return Err(e);
                },
            }
            i += 1;
        }
        assert(all.take(i as int) =~= all);
        Ok(text)
    }
}

} // verus!
