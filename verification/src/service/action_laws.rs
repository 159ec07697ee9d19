//! What holds of every line in the action grammar.

use crate::model::action::{ActionView, CommandView, Component, Target};
use crate::service::action_parser::{
    bind_from, bound_names, dashed, names_parameter, parameter_name, parse_line, parse_spec,
    rebound, strip_dashes, BindingError, Line, Machine, ParseError, ParserState, ReadArgState,
    ReadNameState, SyntaxError, ACTION_NAME_TASK_PREFIX,
};
use crate::text::{trim, white_space};
use vstd::prelude::*;

verus! {

/// A line stands for one thing only: two results of parsing the same line are
/// the same.
pub proof fn lemma_parse_deterministic(
    line: Seq<char>,
    first: Result<ActionView, ParseError>,
    second: Result<ActionView, ParseError>,
)
    requires
        first == parse_spec(line),
        second == parse_spec(line),
    ensures
        first == second,
{
}

/// Whether no character of `word` is whitespace.
pub open spec fn unbroken(word: Seq<char>) -> bool {
    forall|i: int| 0 <= i < word.len() ==> !white_space(#[trigger] word[i])
}

/// Whether `word` is not empty and holds neither whitespace nor a quote nor
/// a `$`.
pub open spec fn plain(word: Seq<char>) -> bool {
    &&& word.len() > 0
    &&& forall|i: int|
        0 <= i < word.len() ==> !white_space(#[trigger] word[i]) && word[i] != '"' && word[i] != '$'
}

/// Whether every one of `words` is plain.
pub open spec fn all_plain(words: Seq<Seq<char>>) -> bool {
    forall|j: int| 0 <= j < words.len() ==> plain(#[trigger] words[j])
}

/// The words one after the other, each after one space.
pub open spec fn spaced(words: Seq<Seq<char>>) -> Seq<char>
    decreases words.len(),
{
    if words.len() == 0 {
        Seq::empty()
    } else {
        seq![' '] + words[0] + spaced(words.drop_first())
    }
}

/// The words as arguments, each a single literal.
pub open spec fn literals(words: Seq<Seq<char>>) -> Seq<Seq<Component>> {
    Seq::new(words.len(), |j: int| seq![Component::Literal(words[j])])
}

/// A machine that reads a name goes through characters that are no
/// whitespace one by one, and adds them to the name.
proof fn lemma_reads_name(machine: Machine, word: Seq<char>)
    requires
        machine.wf(),
        machine.state == ParserState::ReadName(ReadNameState::Name),
        unbroken(word),
        machine.read_count + word.len() <= machine.input.len(),
        machine.input.subrange(machine.read_count, machine.read_count + word.len()) == word,
    ensures
        machine.run() == (Machine {
            read_count: machine.read_count + word.len(),
            action: Line { name: machine.action.name + word, ..machine.action },
            ..machine
        }).run(),
    decreases word.len(),
{
    if word.len() == 0 {
        assert(machine.action.name + word =~= machine.action.name);
    } else {
        let c = machine.input[machine.read_count];
        assert(c == word[0]) by {
            assert(machine.input.subrange(
                machine.read_count,
                machine.read_count + word.len(),
            )[0] == c);
        }
        let after = machine.step()->Ok_0;
        let rest = word.drop_first();
        assert(after.input.subrange(after.read_count, after.read_count + rest.len()) =~= rest);
        assert forall|i: int| 0 <= i < rest.len() implies !white_space(#[trigger] rest[i]) by {
            assert(rest[i] == word[i + 1]);
        }
        lemma_reads_name(after, rest);
        assert(after.action.name + rest =~= machine.action.name + word);
    }
}

/// A machine that reads an argument goes through plain characters one by one,
/// and adds them to the text that it has buffered.
proof fn lemma_reads_plain(machine: Machine, word: Seq<char>)
    requires
        machine.wf(),
        machine.state == ParserState::ReadArg(ReadArgState::Literal),
        word.len() == 0 || plain(word),
        machine.read_count + word.len() <= machine.input.len(),
        machine.input.subrange(machine.read_count, machine.read_count + word.len()) == word,
    ensures
        machine.run() == (Machine {
            read_count: machine.read_count + word.len(),
            arg_buf: machine.arg_buf + word,
            ..machine
        }).run(),
    decreases word.len(),
{
    if word.len() == 0 {
        assert(machine.arg_buf + word =~= machine.arg_buf);
    } else {
        let c = machine.input[machine.read_count];
        assert(c == word[0]) by {
            assert(machine.input.subrange(
                machine.read_count,
                machine.read_count + word.len(),
            )[0] == c);
        }
        let after = machine.step()->Ok_0;
        let rest = word.drop_first();
        assert(after.input.subrange(after.read_count, after.read_count + rest.len()) =~= rest);
        if rest.len() > 0 {
            assert forall|i: int| 0 <= i < rest.len() implies !white_space(#[trigger] rest[i])
                && rest[i] != '"' && rest[i] != '$' by {
                assert(rest[i] == word[i + 1]);
            }
        }
        lemma_reads_plain(after, rest);
        assert(after.arg_buf + rest =~= machine.arg_buf + word);
    }
}

/// Whether `name` holds neither whitespace nor `}`.
pub open spec fn closed_by_brace(name: Seq<char>) -> bool {
    forall|i: int| 0 <= i < name.len() ==> !white_space(#[trigger] name[i]) && name[i] != '}'
}

/// Whether a component can be written down outside quotes: a literal is
/// plain, and the name of a variable holds neither whitespace nor `}`.
pub open spec fn printable(component: Component) -> bool {
    match component {
        Component::Literal(text) => plain(text),
        Component::Interpolated(name) => closed_by_brace(name),
    }
}

/// Whether an argument can be written down outside quotes: it has a
/// component, every component is printable, and no literal follows a literal.
pub open spec fn printable_argument(argument: Seq<Component>) -> bool {
    &&& argument.len() > 0
    &&& forall|i: int| 0 <= i < argument.len() ==> printable(#[trigger] argument[i])
    &&& forall|i: int|
        0 <= i < argument.len() - 1 ==> !(#[trigger] argument[i] is Literal && argument[i
            + 1] is Literal)
}

/// Whether `text` holds neither a quote nor a `$`.
pub open spec fn quotable(text: Seq<char>) -> bool {
    forall|i: int| 0 <= i < text.len() ==> #[trigger] text[i] != '"' && text[i] != '$'
}

/// Whether a component can be written down between quotes: a literal is not
/// empty and holds neither a quote nor a `$`, and the name of a variable
/// holds neither whitespace nor `}`.
pub open spec fn groupable(component: Component) -> bool {
    match component {
        Component::Literal(text) => text.len() > 0 && quotable(text),
        Component::Interpolated(name) => closed_by_brace(name),
    }
}

/// Whether an argument can be written down between quotes: it is the empty
/// literal alone, or it has a component, every component can be written down
/// between quotes, and no literal follows a literal.
pub open spec fn groupable_argument(argument: Seq<Component>) -> bool {
    ||| argument == seq![Component::Literal(Seq::<char>::empty())]
    ||| {
        &&& argument.len() > 0
        &&& forall|i: int| 0 <= i < argument.len() ==> groupable(#[trigger] argument[i])
        &&& forall|i: int|
            0 <= i < argument.len() - 1 ==> !(#[trigger] argument[i] is Literal && argument[i
                + 1] is Literal)
    }
}

/// Whether an argument can be written down in the given way: between quotes,
/// or outside them.
pub open spec fn writable_argument(argument: Seq<Component>, quoted: bool) -> bool {
    if quoted {
        groupable_argument(argument)
    } else {
        printable_argument(argument)
    }
}

/// Whether every one of `arguments` can be written down in the way that
/// `quotes` gives for it.
pub open spec fn writable_arguments(arguments: Seq<Seq<Component>>, quotes: Seq<bool>) -> bool {
    &&& quotes.len() == arguments.len()
    &&& forall|j: int|
        0 <= j < arguments.len() ==> writable_argument(#[trigger] arguments[j], quotes[j])
}

/// Whether a line can be written down, each argument in the way that
/// `quotes` gives for it: its name is not empty and holds no whitespace, the
/// name of a program does not start with the task marker, and every argument
/// can be written down in its way.
pub open spec fn writable_line(line: Line, quotes: Seq<bool>) -> bool {
    &&& line.name.len() > 0
    &&& unbroken(line.name)
    &&& line.target is External ==> line.name[0] != ACTION_NAME_TASK_PREFIX
    &&& writable_arguments(line.arguments, quotes)
}

/// A component as it is written: a literal as it is, a variable as `${name}`.
pub open spec fn shown_component(component: Component) -> Seq<char> {
    match component {
        Component::Literal(text) => text,
        Component::Interpolated(name) => seq!['$', '{'] + name + seq!['}'],
    }
}

/// An argument as it is written: its components one after the other.
pub open spec fn shown_argument(argument: Seq<Component>) -> Seq<char>
    decreases argument.len(),
{
    if argument.len() == 0 {
        Seq::empty()
    } else {
        shown_component(argument[0]) + shown_argument(argument.drop_first())
    }
}

/// An argument as it is written: its components one after the other, and
/// quotes around them where it is written between quotes.
pub open spec fn written_argument(argument: Seq<Component>, quoted: bool) -> Seq<char> {
    if quoted {
        seq!['"'] + shown_argument(argument) + seq!['"']
    } else {
        shown_argument(argument)
    }
}

/// Arguments as they are written: each after one space, and each in the way
/// that `quotes` gives for it.
pub open spec fn shown_arguments(arguments: Seq<Seq<Component>>, quotes: Seq<bool>) -> Seq<char>
    decreases arguments.len(),
{
    if arguments.len() == 0 {
        Seq::empty()
    } else {
        seq![' '] + written_argument(arguments[0], quotes[0]) + shown_arguments(
            arguments.drop_first(),
            quotes.drop_first(),
        )
    }
}

/// A line as it is written: the task marker where it calls a task, the name,
/// and the arguments.
pub open spec fn shown(line: Line, quotes: Seq<bool>) -> Seq<char> {
    (if line.target is Task {
        seq![ACTION_NAME_TASK_PREFIX]
    } else {
        Seq::empty()
    }) + line.name + shown_arguments(line.arguments, quotes)
}

/// The components that a machine has of the argument that it is reading,
/// the buffered text counted as a literal.
pub open spec fn flushed(machine: Machine) -> Seq<Component> {
    if machine.arg_buf.len() > 0 {
        machine.components.push(Component::Literal(machine.arg_buf))
    } else {
        machine.components
    }
}

/// The machine after it has read a component as it is written.
pub open spec fn after_component(machine: Machine, component: Component) -> Machine {
    match component {
        Component::Literal(text) => Machine {
            read_count: machine.read_count + text.len(),
            arg_buf: machine.arg_buf + text,
            ..machine
        },
        Component::Interpolated(name) => Machine {
            read_count: machine.read_count + name.len() + 3,
            arg_buf: Seq::empty(),
            components: flushed(machine).push(Component::Interpolated(name)),
            ..machine
        },
    }
}

/// The machine after it has read an argument as it is written.
pub open spec fn after_argument(machine: Machine, argument: Seq<Component>) -> Machine
    decreases argument.len(),
{
    if argument.len() == 0 {
        machine
    } else {
        after_argument(after_component(machine, argument[0]), argument.drop_first())
    }
}

/// A written argument is not empty and ends in a character that is no
/// whitespace.
proof fn lemma_shown_argument_end(argument: Seq<Component>)
    requires
        printable_argument(argument),
    ensures
        shown_argument(argument).len() > 0,
        !white_space(shown_argument(argument).last()),
    decreases argument.len(),
{
    let rest = argument.drop_first();
    let first = shown_component(argument[0]);
    assert(printable(argument[0]));
    assert(first.len() > 0 && !white_space(first.last())) by {
        match argument[0] {
            Component::Literal(text) => {
                assert(!white_space(text[text.len() - 1]));
            },
            Component::Interpolated(name) => {
                assert(first.last() == '}');
                assert(!white_space('}'));
            },
        }
    }
    if rest.len() > 0 {
        assert forall|i: int| 0 <= i < rest.len() implies printable(#[trigger] rest[i]) by {
            assert(rest[i] == argument[i + 1]);
        }
        assert forall|i: int| 0 <= i < rest.len() - 1 implies !(#[trigger] rest[i] is Literal
            && rest[i + 1] is Literal) by {
            assert(rest[i] == argument[i + 1]);
            assert(rest[i + 1] == argument[i + 2]);
        }
        lemma_shown_argument_end(rest);
        assert(shown_argument(argument).last() == shown_argument(rest).last());
    } else {
        assert(shown_argument(rest) =~= Seq::<char>::empty());
        assert(shown_argument(argument) =~= first);
    }
}

/// A written argument is not empty and ends in a character that is no
/// whitespace, whether it is written in quotes or outside them.
proof fn lemma_written_argument_end(argument: Seq<Component>, quoted: bool)
    requires
        writable_argument(argument, quoted),
    ensures
        written_argument(argument, quoted).len() > 0,
        !white_space(written_argument(argument, quoted).last()),
{
    if quoted {
        assert(written_argument(argument, quoted).last() == '"');
        assert(!white_space('"'));
    } else {
        lemma_shown_argument_end(argument);
    }
}

/// Written arguments, where there are any, end in a character that is no
/// whitespace.
proof fn lemma_shown_arguments_end(arguments: Seq<Seq<Component>>, quotes: Seq<bool>)
    requires
        writable_arguments(arguments, quotes),
        arguments.len() > 0,
    ensures
        shown_arguments(arguments, quotes).len() > 0,
        !white_space(shown_arguments(arguments, quotes).last()),
    decreases arguments.len(),
{
    let rest = arguments.drop_first();
    let ways = quotes.drop_first();
    assert(writable_argument(arguments[0], quotes[0]));
    lemma_written_argument_end(arguments[0], quotes[0]);
    if rest.len() > 0 {
        assert forall|j: int| 0 <= j < rest.len() implies writable_argument(
            #[trigger] rest[j],
            ways[j],
        ) by {
            assert(rest[j] == arguments[j + 1]);
            assert(ways[j] == quotes[j + 1]);
        }
        lemma_shown_arguments_end(rest, ways);
        assert(shown_arguments(arguments, quotes).last() == shown_arguments(rest, ways).last());
    } else {
        assert(shown_arguments(rest, ways) =~= Seq::<char>::empty());
        assert(shown_arguments(arguments, quotes) =~= seq![' '] + written_argument(
            arguments[0],
            quotes[0],
        ));
        assert(shown_arguments(arguments, quotes).last() == written_argument(
            arguments[0],
            quotes[0],
        ).last());
    }
}

/// A machine inside an interpolation span goes through the characters of a
/// name one by one, and adds them to the text that it has buffered.
proof fn lemma_reads_variable_name(machine: Machine, name: Seq<char>)
    requires
        machine.wf(),
        machine.state == ParserState::ReadArg(ReadArgState::Interpolated) || machine.state
            == ParserState::ReadArg(ReadArgState::InterpolatedInGroup),
        closed_by_brace(name),
        machine.read_count + name.len() <= machine.input.len(),
        machine.input.subrange(machine.read_count, machine.read_count + name.len()) == name,
    ensures
        machine.run() == (Machine {
            read_count: machine.read_count + name.len(),
            arg_buf: machine.arg_buf + name,
            ..machine
        }).run(),
    decreases name.len(),
{
    if name.len() == 0 {
        assert(machine.arg_buf + name =~= machine.arg_buf);
    } else {
        let c = machine.input[machine.read_count];
        assert(c == name[0]) by {
            assert(machine.input.subrange(
                machine.read_count,
                machine.read_count + name.len(),
            )[0] == c);
        }
        assert(!white_space(name[0]) && name[0] != '}');
        let after = machine.step()->Ok_0;
        let rest = name.drop_first();
        assert(after.input.subrange(after.read_count, after.read_count + rest.len()) =~= rest);
        assert forall|i: int| 0 <= i < rest.len() implies !white_space(#[trigger] rest[i])
            && rest[i] != '}' by {
            assert(rest[i] == name[i + 1]);
        }
        lemma_reads_variable_name(after, rest);
        assert(after.arg_buf + rest =~= machine.arg_buf + name);
    }
}

/// A machine inside a quoted group goes through characters that are neither
/// a quote nor a `$` one by one, and adds them to the text that it has
/// buffered.
proof fn lemma_reads_group_text(machine: Machine, text: Seq<char>)
    requires
        machine.wf(),
        machine.state == ParserState::ReadArg(ReadArgState::LiteralGroup),
        quotable(text),
        machine.read_count + text.len() <= machine.input.len(),
        machine.input.subrange(machine.read_count, machine.read_count + text.len()) == text,
    ensures
        machine.run() == (Machine {
            read_count: machine.read_count + text.len(),
            arg_buf: machine.arg_buf + text,
            ..machine
        }).run(),
    decreases text.len(),
{
    if text.len() == 0 {
        assert(machine.arg_buf + text =~= machine.arg_buf);
    } else {
        let c = machine.input[machine.read_count];
        assert(c == text[0]) by {
            assert(machine.input.subrange(
                machine.read_count,
                machine.read_count + text.len(),
            )[0] == c);
        }
        assert(text[0] != '"' && text[0] != '$');
        let after = machine.step()->Ok_0;
        let rest = text.drop_first();
        assert(after.input.subrange(after.read_count, after.read_count + rest.len()) =~= rest);
        assert forall|i: int| 0 <= i < rest.len() implies #[trigger] rest[i] != '"' && rest[i]
            != '$' by {
            assert(rest[i] == text[i + 1]);
        }
        lemma_reads_group_text(after, rest);
        assert(after.arg_buf + rest =~= machine.arg_buf + text);
    }
}

/// Whether a component can be written down, between quotes or outside them.
pub open spec fn component_fits(component: Component, in_group: bool) -> bool {
    if in_group {
        groupable(component)
    } else {
        printable(component)
    }
}

/// The state in which a machine reads an argument, between quotes or outside
/// them.
pub open spec fn reading(in_group: bool) -> ParserState {
    if in_group {
        ParserState::ReadArg(ReadArgState::LiteralGroup)
    } else {
        ParserState::ReadArg(ReadArgState::Literal)
    }
}

/// A machine that reads an argument, between quotes or outside them, goes
/// through a written component and has it afterwards.
proof fn lemma_reads_component(machine: Machine, component: Component, in_group: bool)
    requires
        machine.wf(),
        machine.state == reading(in_group),
        component_fits(component, in_group),
        machine.read_count + shown_component(component).len() <= machine.input.len(),
        machine.input.subrange(
            machine.read_count,
            machine.read_count + shown_component(component).len(),
        ) == shown_component(component),
    ensures
        machine.run() == after_component(machine, component).run(),
{
    match component {
        Component::Literal(text) => {
            if in_group {
                lemma_reads_group_text(machine, text);
            } else {
                lemma_reads_plain(machine, text);
            }
        },
        Component::Interpolated(name) => {
            let written = shown_component(component);
            let part = machine.input.subrange(
                machine.read_count,
                machine.read_count + written.len(),
            );
            assert(written.len() == name.len() + 3);
            assert(machine.input[machine.read_count] == part[0]);
            assert(machine.input[machine.read_count + 1] == part[1]);
            assert(written[0] == '$' && written[1] == '{');
            let opened = machine.step()->Ok_0;
            assert(machine.run() == opened.run());
            assert(opened.state == ParserState::ReadArg(
                if in_group {
                    ReadArgState::InterpolatedInGroup
                } else {
                    ReadArgState::Interpolated
                },
            ));
            assert(opened.components == flushed(machine));
            assert(opened.input.subrange(opened.read_count, opened.read_count + name.len())
                =~= name) by {
                assert forall|i: int| 0 <= i < name.len() implies opened.input[opened.read_count
                    + i] == name[i] by {
                    assert(part[2 + i] == written[2 + i]);
                    assert(machine.input[machine.read_count + 2 + i] == part[2 + i]);
                }
            }
            lemma_reads_variable_name(opened, name);
            let read = Machine {
                read_count: opened.read_count + name.len(),
                arg_buf: opened.arg_buf + name,
                ..opened
            };
            assert(read.arg_buf =~= name);
            assert(read.input[read.read_count] == '}') by {
                let last = 2 + name.len() as int;
                assert(part[last] == written[last]);
                assert(machine.input[machine.read_count + last] == part[last]);
            }
            let closed = read.step()->Ok_0;
            assert(read.run() == closed.run());
            assert(closed == after_component(machine, component));
        },
    }
}

/// Reading a written argument changes neither the line nor what is known of
/// the action, and moves on by the length of what is written.
proof fn lemma_after_argument(machine: Machine, argument: Seq<Component>)
    ensures
        after_argument(machine, argument).input == machine.input,
        after_argument(machine, argument).action == machine.action,
        after_argument(machine, argument).state == machine.state,
        after_argument(machine, argument).read_count == machine.read_count + shown_argument(
            argument,
        ).len(),
    decreases argument.len(),
{
    if argument.len() > 0 {
        lemma_after_argument(after_component(machine, argument[0]), argument.drop_first());
    }
}

/// A machine that reads an argument goes through a written argument and has
/// its components afterwards.
proof fn lemma_reads_argument(machine: Machine, argument: Seq<Component>, in_group: bool)
    requires
        machine.wf(),
        machine.state == reading(in_group),
        forall|i: int| 0 <= i < argument.len() ==> component_fits(#[trigger] argument[i], in_group),
        machine.read_count + shown_argument(argument).len() <= machine.input.len(),
        machine.input.subrange(
            machine.read_count,
            machine.read_count + shown_argument(argument).len(),
        ) == shown_argument(argument),
    ensures
        machine.run() == after_argument(machine, argument).run(),
    decreases argument.len(),
{
    if argument.len() > 0 {
        let first = argument[0];
        let rest = argument.drop_first();
        let written = shown_argument(argument);
        let part = machine.input.subrange(machine.read_count, machine.read_count + written.len());
        assert(component_fits(first, in_group));
        assert(machine.input.subrange(
            machine.read_count,
            machine.read_count + shown_component(first).len(),
        ) =~= shown_component(first)) by {
            assert forall|i: int| 0 <= i < shown_component(first).len() implies
                machine.input[machine.read_count + i] == shown_component(first)[i] by {
                assert(part[i] == written[i]);
            }
        }
        lemma_reads_component(machine, first, in_group);
        let after = after_component(machine, first);
        assert(after.read_count == machine.read_count + shown_component(first).len());
        assert(after.input.subrange(
            after.read_count,
            after.read_count + shown_argument(rest).len(),
        ) =~= shown_argument(rest)) by {
            assert forall|i: int| 0 <= i < shown_argument(rest).len() implies
                after.input[after.read_count + i] == shown_argument(rest)[i] by {
                assert(part[shown_component(first).len() + i] == written[shown_component(
                    first,
                ).len() + i]);
            }
        }
        assert forall|i: int| 0 <= i < rest.len() implies component_fits(
            #[trigger] rest[i],
            in_group,
        ) by {
            assert(rest[i] == argument[i + 1]);
        }
        lemma_reads_argument(after, rest, in_group);
    }
}

/// After a written argument in which no literal follows a literal, the
/// machine has of the argument what it had before and the components that
/// were written.
proof fn lemma_flushed_after_argument(machine: Machine, argument: Seq<Component>)
    requires
        forall|i: int|
            0 <= i < argument.len() ==> (#[trigger] argument[i] matches Component::Literal(text)
                ==> text.len() > 0),
        forall|i: int|
            0 <= i < argument.len() - 1 ==> !(#[trigger] argument[i] is Literal && argument[i
                + 1] is Literal),
        machine.arg_buf.len() > 0 ==> argument.len() == 0 || argument[0] is Interpolated,
    ensures
        flushed(after_argument(machine, argument)) == flushed(machine) + argument,
    decreases argument.len(),
{
    if argument.len() == 0 {
        assert(flushed(machine) + argument =~= flushed(machine));
    } else {
        let first = argument[0];
        let rest = argument.drop_first();
        let after = after_component(machine, first);
        
        assert(flushed(after) =~= flushed(machine).push(first)) by {
            match first {
                Component::Literal(text) => {
                    assert(machine.arg_buf + text =~= text);
                },
                Component::Interpolated(_) => {},
            }
        }
        assert forall|i: int| 0 <= i < rest.len() implies (
        #[trigger] rest[i] matches Component::Literal(text) ==> text.len() > 0) by {
            assert(rest[i] == argument[i + 1]);
        }
        assert forall|i: int| 0 <= i < rest.len() - 1 implies !(#[trigger] rest[i] is Literal
            && rest[i + 1] is Literal) by {
            assert(rest[i] == argument[i + 1]);
            assert(rest[i + 1] == argument[i + 2]);
        }
        if rest.len() > 0 {
            assert(rest[0] == argument[1]);
            assert(!(argument[0int] is Literal && argument[0int + 1] is Literal));
        }
        lemma_flushed_after_argument(after, rest);
        assert(flushed(machine).push(first) + rest =~= flushed(machine) + argument);
    }
}

/// A machine that is about to read an argument, with nothing of it buffered,
/// goes through a written argument and has its components afterwards, with
/// what followed the argument still to read.
proof fn lemma_reads_one(machine: Machine, argument: Seq<Component>, tail: Seq<char>)
    requires
        machine.wf(),
        machine.state == ParserState::ReadArg(ReadArgState::Literal),
        machine.arg_buf.len() == 0,
        machine.components.len() == 0,
        printable_argument(argument),
        machine.input.skip(machine.read_count) == shown_argument(argument) + tail,
    ensures
        machine.run() == after_argument(machine, argument).run(),
        after_argument(machine, argument).wf(),
        after_argument(machine, argument).state == machine.state,
        after_argument(machine, argument).input == machine.input,
        after_argument(machine, argument).action == machine.action,
        flushed(after_argument(machine, argument)) == argument,
        after_argument(machine, argument).input.skip(
            after_argument(machine, argument).read_count,
        ) == tail,
{
    let unread = machine.input.skip(machine.read_count);
    let written = shown_argument(argument);
    assert(unread.len() == written.len() + tail.len());
    assert(machine.input.subrange(machine.read_count, machine.read_count + written.len())
        =~= written) by {
        assert forall|i: int| 0 <= i < written.len() implies machine.input[machine.read_count
            + i] == written[i] by {
            assert(unread[i] == written[i]);
        }
    }
    lemma_reads_argument(machine, argument, false);
    lemma_after_argument(machine, argument);
    lemma_flushed_after_argument(machine, argument);
    let read = after_argument(machine, argument);
    assert(flushed(machine) =~= Seq::<Component>::empty());
    assert(flushed(read) =~= argument);
    assert(read.input.skip(read.read_count) =~= tail) by {
        assert(read.input.skip(read.read_count) =~= unread.skip(written.len() as int));
    }
    assert(read.wf()) by {
        lemma_shown_argument_end(argument);
    }
}

/// A machine that is about to read an argument, with nothing of it buffered,
/// goes through the opening quote and a written argument up to the closing
/// quote, and has the components of the argument then.
proof fn lemma_reads_quoted(machine: Machine, argument: Seq<Component>, tail: Seq<char>)
    requires
        machine.wf(),
        machine.state == ParserState::ReadArg(ReadArgState::Literal),
        machine.arg_buf.len() == 0,
        machine.components.len() == 0,
        groupable_argument(argument),
        machine.input.skip(machine.read_count) == seq!['"'] + shown_argument(argument) + seq![
            '"',
        ] + tail,
    ensures
        machine.run() == after_argument(
            machine.advance().goto(reading(true)),
            argument,
        ).run(),
        after_argument(machine.advance().goto(reading(true)), argument).wf(),
        after_argument(machine.advance().goto(reading(true)), argument).peek() == Some('"'),
        after_argument(machine.advance().goto(reading(true)), argument).advance().end_literal_component(
            after_argument(machine.advance().goto(reading(true)), argument).components.len() == 0,
        ).components == argument,
        machine.input.skip(machine.read_count + 2 + shown_argument(argument).len()) == tail,
        after_argument(machine.advance().goto(reading(true)), argument).read_count
            == machine.read_count + 1 + shown_argument(argument).len(),
        after_argument(machine.advance().goto(reading(true)), argument).input == machine.input,
        after_argument(machine.advance().goto(reading(true)), argument).action == machine.action,
        after_argument(machine.advance().goto(reading(true)), argument).state == reading(true),
{
    let unread = machine.input.skip(machine.read_count);
    let written = shown_argument(argument);
    assert(unread.len() == 2 + written.len() + tail.len());
    assert(machine.input[machine.read_count] == unread[0]);
    assert(unread[0] == '"');
    let opened = machine.step()->Ok_0;
    assert(machine.run() == opened.run());
    assert(opened == machine.advance().goto(reading(true)));
    assert(opened.input.subrange(opened.read_count, opened.read_count + written.len())
        =~= written) by {
        assert forall|i: int| 0 <= i < written.len() implies opened.input[opened.read_count + i]
            == written[i] by {
            assert(unread[1 + i] == written[i]);
        }
    }
    let empty = seq![Component::Literal(Seq::<char>::empty())];
    let read = after_argument(opened, argument);
    lemma_after_argument(opened, argument);
    let close = 1 + written.len() as int;
    assert(machine.input[machine.read_count + close] == unread[close]);
    assert(unread[close] == '"');
    assert(machine.input.skip(machine.read_count + 2 + written.len()) =~= tail) by {
        assert(machine.input.skip(machine.read_count + 2 + written.len()) =~= unread.skip(
            close + 1,
        ));
    }
    if argument == empty {
        assert(argument.drop_first() =~= Seq::<Component>::empty());
        assert(shown_argument(argument.drop_first()) =~= Seq::<char>::empty());
        assert(written =~= Seq::<char>::empty());
        assert(after_component(opened, argument[0]).arg_buf =~= Seq::<char>::empty());
        assert(after_argument(after_component(opened, argument[0]), argument.drop_first())
            == after_component(opened, argument[0]));
        assert(read.arg_buf.len() == 0 && read.components.len() == 0);
        assert(read.advance().end_literal_component(true).components =~= argument);
        assert(read.run() == opened.run()) by {
            assert(read.read_count == opened.read_count);
            assert(read == opened);
        }
    } else {
        assert forall|i: int| 0 <= i < argument.len() implies component_fits(
            #[trigger] argument[i],
            true,
        ) by {
            assert(groupable(argument[i]));
        }
        lemma_reads_argument(opened, argument, true);
        assert forall|i: int| 0 <= i < argument.len() implies (
        #[trigger] argument[i] matches Component::Literal(text) ==> text.len() > 0) by {
            assert(groupable(argument[i]));
        }
        lemma_flushed_after_argument(opened, argument);
        assert(flushed(opened) =~= Seq::<Component>::empty());
        assert(flushed(read) =~= argument);
    }
}

/// A machine that is about to read an argument, with nothing of it buffered
/// and nothing but written arguments left to read, ends with all those
/// arguments.
proof fn lemma_reads_written(
    machine: Machine,
    argument: Seq<Component>,
    quoted: bool,
    others: Seq<Seq<Component>>,
    quotes: Seq<bool>,
)
    requires
        machine.wf(),
        machine.state == ParserState::ReadArg(ReadArgState::Literal),
        machine.arg_buf.len() == 0,
        machine.components.len() == 0,
        writable_argument(argument, quoted),
        writable_arguments(others, quotes),
        machine.input.skip(machine.read_count) == written_argument(argument, quoted)
            + shown_arguments(others, quotes),
    ensures
        machine.run() == Ok::<Line, SyntaxError>(
            Line {
                arguments: machine.action.arguments.push(argument) + others,
                ..machine.action
            },
        ),
    decreases others.len(),
{
    let tail = shown_arguments(others, quotes);
    let closed = machine.action.arguments.push(argument);
    let rest = others.drop_first();
    let ways = quotes.drop_first();
    if others.len() > 0 {
        assert(writable_argument(others[0], quotes[0]));
        assert forall|j: int| 0 <= j < rest.len() implies writable_argument(
            #[trigger] rest[j],
            ways[j],
        ) by {
            assert(rest[j] == others[j + 1]);
            assert(ways[j] == quotes[j + 1]);
        }
        assert(closed.push(others[0]) + rest =~= closed + others);
        assert(tail == seq![' '] + written_argument(others[0], quotes[0]) + shown_arguments(
            rest,
            ways,
        ));
    } else {
        assert(closed + others =~= closed);
        assert(tail.len() == 0);
    }
    assert(white_space(' '));
    if quoted {
        lemma_reads_quoted(machine, argument, tail);
        let read = after_argument(machine.advance().goto(reading(true)), argument);
        let flushed_read = read.advance().end_literal_component(read.components.len() == 0);
        let shut = flushed_read.end_arg();
        assert(argument.len() > 0);
        assert(shut.action.arguments == closed);
        assert(shut.read_count == machine.read_count + 2 + shown_argument(argument).len());
        assert(shut.input == machine.input);
        if others.len() == 0 {
            assert(machine.input.skip(shut.read_count).len() == 0);
            assert(shut.peek() is None);
            let after = read.step()->Ok_0;
            assert(read.run() == after.run());
            assert(after.state == ParserState::ReadArg(ReadArgState::Literal));
            assert(after.read_count == after.input.len());
            let done = after.step()->Ok_0;
            assert(done.state is Done);
            assert(after.run() == done.run());
        } else {
            assert(tail.len() > 0);
            assert(shut.input.skip(shut.read_count)[0] == tail[0]);
            assert(shut.input[shut.read_count] == ' ');
            assert(shut.peek() == Some(' '));
            let after = read.step()->Ok_0;
            assert(read.run() == after.run());
            assert(after.state == ParserState::ReadArg(ReadArgState::Literal));
            assert(after.action.arguments == closed);
            assert(after.input.skip(after.read_count) =~= written_argument(others[0], quotes[0])
                + shown_arguments(rest, ways)) by {
                assert(after.input.skip(after.read_count) =~= tail.skip(1));
            }
            lemma_reads_written(after, others[0], quotes[0], rest, ways);
        }
    } else {
        lemma_reads_one(machine, argument, tail);
        let read = after_argument(machine, argument);
        if others.len() == 0 {
            assert(read.read_count == read.input.len());
            assert(read.peek() is None);
            let done = read.step()->Ok_0;
            assert(done.state is Done);
            assert(read.run() == done.run());
            assert(done.action.arguments == closed);
        } else {
            assert(tail.len() > 0);
            assert(read.read_count < read.input.len());
            assert(read.input[read.read_count] == tail[0]);
            assert(read.peek() == Some(' '));
            let after = read.step()->Ok_0;
            assert(read.run() == after.run());
            assert(after.action.arguments == closed);
            assert(after.arg_buf.len() == 0 && after.components.len() == 0);
            assert(after.input.skip(after.read_count) =~= written_argument(others[0], quotes[0])
                + shown_arguments(rest, ways)) by {
                assert(after.input.skip(after.read_count) =~= tail.skip(1));
            }
            lemma_reads_written(after, others[0], quotes[0], rest, ways);
        }
    }
}

/// A machine that has read a name and has nothing but written arguments
/// left to read ends with those arguments.
proof fn lemma_reads_arguments(
    machine: Machine,
    arguments: Seq<Seq<Component>>,
    quotes: Seq<bool>,
)
    requires
        machine.wf(),
        machine.state == ParserState::ReadName(ReadNameState::Name),
        machine.action.name.len() > 0,
        machine.action.arguments.len() == 0,
        writable_arguments(arguments, quotes),
        machine.input.skip(machine.read_count) == shown_arguments(arguments, quotes),
    ensures
        machine.run() == Ok::<Line, SyntaxError>(Line { arguments, ..machine.action }),
{
    let unread = machine.input.skip(machine.read_count);
    if arguments.len() == 0 {
        assert(unread.len() == 0);
        assert(machine.read_count == machine.input.len());
        assert(machine.peek() is None);
        let after = machine.step()->Ok_0;
        assert(after.state is Done);
        assert(machine.run() == after.run());
        assert(arguments =~= machine.action.arguments);
    } else {
        let first = arguments[0];
        let rest = arguments.drop_first();
        let ways = quotes.drop_first();
        let tail = shown_arguments(rest, ways);
        assert(unread == seq![' '] + written_argument(first, quotes[0]) + tail);
        assert(unread.len() > 0);
        assert(machine.read_count < machine.input.len());
        assert(machine.input[machine.read_count] == unread[0]);
        assert(white_space(' '));
        assert(machine.peek() == Some(' '));
        let named = machine.step()->Ok_0;
        assert(machine.run() == named.run());
        assert(named.state == ParserState::ReadName(ReadNameState::Done));
        let after = named.step()->Ok_0;
        assert(named.run() == after.run());
        assert(after.input.skip(after.read_count) =~= written_argument(first, quotes[0]) + tail) by {
            assert(after.input.skip(after.read_count) =~= unread.skip(1));
        }
        assert(writable_argument(first, quotes[0]));
        assert forall|j: int| 0 <= j < rest.len() implies writable_argument(
            #[trigger] rest[j],
            ways[j],
        ) by {
            assert(rest[j] == arguments[j + 1]);
            assert(ways[j] == quotes[j + 1]);
        }
        lemma_reads_written(after, first, quotes[0], rest, ways);
        assert(after.action.arguments.push(first) + rest =~= arguments);
    }
}

/// Whoever writes a line down and parses what is written gets the line back:
/// the same name, the same target, and the same arguments, as many as were
/// written and in their order, each with its components, whichever of the
/// arguments were written between quotes.
pub proof fn lemma_written_line_parses_back(line: Line, quotes: Seq<bool>)
    requires
        writable_line(line, quotes),
    ensures
        parse_line(shown(line, quotes)) == Ok::<Line, SyntaxError>(line),
{
    let text = shown(line, quotes);
    let name = line.name;
    let marker: Seq<char> = if line.target is Task {
        seq![ACTION_NAME_TASK_PREFIX]
    } else {
        Seq::empty()
    };
    assert(!white_space('_'));
    assert(!white_space(text[0])) by {
        if line.target is Task {
            assert(text[0] == '_');
        } else {
            assert(text[0] == name[0]);
        }
    }
    if line.arguments.len() > 0 {
        lemma_shown_arguments_end(line.arguments, quotes);
        assert(text.last() == shown_arguments(line.arguments, quotes).last());
    } else {
        assert(text =~= marker + name);
        assert(text.last() == name[name.len() - 1]);
    }
    assert(trim(text) == text);
    let begun = Machine::start(text);
    let aimed = begun.step()->Ok_0;
    assert(begun.run() == aimed.run());
    let first = aimed.step()->Ok_0;
    assert(aimed.run() == first.run());
    let more = if line.target is Task {
        name
    } else {
        name.drop_first()
    };
    assert(first.action.name + more =~= name) by {
        if line.target is Task {
            assert(text[0] == '_');
        } else {
            assert(text[0] == name[0]);
            assert(first.action.name =~= seq![name[0]]);
        }
    }
    assert(first.action.target == line.target);
    assert(first.read_count == 1);
    assert(first.input.subrange(first.read_count, first.read_count + more.len()) =~= more) by {
        assert forall|i: int| 0 <= i < more.len() implies first.input[1 + i] == more[i] by {
            if line.target is Task {
                assert(text[1 + i] == name[i]);
            } else {
                assert(text[1 + i] == name[1 + i]);
            }
        }
    }
    assert forall|i: int| 0 <= i < more.len() implies !white_space(#[trigger] more[i]) by {
        if line.target is Task {
        } else {
            assert(more[i] == name[i + 1]);
        }
    }
    lemma_reads_name(first, more);
    let named = Machine {
        read_count: first.read_count + more.len(),
        action: Line { name: first.action.name + more, ..first.action },
        ..first
    };
    assert(named.input.skip(named.read_count) =~= shown_arguments(line.arguments, quotes));
    lemma_reads_arguments(named, line.arguments, quotes);
}

/// For each of `count` arguments, that it is written outside quotes.
pub open spec fn unquoted(count: nat) -> Seq<bool> {
    Seq::new(count, |j: int| false)
}

/// What stands between quotes is read as what stands outside them: an
/// argument that can be written down outside quotes stands for the same
/// components when quotes are put around it, with no component added.
pub proof fn lemma_quotes_change_nothing(line: Line, quotes: Seq<bool>)
    requires
        writable_line(line, unquoted(line.arguments.len())),
        quotes.len() == line.arguments.len(),
    ensures
        writable_line(line, quotes),
        parse_line(shown(line, quotes)) == parse_line(
            shown(line, unquoted(line.arguments.len())),
        ),
        parse_line(shown(line, quotes)) == Ok::<Line, SyntaxError>(line),
{
    let plainly = unquoted(line.arguments.len());
    assert forall|j: int| 0 <= j < line.arguments.len() implies writable_argument(
        #[trigger] line.arguments[j],
        quotes[j],
    ) by {
        let argument = line.arguments[j];
        assert(writable_argument(argument, plainly[j]));
        assert forall|i: int| 0 <= i < argument.len() implies groupable(
            #[trigger] argument[i],
        ) by {
            assert(printable(argument[i]));
        }
    }
    lemma_written_line_parses_back(line, quotes);
    lemma_written_line_parses_back(line, plainly);
}

/// Plain words, written as arguments, are the words each after one space.
proof fn lemma_shown_words(words: Seq<Seq<char>>)
    requires
        all_plain(words),
    ensures
        shown_arguments(literals(words), unquoted(words.len())) == spaced(words),
    decreases words.len(),
{
    if words.len() > 0 {
        let rest = words.drop_first();
        assert forall|j: int| 0 <= j < rest.len() implies plain(#[trigger] rest[j]) by {
            assert(rest[j] == words[j + 1]);
        }
        lemma_shown_words(rest);
        assert(literals(words).drop_first() =~= literals(rest));
        assert(unquoted(words.len()).drop_first() =~= unquoted(rest.len()));
        let first = literals(words)[0];
        assert(plain(words[0]));
        assert(first.drop_first() =~= Seq::<Component>::empty());
        assert(shown_argument(first.drop_first()) =~= Seq::<char>::empty());
        assert(shown_argument(first) =~= words[0]);
    }
}

/// The name of a program followed by plain words, each after one space, is
/// the command of that program with the words as its arguments, one literal
/// each, as many as there are words and in their order.
pub proof fn lemma_plain_command(name: Seq<char>, words: Seq<Seq<char>>)
    requires
        name.len() > 0,
        unbroken(name),
        name[0] != ACTION_NAME_TASK_PREFIX,
        all_plain(words),
    ensures
        parse_line(name + spaced(words)) == Ok::<Line, SyntaxError>(
            Line { name, arguments: literals(words), target: Target::External },
        ),
        parse_spec(name + spaced(words)) == Ok::<ActionView, ParseError>(
            ActionView::Command(CommandView { name, arguments: literals(words) }),
        ),
{
    let line = Line { name, arguments: literals(words), target: Target::External };
    lemma_shown_words(words);
    assert(shown(line, unquoted(words.len())) =~= name + spaced(words));
    assert forall|j: int| 0 <= j < line.arguments.len() implies writable_argument(
        #[trigger] line.arguments[j],
        unquoted(words.len())[j],
    ) by {
        assert(plain(words[j]));
        assert(printable_argument(line.arguments[j]));
    }
    lemma_written_line_parses_back(line, unquoted(words.len()));
}

/// The task marker, the name of a task and plain words, each after one space,
/// are the call of that task with the words as its arguments, one literal
/// each, as many as there are words and in their order.
pub proof fn lemma_plain_call(name: Seq<char>, words: Seq<Seq<char>>)
    requires
        name.len() > 0,
        unbroken(name),
        all_plain(words),
    ensures
        parse_line(seq![ACTION_NAME_TASK_PREFIX] + name + spaced(words)) == Ok::<Line, SyntaxError>(
            Line { name, arguments: literals(words), target: Target::Task },
        ),
{
    let line = Line { name, arguments: literals(words), target: Target::Task };
    lemma_shown_words(words);
    assert(shown(line, unquoted(words.len())) =~= seq![ACTION_NAME_TASK_PREFIX] + name + spaced(words));
    assert forall|j: int| 0 <= j < line.arguments.len() implies writable_argument(
        #[trigger] line.arguments[j],
        unquoted(words.len())[j],
    ) by {
        assert(plain(words[j]));
        assert(printable_argument(line.arguments[j]));
    }
    lemma_written_line_parses_back(line, unquoted(words.len()));
}

/// The argument that names a parameter: two dashes and the name.
pub open spec fn flag(name: Seq<char>) -> Seq<Component> {
    seq![Component::Literal(seq!['-', '-'] + name)]
}

/// Bindings as arguments: for each, the argument that names the parameter
/// and then the value.
pub open spec fn paired(params: Seq<(Seq<char>, Seq<Component>)>) -> Seq<Seq<Component>>
    decreases params.len(),
{
    if params.len() == 0 {
        Seq::empty()
    } else {
        seq![flag(params[0].0), params[0].1] + paired(params.drop_first())
    }
}

/// Whether bindings can be written as arguments: no name is empty or starts
/// with two dashes, no name is bound twice, and no value looks like the name
/// of a parameter.
pub open spec fn bindable(params: Seq<(Seq<char>, Seq<Component>)>) -> bool {
    &&& bound_names(params).no_duplicates()
    &&& forall|i: int|
        0 <= i < params.len() ==> (#[trigger] params[i]).0.len() > 0 && !dashed(params[i].0)
            && !names_parameter(params[i].1)
}

/// Arguments that are bindings written down, read after some bindings that
/// do not bind the same names, add those bindings in their order.
proof fn lemma_binds_pairs(
    before: Seq<Seq<Component>>,
    bound: Seq<(Seq<char>, Seq<Component>)>,
    params: Seq<(Seq<char>, Seq<Component>)>,
)
    requires
        bindable(bound + params),
    ensures
        bind_from(before + paired(params), before.len() as int, bound) == Ok::<
            Seq<(Seq<char>, Seq<Component>)>,
            BindingError,
        >(bound + params),
    decreases params.len(),
{
    let all = before + paired(params);
    let from = before.len() as int;
    if params.len() == 0 {
        assert(paired(params) =~= Seq::<Seq<Component>>::empty());
        assert(all =~= before);
        assert(bound + params =~= bound);
    } else {
        let (name, value) = params[0];
        let rest = params.drop_first();
        let whole = bound + params;
        assert(whole[bound.len() as int] == params[0]);
        assert(name.len() > 0 && !dashed(name) && !names_parameter(value));
        assert(all[from] == flag(name));
        assert(all[from + 1] == value);
        let text = seq!['-', '-'] + name;
        assert(names_parameter(flag(name))) by {
            assert(flag(name)[0] == Component::Literal(text));
            assert(text[0] == '-' && text[1] == '-');
        }
        assert(parameter_name(flag(name)) == name) by {
            assert(flag(name)[0]->Literal_0 == text);
            assert(dashed(text));
            assert(text.skip(2) =~= name);
            assert(strip_dashes(name) == name);
        }
        assert(!bound_names(bound).contains(name)) by {
            if bound_names(bound).contains(name) {
                let j = choose|j: int| 0 <= j < bound.len() && bound_names(bound)[j] == name;
                assert(bound_names(whole)[j] == name);
                assert(bound_names(whole)[bound.len() as int] == name);
            }
        }
        let more = bound.push((name, value));
        assert(rebound(bound, name, value) == more);
        assert(more + rest =~= whole);
        let read = before + seq![flag(name), value];
        assert(read + paired(rest) =~= all);
        lemma_binds_pairs(read, more, rest);
    }
}

/// Bindings that are written as arguments and read again are the same
/// bindings, in the same order.
pub proof fn lemma_written_bindings_bind_back(params: Seq<(Seq<char>, Seq<Component>)>)
    requires
        bindable(params),
    ensures
        bind_from(paired(params), 0, Seq::empty()) == Ok::<
            Seq<(Seq<char>, Seq<Component>)>,
            BindingError,
        >(params),
{
    let none = Seq::<(Seq<char>, Seq<Component>)>::empty();
    assert(none + params =~= params);
    assert(Seq::<Seq<Component>>::empty() + paired(params) =~= paired(params));
    lemma_binds_pairs(Seq::empty(), none, params);
}

} // verus!
