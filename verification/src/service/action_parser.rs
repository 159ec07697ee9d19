//! The action grammar: one line of text becomes an action.
//!
//! A line is a name and, separated by whitespace, its arguments. A leading
//! `_` directly before the name marks the call of a task; without it the line
//! runs an external program. An argument is made of literal text, of quoted
//! groups `"…"` that may hold whitespace, and of interpolation spans `${name}`,
//! in any mixture.
//!
//! The parser is a state machine that reads one character at a time and never
//! looks back. [`Machine`] is that machine as a mathematical value and
//! [`Machine::step`] its transition function; [`ActionParser`] is the machine
//! in executable form, and each of its handlers is proved to make exactly the
//! transition that the model makes.

use crate::model::action::{
    bindings, ActionView, Argument, ArgumentComponent, Command, CommandView, Component, Target,
    TaskCall, TaskCallView,
};
use crate::ordered_map::OrderedMap;
use crate::text::{decimal, push_decimal, to_chars, to_string, trim, trimmed, white_space};
use vstd::prelude::*;
use vstd::string::StringExecFns;

verus! {

/// The character that marks the call of a task.
pub const ACTION_NAME_TASK_PREFIX: char = '_';

/// A parsed action line: the name, the arguments in order, and the target.
#[derive(Debug)]
pub struct Action {
    pub name: String,
    pub arguments: Vec<Argument>,
    pub target: Target,
}

/// A parsed action line as a mathematical value.
pub struct Line {
    pub name: Seq<char>,
    pub arguments: Seq<Seq<Component>>,
    pub target: Target,
}

impl DeepView for Action {
    type V = Line;

    open spec fn deep_view(&self) -> Line {
        Line { name: self.name@, arguments: self.arguments.deep_view(), target: self.target }
    }
}

/// What is wrong with a line.
#[derive(PartialEq, Eq, Debug, Clone, Copy)]
pub enum SyntaxErrorKind {
    /// The line has no name: it is empty, or whitespace follows the task
    /// marker or stands where the name should start.
    EmptyName,
    /// A quoted group is not closed, or its closing quote is not followed by
    /// whitespace or the end of the line.
    UnterminatedQuote,
    /// An interpolation span is not closed before whitespace or the end of the
    /// line.
    UnterminatedInterpolation,
    /// A `$` is not followed by `{`.
    StrayMarker,
}

/// A syntax error, with the place at which it was detected.
#[derive(PartialEq, Eq, Debug, Clone, Copy)]
pub struct SyntaxError {
    pub kind: SyntaxErrorKind,
    /// The number of characters that precede the place of detection.
    pub offset: usize,
    /// The character at that place, or `None` at the end of the line.
    pub found: Option<char>,
}

/// Where the machine is while it reads the name.
#[derive(PartialEq, Eq, Clone, Copy, Debug)]
pub enum ReadNameState {
    /// Before the first character, which may be the task marker.
    Target,
    /// Inside the name.
    Name,
    /// After the whitespace that ends the name.
    Done,
}

/// Where the machine is while it reads the arguments.
#[derive(PartialEq, Eq, Clone, Copy, Debug)]
pub enum ReadArgState {
    /// Outside quotes and interpolation spans.
    Literal,
    /// Inside a quoted group.
    LiteralGroup,
    /// Inside an interpolation span outside quotes.
    Interpolated,
    /// Inside an interpolation span inside a quoted group.
    InterpolatedInGroup,
}

/// The state of the machine.
#[derive(PartialEq, Eq, Clone, Copy, Debug)]
pub enum ParserState {
    Start,
    ReadName(ReadNameState),
    ReadArg(ReadArgState),
    Done,
}

/// The parser as a mathematical value.
pub struct Machine {
    /// The whole line.
    pub input: Seq<char>,
    /// How many characters of it have been read.
    pub read_count: int,
    /// The action as far as it is known.
    pub action: Line,
    /// The text of the component that is being read.
    pub arg_buf: Seq<char>,
    /// The finished components of the argument that is being read.
    pub components: Seq<Component>,
    pub state: ParserState,
}

impl Machine {
    /// The machine before it has read anything of `input`.
    pub open spec fn start(input: Seq<char>) -> Machine {
        Machine {
            input,
            read_count: 0,
            action: Line { name: Seq::empty(), arguments: Seq::empty(), target: Target::External },
            arg_buf: Seq::empty(),
            components: Seq::empty(),
            state: ParserState::Start,
        }
    }

    /// The read position lies within the line; nothing is buffered before the
    /// first argument starts or after the machine is done; and a machine that
    /// is done has read the whole line.
    pub open spec fn wf(self) -> bool {
        &&& 0 <= self.read_count <= self.input.len()
        &&& !(self.state is ReadArg) ==> self.arg_buf.len() == 0 && self.components.len() == 0
        &&& self.state is Done ==> self.read_count == self.input.len()
    }

    /// The next character, if the line has one left.
    pub open spec fn peek(self) -> Option<char> {
        if self.read_count < self.input.len() {
            Some(self.input[self.read_count])
        } else {
            None
        }
    }

    /// The machine after it has read the next character, if there is one.
    pub open spec fn advance(self) -> Machine {
        if self.read_count < self.input.len() {
            Machine { read_count: self.read_count + 1, ..self }
        } else {
            self
        }
    }

    /// The machine after it has read the whitespace that comes next.
    pub open spec fn skip_whitespace(self) -> Machine
        decreases self.input.len() - self.read_count,
    {
        if 0 <= self.read_count < self.input.len() && white_space(self.input[self.read_count]) {
            self.advance().skip_whitespace()
        } else {
            self
        }
    }

    /// The error of the given kind, detected at the next character.
    pub open spec fn error(self, kind: SyntaxErrorKind) -> SyntaxError {
        SyntaxError { kind, offset: self.read_count as usize, found: self.peek() }
    }

    /// The machine in another state.
    pub open spec fn goto(self, state: ParserState) -> Machine {
        Machine { state, ..self }
    }

    /// Closes a literal component: the buffered text becomes a component,
    /// unless it is empty and `allow_empty` is not set.
    pub open spec fn end_literal_component(self, allow_empty: bool) -> Machine {
        if allow_empty || self.arg_buf.len() > 0 {
            Machine {
                components: self.components.push(Component::Literal(self.arg_buf)),
                arg_buf: Seq::empty(),
                ..self
            }
        } else {
            self
        }
    }

    /// Closes an interpolation span: the buffered text becomes the name of a
    /// variable.
    pub open spec fn end_interpolation_component(self) -> Machine {
        Machine {
            components: self.components.push(Component::Interpolated(self.arg_buf)),
            arg_buf: Seq::empty(),
            ..self
        }
    }

    /// Closes an argument: the finished components, if there are any, become
    /// the next argument of the action.
    pub open spec fn end_arg(self) -> Machine {
        if self.components.len() > 0 {
            Machine {
                action: Line {
                    arguments: self.action.arguments.push(self.components),
                    ..self.action
                },
                components: Seq::empty(),
                ..self
            }
        } else {
            self
        }
    }

    /// Reads the character after a `$`, which has to be `{`.
    pub open spec fn interpolation_start(self) -> Result<Machine, SyntaxError> {
        if self.peek() == Some('{') {
            Ok(self.advance())
        } else {
            Err(self.error(SyntaxErrorKind::StrayMarker))
        }
    }

    /// One transition while an argument is read. What stands between quotes
    /// is read as what stands outside them, but for whitespace, which is kept:
    /// the closing quote closes the literal that is buffered, and only where
    /// the argument has no component at all does it stand for an empty
    /// literal.
    pub open spec fn read_arg(self, state: ReadArgState) -> Result<Machine, SyntaxError> {
        let next = self.advance();
        match state {
            ReadArgState::Literal => match self.peek() {
                Some(c) => if c == '$' {
                    match next.interpolation_start() {
                        Ok(opened) => Ok(
                            opened.end_literal_component(false).goto(
                                ParserState::ReadArg(ReadArgState::Interpolated),
                            ),
                        ),
                        Err(e) => Err(e),
                    }
                } else if c == '"' {
                    Ok(next.goto(ParserState::ReadArg(ReadArgState::LiteralGroup)))
                } else if white_space(c) {
                    Ok(next.end_literal_component(false).end_arg())
                } else {
                    Ok(Machine { arg_buf: self.arg_buf.push(c), ..next })
                },
                None => Ok(self.end_literal_component(false).end_arg().goto(ParserState::Done)),
            },
            ReadArgState::LiteralGroup => match self.peek() {
                Some(c) => if c == '"' {
                    let closed = next.end_literal_component(
                        next.components.len() == 0,
                    ).end_arg();
                    match closed.peek() {
                        Some(d) => if white_space(d) {
                            Ok(closed.advance().goto(ParserState::ReadArg(ReadArgState::Literal)))
                        } else {
                            Err(closed.error(SyntaxErrorKind::UnterminatedQuote))
                        },
                        None => Ok(closed.goto(ParserState::ReadArg(ReadArgState::Literal))),
                    }
                } else if c == '$' {
                    match next.interpolation_start() {
                        Ok(opened) => Ok(
                            opened.end_literal_component(false).goto(
                                ParserState::ReadArg(ReadArgState::InterpolatedInGroup),
                            ),
                        ),
                        Err(e) => Err(e),
                    }
                } else {
                    Ok(Machine { arg_buf: self.arg_buf.push(c), ..next })
                },
                None => Err(self.error(SyntaxErrorKind::UnterminatedQuote)),
            },
            ReadArgState::Interpolated => self.interpolated(false),
            ReadArgState::InterpolatedInGroup => self.interpolated(true),
        }
    }

    /// One transition inside an interpolation span.
    pub open spec fn interpolated(self, from_group: bool) -> Result<Machine, SyntaxError> {
        let next = self.advance();
        match self.peek() {
            Some(c) => if c == '}' {
                Ok(
                    next.end_interpolation_component().goto(
                        ParserState::ReadArg(
                            if from_group {
                                ReadArgState::LiteralGroup
                            } else {
                                ReadArgState::Literal
                            },
                        ),
                    ),
                )
            } else if white_space(c) {
                Err(self.error(SyntaxErrorKind::UnterminatedInterpolation))
            } else {
                Ok(Machine { arg_buf: self.arg_buf.push(c), ..next })
            },
            None => Err(self.error(SyntaxErrorKind::UnterminatedInterpolation)),
        }
    }

    /// One transition while the name is read.
    pub open spec fn read_name(self, state: ReadNameState) -> Result<Machine, SyntaxError> {
        let next = self.advance();
        match state {
            ReadNameState::Target => match self.peek() {
                Some(c) => if c == ACTION_NAME_TASK_PREFIX {
                    Ok(
                        Machine {
                            action: Line { target: Target::Task, ..self.action },
                            ..next
                        }.goto(ParserState::ReadName(ReadNameState::Name)),
                    )
                } else if white_space(c) {
                    Err(self.error(SyntaxErrorKind::EmptyName))
                } else {
                    Ok(
                        Machine {
                            action: Line { name: self.action.name.push(c), ..self.action },
                            ..next
                        }.goto(ParserState::ReadName(ReadNameState::Name)),
                    )
                },
                None => Err(self.error(SyntaxErrorKind::EmptyName)),
            },
            ReadNameState::Name => match self.peek() {
                Some(c) => if white_space(c) {
                    if self.action.name.len() == 0 {
                        Err(self.error(SyntaxErrorKind::EmptyName))
                    } else {
                        Ok(next.goto(ParserState::ReadName(ReadNameState::Done)))
                    }
                } else {
                    Ok(
                        Machine {
                            action: Line { name: self.action.name.push(c), ..self.action },
                            ..next
                        },
                    )
                },
                None => if self.action.name.len() == 0 {
                    Err(self.error(SyntaxErrorKind::EmptyName))
                } else {
                    Ok(self.goto(ParserState::Done))
                },
            },
            ReadNameState::Done => Ok(self.goto(ParserState::ReadArg(ReadArgState::Literal))),
        }
    }

    /// One transition of the machine. A machine that is done stays as it is.
    pub open spec fn step(self) -> Result<Machine, SyntaxError> {
        match self.state {
            ParserState::Start => Ok(self.goto(ParserState::ReadName(ReadNameState::Target))),
            ParserState::ReadName(state) => self.read_name(state),
            ParserState::ReadArg(state) => self.read_arg(state),
            ParserState::Done => Ok(self),
        }
    }

    /// A bound on the number of transitions that are left.
    pub open spec fn fuel(self) -> nat {
        let unread = (self.input.len() - self.read_count) as nat;
        match self.state {
            ParserState::Start => 3 * unread + 3,
            ParserState::ReadName(ReadNameState::Done) => 3 * unread + 2,
            ParserState::Done => 0,
            _ => 3 * unread + 1,
        }
    }

    /// The machine run until it is done or fails.
    pub open spec fn run(self) -> Result<Line, SyntaxError>
        decreases self.fuel(),
        when self.wf()
    {
        if self.state is Done {
            Ok(self.action)
        } else {
            match self.step() {
                Ok(next) => next.run(),
                Err(e) => Err(e),
            }
        }
    }
}

/// A transition of a well-formed machine that is not done leaves it well
/// formed and with less fuel.
pub proof fn lemma_step_progress(machine: Machine)
    requires
        machine.wf(),
        !(machine.state is Done),
        machine.step() is Ok,
    ensures
        machine.step()->Ok_0.wf(),
        machine.step()->Ok_0.fuel() < machine.fuel(),
        machine.step()->Ok_0.input == machine.input,
{
}

/// The parser in executable form.
pub struct ActionParser {
    input: Vec<char>,
    read_count: usize,
    action: Action,
    arg_buf: String,
    arg_component_buf: Vec<ArgumentComponent>,
    state: ParserState,
}

impl View for ActionParser {
    type V = Machine;

    closed spec fn view(&self) -> Machine {
        Machine {
            input: self.input@,
            read_count: self.read_count as int,
            action: self.action.deep_view(),
            arg_buf: self.arg_buf@,
            components: self.arg_component_buf.deep_view(),
            state: self.state,
        }
    }
}

impl ActionParser {
    /// A parser that has read nothing of `value` yet.
    pub fn new(value: &str) -> (parser: ActionParser)
        ensures
            parser@ == Machine::start(value@),
    {
        ActionParser::over(to_chars(value))
    }

    /// A parser that has read nothing of `input` yet.
    pub fn over(input: Vec<char>) -> (parser: ActionParser)
        ensures
            parser@ == Machine::start(input@),
    {
        let parser = ActionParser {
            input,
            read_count: 0,
            action: Action { name: String::new(), arguments: Vec::new(), target: Target::External },
            arg_buf: String::new(),
            arg_component_buf: Vec::new(),
            state: ParserState::Start,
        };
        assert(parser.action.arguments.deep_view() =~= Seq::<Seq<Component>>::empty());
        assert(parser.arg_component_buf.deep_view() =~= Seq::<Component>::empty());
        parser
    }

    /// Reads the next character, if the line has one left.
    pub fn next(&mut self) -> (c: Option<char>)
        ensures
            c == old(self)@.peek(),
            final(self)@ == old(self)@.advance(),
    {
        if self.read_count < self.input.len() {
            let c = self.input[self.read_count];
            self.read_count = self.read_count + 1;
            Some(c)
        } else {
            None
        }
    }

    /// Reads the next character, which the line has to have: at its end the
    /// line is refused with an error of the given kind.
    pub fn next_err(&mut self, kind: SyntaxErrorKind) -> (result: Result<char, SyntaxError>)
        ensures
            match result {
                Ok(c) => old(self)@.peek() == Some(c) && final(self)@ == old(self)@.advance(),
                Err(e) => old(self)@.peek() is None && e == old(self)@.error(kind) && final(self)@
                    == old(self)@,
            },
    {
        let offset = self.read_count;
        match self.next() {
            Some(c) => Ok(c),
            None => Err(SyntaxError { kind, offset, found: None }),
        }
    }

    /// Reads up to and including the next character that is no whitespace.
    pub fn next_non_whitespace(&mut self) -> (c: Option<char>)
        ensures
            c == old(self)@.skip_whitespace().peek(),
            final(self)@ == old(self)@.skip_whitespace().advance(),
    {
        let ghost mut before = self@;
        let mut found = self.next();
        loop
            invariant
                0 <= before.read_count,
                before.skip_whitespace() == old(self)@.skip_whitespace(),
                found == before.peek(),
                self@ == before.advance(),
            ensures
                found == old(self)@.skip_whitespace().peek(),
                self@ == old(self)@.skip_whitespace().advance(),
            decreases before.input.len() - before.read_count,
        {
            match found {
                Some(c) => {
                    if !c.is_whitespace() {
                        break ;
                    }
                },
                None => {
                    break ;
                },
            }
            proof {
                before = self@;
            }
            found = self.next();
        }
        found
    }

    /// Reads up to and including the next character that is no whitespace,
    /// which the line has to have.
    pub fn next_non_whitespace_err(&mut self, kind: SyntaxErrorKind) -> (result: Result<
        char,
        SyntaxError,
    >)
        ensures
            match result {
                Ok(c) => old(self)@.skip_whitespace().peek() == Some(c),
                Err(e) => old(self)@.skip_whitespace().peek() is None && e == old(
                    self,
                )@.skip_whitespace().error(kind),
            },
            final(self)@ == old(self)@.skip_whitespace().advance(),
    {
        match self.next_non_whitespace() {
            Some(c) => Ok(c),
            None => Err(SyntaxError { kind, offset: self.read_count, found: None }),
        }
    }

    /// Drops what is buffered of the argument that is being read.
    pub fn reset_buf(&mut self)
        ensures
            final(self)@ == (Machine {
                arg_buf: Seq::empty(),
                components: Seq::empty(),
                ..old(self)@
            }),
    {
        self.arg_buf = String::new();
        self.arg_component_buf = Vec::new();
        assert(self.arg_component_buf.deep_view() =~= Seq::<Component>::empty());
    }

    /// Closes a literal component.
    pub fn handle_end_literal_component(&mut self, allow_empty: bool)
        ensures
            final(self)@ == old(self)@.end_literal_component(allow_empty),
    {
        if allow_empty || !self.arg_buf.as_str().is_empty() {
            let mut text = String::new();
            std::mem::swap(&mut text, &mut self.arg_buf);
            self.arg_component_buf.push(ArgumentComponent::Literal(text));
            assert(self.arg_component_buf.deep_view() =~= old(self).arg_component_buf.deep_view().push(
                Component::Literal(old(self).arg_buf@),
            ));
        }
    }

    /// Closes an interpolation span.
    pub fn handle_end_interpolation_component(&mut self)
        ensures
            final(self)@ == old(self)@.end_interpolation_component(),
    {
        let mut name = String::new();
        std::mem::swap(&mut name, &mut self.arg_buf);
        self.arg_component_buf.push(ArgumentComponent::Interpolated(name));
        assert(self.arg_component_buf.deep_view() =~= old(self).arg_component_buf.deep_view().push(
            Component::Interpolated(old(self).arg_buf@),
        ));
    }

    /// Closes an argument.
    pub fn handle_end_arg(&mut self)
        ensures
            final(self)@ == old(self)@.end_arg(),
    {
        if self.arg_component_buf.len() > 0 {
            let mut components = Vec::new();
            std::mem::swap(&mut components, &mut self.arg_component_buf);
            self.action.arguments.push(Argument { components });
            assert(self.action.arguments.deep_view() =~= old(self).action.arguments.deep_view().push(
                old(self).arg_component_buf.deep_view(),
            ));
            assert(self.arg_component_buf.deep_view() =~= Seq::<Component>::empty());
        }
    }

    /// Turns to the reading of an argument, outside quotes.
    pub fn set_state_reset_arg(&mut self)
        ensures
            final(self)@ == old(self)@.goto(ParserState::ReadArg(ReadArgState::Literal)),
    {
        self.state = ParserState::ReadArg(ReadArgState::Literal);
    }

    /// Reads the character after a `$`, which has to be `{`. Where it is not,
    /// nothing is read.
    pub fn assert_valid_interpolation_start(&mut self) -> (result: Result<(), SyntaxError>)
        ensures
            match result {
                Ok(()) => old(self)@.interpolation_start() == Ok::<Machine, SyntaxError>(
                    final(self)@,
                ),
                Err(e) => old(self)@.interpolation_start() == Err::<Machine, SyntaxError>(e) && final(self)@
                    == old(self)@,
            },
    {
        let offset = self.read_count;
        match self.next_err(SyntaxErrorKind::StrayMarker) {
            Ok('{') => Ok(()),
            Ok(c) => {
                self.read_count = offset;
                Err(SyntaxError { kind: SyntaxErrorKind::StrayMarker, offset, found: Some(c) })
            },
            Err(e) => Err(e),
        }
    }

    /// Makes one transition while an argument is read. Where the line is
    /// refused, the parser is left as it was.
    pub fn handle_read_arg(&mut self, read_arg_state: ReadArgState) -> (result: Result<
        (),
        SyntaxError,
    >)
        ensures
            match result {
                Ok(()) => old(self)@.read_arg(read_arg_state) == Ok::<Machine, SyntaxError>(
                    final(self)@,
                ),
                Err(e) => old(self)@.read_arg(read_arg_state) == Err::<Machine, SyntaxError>(e) && final(self)@
                    == old(self)@,
            },
    {
        let start = self.read_count;
        match read_arg_state {
            ReadArgState::Literal => match self.next() {
                Some('$') => {
                    match self.assert_valid_interpolation_start() {
                        Ok(()) => {},
                        Err(e) => {
                            self.read_count = start;
                            return Err(e);
                        },
                    }
                    self.handle_end_literal_component(false);
                    self.state = ParserState::ReadArg(ReadArgState::Interpolated);
                },
                Some('"') => {
                    self.state = ParserState::ReadArg(ReadArgState::LiteralGroup);
                },
                Some(c) => {
                    if c.is_whitespace() {
                        self.handle_end_literal_component(false);
                        self.handle_end_arg();
                    } else {
                        self.arg_buf.push(c);
                    }
                },
                None => {
                    self.handle_end_literal_component(false);
                    self.handle_end_arg();
                    self.state = ParserState::Done;
                },
            },
            ReadArgState::LiteralGroup => {
                match self.next_err(SyntaxErrorKind::UnterminatedQuote) {
                    Ok('"') => {
                        let offset = self.read_count;
                        let found = self.next();
                        match found {
                            Some(d) => {
                                if !d.is_whitespace() {
                                    self.read_count = start;
                                    return Err(
                                        SyntaxError {
                                            kind: SyntaxErrorKind::UnterminatedQuote,
                                            offset,
                                            found,
                                        },
                                    );
                                }
                            },
                            None => {},
                        }
                        let allow_empty = self.arg_component_buf.len() == 0;
                        self.handle_end_literal_component(allow_empty);
                        self.handle_end_arg();
                        self.set_state_reset_arg();
                    },
                    Ok('$') => {
                        match self.assert_valid_interpolation_start() {
                            Ok(()) => {},
                            Err(e) => {
                                self.read_count = start;
                                return Err(e);
                            },
                        }
                        self.handle_end_literal_component(false);
                        self.state = ParserState::ReadArg(ReadArgState::InterpolatedInGroup);
                    },
                    Ok(c) => {
                        self.arg_buf.push(c);
                    },
                    Err(e) => {
                        return Err(e);
                    },
                }
            },
            ReadArgState::Interpolated => {
                return self.handle_interpolated(false);
            },
            ReadArgState::InterpolatedInGroup => {
                return self.handle_interpolated(true);
            },
        }
        Ok(())
    }

    /// Makes one transition inside an interpolation span. Where the line is
    /// refused, the parser is left as it was.
    pub fn handle_interpolated(&mut self, from_group: bool) -> (result: Result<(), SyntaxError>)
        ensures
            match result {
                Ok(()) => old(self)@.interpolated(from_group) == Ok::<Machine, SyntaxError>(
                    final(self)@,
                ),
                Err(e) => old(self)@.interpolated(from_group) == Err::<Machine, SyntaxError>(e) && final(self)@
                    == old(self)@,
            },
    {
        let offset = self.read_count;
        match self.next_err(SyntaxErrorKind::UnterminatedInterpolation) {
            Ok('}') => {
                self.handle_end_interpolation_component();
                if from_group {
                    self.state = ParserState::ReadArg(ReadArgState::LiteralGroup);
                } else {
                    self.set_state_reset_arg();
                }
                Ok(())
            },
            Ok(c) => {
                if c.is_whitespace() {
                    self.read_count = offset;
                    Err(
                        SyntaxError {
                            kind: SyntaxErrorKind::UnterminatedInterpolation,
                            offset,
                            found: Some(c),
                        },
                    )
                } else {
                    self.arg_buf.push(c);
                    Ok(())
                }
            },
            Err(e) => Err(e),
        }
    }

    /// Makes one transition while the name is read. Where the line is
    /// refused, the parser is left as it was.
    pub fn handle_read_name(&mut self, read_name_state: ReadNameState) -> (result: Result<
        (),
        SyntaxError,
    >)
        ensures
            match result {
                Ok(()) => old(self)@.read_name(read_name_state) == Ok::<Machine, SyntaxError>(
                    final(self)@,
                ),
                Err(e) => old(self)@.read_name(read_name_state) == Err::<Machine, SyntaxError>(e) && final(self)@
                    == old(self)@,
            },
    {
        match read_name_state {
            ReadNameState::Target => {
                let offset = self.read_count;
                let first_char = match self.next_err(SyntaxErrorKind::EmptyName) {
                    Ok(c) => c,
                    Err(e) => {
                        return Err(e);
                    },
                };
                if first_char == ACTION_NAME_TASK_PREFIX {
                    self.action.target = Target::Task;
                } else if first_char.is_whitespace() {
                    self.read_count = offset;
                    return Err(
                        SyntaxError {
                            kind: SyntaxErrorKind::EmptyName,
                            offset,
                            found: Some(first_char),
                        },
                    );
                } else {
                    self.action.name.push(first_char);
                }
                self.state = ParserState::ReadName(ReadNameState::Name);
            },
            ReadNameState::Name => {
                let offset = self.read_count;
                let found = self.next();
                match found {
                    Some(c) => {
                        if !c.is_whitespace() {
                            self.action.name.push(c);
                        } else if self.action.name.as_str().is_empty() {
                            self.read_count = offset;
                            return Err(
                                SyntaxError { kind: SyntaxErrorKind::EmptyName, offset, found },
                            );
                        } else {
                            self.state = ParserState::ReadName(ReadNameState::Done);
                        }
                    },
                    None => {
                        if self.action.name.as_str().is_empty() {
                            return Err(
                                SyntaxError { kind: SyntaxErrorKind::EmptyName, offset, found },
                            );
                        }
                        self.state = ParserState::Done;
                    },
                }
            },
            ReadNameState::Done => {
                self.set_state_reset_arg();
            },
        }
        Ok(())
    }

    /// Runs the parser until it is done or the line proves to be malformed.
    pub fn parse(self) -> (result: Result<Action, SyntaxError>)
        requires
            self@.wf(),
        ensures
            match result {
                Ok(action) => self@.run() == Ok::<Line, SyntaxError>(action.deep_view()),
                Err(e) => self@.run() == Err::<Line, SyntaxError>(e),
            },
    {
        let mut parser = self;
        loop
            invariant
                parser@.wf(),
                parser@.run() == self@.run(),
            decreases parser@.fuel(),
        {
            let ghost before = parser@;
            let step = match parser.state {
                ParserState::Start => {
                    parser.state = ParserState::ReadName(ReadNameState::Target);
                    Ok(())
                },
                ParserState::ReadName(state) => parser.handle_read_name(state),
                ParserState::ReadArg(state) => parser.handle_read_arg(state),
                ParserState::Done => {
                    assert(parser@.arg_buf.len() == 0 && parser@.components.len() == 0);
                    assert(parser@.peek() is None);
                    return Ok(parser.action);
                },
            };
            match step {
                Ok(()) => {
                    proof {
                        lemma_step_progress(before);
                    }
                },
                Err(e) => {
                    return Err(e);
                },
            }
        }
    }
}

/// What a line parses to: the machine run over the line without the
/// whitespace around it.
pub open spec fn parse_line(text: Seq<char>) -> Result<Line, SyntaxError> {
    Machine::start(trim(text)).run()
}

impl Action {
    /// Parses one action line.
    pub fn from_str(text: &str) -> (result: Result<Action, SyntaxError>)
        ensures
            match result {
                Ok(action) => parse_line(text@) == Ok::<Line, SyntaxError>(action.deep_view()),
                Err(e) => parse_line(text@) == Err::<Line, SyntaxError>(e),
            },
    {
        let chars = to_chars(text);
        ActionParser::over(trimmed(&chars)).parse()
    }
}

impl SyntaxError {
    /// Why a line of this kind is refused.
    pub open spec fn reason(kind: SyntaxErrorKind, at_end: bool) -> Seq<char> {
        match kind {
            SyntaxErrorKind::EmptyName => "Action must have a name"@,
            SyntaxErrorKind::UnterminatedQuote => if at_end {
                "argument group must be closed"@
            } else {
                "literal group must be followed by whitespace"@
            },
            SyntaxErrorKind::UnterminatedInterpolation => "interpolation must be closed"@,
            SyntaxErrorKind::StrayMarker => "$ must be followed by {"@,
        }
    }

    /// The text that describes the error. One detected at the end of the line
    /// says how many characters had been asked for when the line ran out.
    pub open spec fn message(self) -> Seq<char> {
        if self.found is Some {
            Self::reason(self.kind, false)
        } else if self.kind is EmptyName {
            if self.offset == 0 {
                "Empty action is invalid"@
            } else {
                Self::reason(self.kind, true)
            }
        } else {
            "Error at "@ + decimal((self.offset + 1) as nat) + ": "@ + Self::reason(self.kind, true)
        }
    }

    /// The text that describes the error.
    pub fn to_string(&self) -> (text: String)
        ensures
            text@ == self.message(),
    {
        let at_end = self.found.is_none();
        let reason = match self.kind {
            SyntaxErrorKind::EmptyName => "Action must have a name",
            SyntaxErrorKind::UnterminatedQuote => if at_end {
                "argument group must be closed"
            } else {
                "literal group must be followed by whitespace"
            },
            SyntaxErrorKind::UnterminatedInterpolation => "interpolation must be closed",
            SyntaxErrorKind::StrayMarker => "$ must be followed by {",
        };
        if !at_end {
            reason.to_owned()
        } else {
            match self.kind {
                SyntaxErrorKind::EmptyName => if self.offset == 0 {
                    "Empty action is invalid".to_owned()
                } else {
                    reason.to_owned()
                },
                _ => {
                    let mut text = "Error at ".to_owned();
                    let position: u128 = self.offset as u128 + 1;
                    push_decimal(&mut text, position);
                    text.append(": ");
                    text.append(reason);
                    text
                },
            }
        }
    }
}

/// What is wrong with the arguments of a task call.
#[derive(PartialEq, Eq, Debug, Clone, Copy)]
pub enum BindingErrorKind {
    /// An argument stands where `--` and the name of a parameter should.
    ExpectedParameterName,
    /// The name of a parameter is not followed by a value.
    ExpectedParameterValue,
}

/// An error in the arguments of a task call.
#[derive(PartialEq, Eq, Debug, Clone, Copy)]
pub struct BindingError {
    pub kind: BindingErrorKind,
    /// The position, among the arguments, at which the error was detected.
    pub index: usize,
}

impl BindingError {
    /// The text that describes the error.
    pub open spec fn message(self) -> Seq<char> {
        match self.kind {
            BindingErrorKind::ExpectedParameterName => "Expected param name at argument "@
                + decimal(self.index as nat),
            BindingErrorKind::ExpectedParameterValue => "Expected param value at argument "@
                + decimal(self.index as nat),
        }
    }

    /// The text that describes the error.
    pub fn to_string(&self) -> (text: String)
        ensures
            text@ == self.message(),
    {
        let mut text = match self.kind {
            BindingErrorKind::ExpectedParameterName => "Expected param name at argument "
                .to_owned(),
            BindingErrorKind::ExpectedParameterValue => "Expected param value at argument "
                .to_owned(),
        };
        push_decimal(&mut text, self.index as u128);
        text
    }
}

/// Why a line is not an action.
#[derive(PartialEq, Eq, Debug, Clone, Copy)]
pub enum ParseError {
    Syntax(SyntaxError),
    Binding(BindingError),
}

impl ParseError {
    /// The text that describes the error.
    pub open spec fn message(self) -> Seq<char> {
        match self {
            ParseError::Syntax(error) => error.message(),
            ParseError::Binding(error) => error.message(),
        }
    }

    /// The text that describes the error.
    pub fn to_string(&self) -> (text: String)
        ensures
            text@ == self.message(),
    {
        match self {
            ParseError::Syntax(error) => error.to_string(),
            ParseError::Binding(error) => error.to_string(),
        }
    }
}

/// Whether `text` starts with two dashes.
pub open spec fn dashed(text: Seq<char>) -> bool {
    text.len() >= 2 && text[0] == '-' && text[1] == '-'
}

/// `text` without the pairs of dashes at its start.
pub open spec fn strip_dashes(text: Seq<char>) -> Seq<char>
    decreases text.len(),
{
    if dashed(text) {
        strip_dashes(text.skip(2))
    } else {
        text
    }
}

/// Whether an argument names a parameter: it is one literal that starts with
/// two dashes and goes on after them.
pub open spec fn names_parameter(argument: Seq<Component>) -> bool {
    &&& argument.len() == 1
    &&& argument[0] matches Component::Literal(text)
    &&& text.len() > 2
    &&& dashed(text)
}

/// The parameter that such an argument names.
pub open spec fn parameter_name(argument: Seq<Component>) -> Seq<char> {
    strip_dashes(argument[0]->Literal_0)
}

/// The names of a sequence of bindings.
pub open spec fn bound_names(params: Seq<(Seq<char>, Seq<Component>)>) -> Seq<Seq<char>> {
    Seq::new(params.len(), |i: int| params[i].0)
}

/// The bindings after `name` is bound to `value`: a name that is bound
/// already keeps its place and gets the new value, a new name goes to the end.
pub open spec fn rebound(
    params: Seq<(Seq<char>, Seq<Component>)>,
    name: Seq<char>,
    value: Seq<Component>,
) -> Seq<(Seq<char>, Seq<Component>)> {
    if bound_names(params).contains(name) {
        params.update(bound_names(params).index_of(name), (name, value))
    } else {
        params.push((name, value))
    }
}

/// The bindings that the arguments from position `from` on add to `params`:
/// the arguments come in pairs, the name of a parameter and its value.
pub open spec fn bind_from(
    arguments: Seq<Seq<Component>>,
    from: int,
    params: Seq<(Seq<char>, Seq<Component>)>,
) -> Result<Seq<(Seq<char>, Seq<Component>)>, BindingError>
    decreases arguments.len() - from,
{
    if from < 0 || from >= arguments.len() {
        Ok(params)
    } else if !names_parameter(arguments[from]) {
        Err(BindingError { kind: BindingErrorKind::ExpectedParameterName, index: from as usize })
    } else if from + 1 >= arguments.len() || names_parameter(arguments[from + 1]) {
        Err(
            BindingError {
                kind: BindingErrorKind::ExpectedParameterValue,
                index: (from + 1) as usize,
            },
        )
    } else {
        bind_from(
            arguments,
            from + 2,
            rebound(params, parameter_name(arguments[from]), arguments[from + 1]),
        )
    }
}

/// The action that a parsed line stands for. The arguments of a program are
/// taken as they are; those of a task call are read as bindings.
pub open spec fn resolve(line: Line) -> Result<ActionView, BindingError> {
    match line.target {
        Target::External => Ok(
            ActionView::Command(CommandView { name: line.name, arguments: line.arguments }),
        ),
        Target::Task => match bind_from(line.arguments, 0, Seq::empty()) {
            Ok(params) => Ok(ActionView::TaskCall(TaskCallView { name: line.name, params })),
            Err(e) => Err(e),
        },
    }
}

/// The action that a line of text stands for.
pub open spec fn parse_spec(text: Seq<char>) -> Result<ActionView, ParseError> {
    match parse_line(text) {
        Ok(line) => match resolve(line) {
            Ok(action) => Ok(action),
            Err(e) => Err(ParseError::Binding(e)),
        },
        Err(e) => Err(ParseError::Syntax(e)),
    }
}

/// `chars` without the pairs of dashes at its start, as a string.
pub fn stripped_of_dashes(chars: &Vec<char>) -> (text: String)
    ensures
        text@ == strip_dashes(chars@),
{
    let len = chars.len();
    let mut from: usize = 0;
    assert(chars@.skip(0) =~= chars@);
    while len - from >= 2 && chars[from] == '-' && chars[from + 1] == '-'
        invariant
            from <= len == chars@.len(),
            strip_dashes(chars@) == strip_dashes(chars@.skip(from as int)),
        decreases len - from,
    {
        assert(chars@.skip(from as int).skip(2) =~= chars@.skip(from + 2));
        from += 2;
    }
    assert(chars@.skip(from as int) =~= chars@.subrange(from as int, len as int));
    to_string(chars, from, len)
}

/// The name of the parameter that `argument` names, if it names one.
pub fn as_parameter_name(argument: &Argument) -> (name: Option<String>)
    ensures
        match name {
            Some(name) => names_parameter(argument.deep_view()) && name@ == parameter_name(
                argument.deep_view(),
            ),
            None => !names_parameter(argument.deep_view()),
        },
{
    if argument.components.len() != 1 {
        return None;
    }
    match &argument.components[0] {
        ArgumentComponent::Literal(text) => {
            let chars = to_chars(text.as_str());
            if chars.len() > 2 && chars[0] == '-' && chars[1] == '-' {
                Some(stripped_of_dashes(&chars))
            } else {
                None
            }
        },
        ArgumentComponent::Interpolated(_) => None,
    }
}

/// Reads the arguments of a task call as bindings.
pub fn bind(arguments: Vec<Argument>) -> (result: Result<OrderedMap<Argument>, BindingError>)
    ensures
        match result {
            Ok(params) => bind_from(arguments.deep_view(), 0, Seq::empty()) == Ok::<
                Seq<(Seq<char>, Seq<Component>)>,
                BindingError,
            >(bindings(params)),
            Err(e) => bind_from(arguments.deep_view(), 0, Seq::empty()) == Err::<
                Seq<(Seq<char>, Seq<Component>)>,
                BindingError,
            >(e),
        },
{
    let ghost items = arguments@;
    let ghost all = arguments.deep_view();
    let len = arguments.len();
    let mut params: OrderedMap<Argument> = OrderedMap::new();
    let mut pending: Option<String> = None;
    let mut index: usize = 0;
    assert(bindings(params) =~= Seq::empty());
    for argument in rest: arguments
        invariant
            rest.seq() == items,
            all == arguments.deep_view(),
            all.len() == items.len() == len,
            forall|i: int| 0 <= i < items.len() ==> (#[trigger] items[i]).deep_view() == all[i],
            index == rest.index(),
            index <= len,
            match pending {
                Some(name) => {
                    &&& index >= 1
                    &&& names_parameter(all[index - 1])
                    &&& name@ == parameter_name(all[index - 1])
                    &&& bind_from(all, 0, Seq::empty()) == bind_from(
                        all,
                        index - 1,
                        bindings(params),
                    )
                },
                None => bind_from(all, 0, Seq::empty()) == bind_from(
                    all,
                    index as int,
                    bindings(params),
                ),
            },
    {
        assert(argument.deep_view() == all[index as int]) by {
            assert(items[index as int].deep_view() == all[index as int]);
        }
        let named = as_parameter_name(&argument);
        match pending {
            None => match named {
                Some(name) => {
                    pending = Some(name);
                },
                None => {
                    return Err(
                        BindingError { kind: BindingErrorKind::ExpectedParameterName, index },
                    );
                },
            },
            Some(name) => {
                if named.is_some() {
                    return Err(
                        BindingError { kind: BindingErrorKind::ExpectedParameterValue, index },
                    );
                }
                let ghost old_params = params;
                let ghost key = name@;
                params.well_formed();
                params.insert(name, argument);
                proof {
                    let was = bindings(old_params);
                    let now = bindings(params);
                    assert(bound_names(was) =~= old_params.names());
                    assert(now =~= rebound(was, key, argument.deep_view()));
                }
                pending = None;
            },
        }
        index = index + 1;
    }
    match pending {
        Some(_) => Err(BindingError { kind: BindingErrorKind::ExpectedParameterValue, index }),
        None => Ok(params),
    }
}

/// Parses one action line into the action that it stands for.
pub fn parse(line: &str) -> (result: Result<crate::model::action::Action, ParseError>)
    ensures
        match result {
            Ok(action) => parse_spec(line@) == Ok::<ActionView, ParseError>(action.deep_view()),
            Err(e) => parse_spec(line@) == Err::<ActionView, ParseError>(e),
        },
{
    let parsed = match Action::from_str(line) {
        Ok(parsed) => parsed,
        Err(e) => {
            return Err(ParseError::Syntax(e));
        },
    };
    let Action { name, arguments, target } = parsed;
    match target {
        Target::External => Ok(crate::model::action::Action::Command(Command { name, arguments })),
        Target::Task => match bind(arguments) {
            Ok(params) => Ok(crate::model::action::Action::TaskCall(TaskCall { name, params })),
            Err(e) => Err(ParseError::Binding(e)),
        },
    }
}

} // verus!
