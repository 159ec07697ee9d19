//! The brace syntax for action lines.
//!
//! In this syntax a variable is written `{{ name }}`, a task is called with
//! `--parameter value` pairs, and a leading `:` marks the call of a task.
//! A line is cut into tokens, each the longest that fits at its place:
//!
//! - a parameter, `--` and what follows up to the next whitespace;
//! - a quoted group, from one `"` to the next;
//! - a literal, a run of `{{…}}` spans and of characters that are neither
//!   whitespace nor `{`.
//!
//! Where two kinds fit with the same length, a parameter goes before a quoted
//! group and a quoted group before a literal. The text of a quoted group or a
//! literal is then cut into components: literal text and variables.

use crate::model::action::{
    bindings, Action, ActionView, Argument, ArgumentComponent, Command, CommandView, Component,
    TaskCall, TaskCallView,
};
use crate::ordered_map::OrderedMap;
use crate::service::action_parser::{bound_names, rebound, strip_dashes, stripped_of_dashes};
use crate::text::{slice, to_chars, to_string, trim, trimmed, white_space};
use vstd::prelude::*;
use vstd::string::StringExecFns;

verus! {

/// The character that marks the call of a task.
pub const ACTION_NAME_TASK_PREFIX: char = ':';

/// Where a scan stops.
#[derive(Clone, Copy, Debug)]
pub enum Until {
    Whitespace,
    NonWhitespace,
    Quote,
    OpenBrace,
    CloseBrace,
    AnyBrace,
}

/// Whether a scan of this kind stops at `c`.
pub open spec fn stops(until: Until, c: char) -> bool {
    match until {
        Until::Whitespace => white_space(c),
        Until::NonWhitespace => !white_space(c),
        Until::Quote => c == '"',
        Until::OpenBrace => c == '{',
        Until::CloseBrace => c == '}',
        Until::AnyBrace => c == '{' || c == '}',
    }
}

/// The first position from `from` on at which the scan stops, or the length
/// of `s` where it stops nowhere.
pub open spec fn scan(s: Seq<char>, from: int, until: Until) -> int
    decreases s.len() - from,
{
    if from < 0 || from >= s.len() || stops(until, s[from]) {
        from
    } else {
        scan(s, from + 1, until)
    }
}

/// A scan ends between its start and the end of the text, at the first
/// character that stops it.
pub proof fn lemma_scan(s: Seq<char>, from: int, until: Until)
    requires
        0 <= from <= s.len(),
    ensures
        from <= scan(s, from, until) <= s.len(),
        scan(s, from, until) < s.len() ==> stops(until, s[scan(s, from, until)]),
        forall|i: int| from <= i < scan(s, from, until) ==> !stops(until, #[trigger] s[i]),
    decreases s.len() - from,
{
    if from < s.len() && !stops(until, s[from]) {
        lemma_scan(s, from + 1, until);
    }
}

fn stops_at(until: Until, c: char) -> (stop: bool)
    ensures
        stop == stops(until, c),
{
    match until {
        Until::Whitespace => c.is_whitespace(),
        Until::NonWhitespace => !c.is_whitespace(),
        Until::Quote => c == '"',
        Until::OpenBrace => c == '{',
        Until::CloseBrace => c == '}',
        Until::AnyBrace => c == '{' || c == '}',
    }
}

/// Scans `chars` from `from` on.
pub fn scan_until(chars: &Vec<char>, from: usize, until: Until) -> (at: usize)
    requires
        from <= chars@.len(),
    ensures
        at == scan(chars@, from as int, until),
        from <= at <= chars@.len(),
{
    let mut at: usize = from;
    while at < chars.len() && !stops_at(until, chars[at])
        invariant
            from <= at <= chars@.len(),
            scan(chars@, from as int, until) == scan(chars@, at as int, until),
        decreases chars@.len() - at,
    {
        at += 1;
    }
    at
}

/// The end of the span `{{…}}` that starts at `at`, or `at` where none does:
/// two opening braces, at least one character that is not `}`, and two
/// closing braces.
pub open spec fn span_end(s: Seq<char>, at: int) -> int {
    let close = scan(s, at + 2, Until::CloseBrace);
    if 0 <= at && at + 1 < s.len() && s[at] == '{' && s[at + 1] == '{' && close > at + 2 && close
        + 1 < s.len() && s[close + 1] == '}' {
        close + 2
    } else {
        at
    }
}

/// Whether `c` may stand in a literal outside a span.
pub open spec fn plain(c: char, allow_quote: bool) -> bool {
    !white_space(c) && c != '{' && (allow_quote || c != '"')
}

/// The end of the longest literal that starts at `at`, or `at` where none
/// does.
pub open spec fn literal_end(s: Seq<char>, at: int, allow_quote: bool) -> int
    decreases s.len() - at,
{
    if at < 0 || at >= s.len() {
        at
    } else if plain(s[at], allow_quote) {
        literal_end(s, at + 1, allow_quote)
    } else if span_end(s, at) > at {
        literal_end(s, span_end(s, at), allow_quote)
    } else {
        at
    }
}

/// The end of the quoted group that starts at `at`, or `at` where none does.
pub open spec fn quoted_end(s: Seq<char>, at: int) -> int {
    let close = scan(s, at + 1, Until::Quote);
    if 0 <= at < s.len() && s[at] == '"' && close < s.len() {
        close + 1
    } else {
        at
    }
}

/// The end of the parameter that starts at `at`, or `at` where none does.
pub open spec fn param_end(s: Seq<char>, at: int) -> int {
    let end = scan(s, at + 2, Until::Whitespace);
    if 0 <= at && at + 1 < s.len() && s[at] == '-' && s[at + 1] == '-' && end > at + 2 {
        end
    } else {
        at
    }
}

/// The components of the text from `at` on: runs of characters other than
/// `{` are literals, and `{{ name }}` is the variable `name`, its name being
/// what stands between the braces without the whitespace around it. `None`
/// where a `{` does not start such a span or the span holds a brace.
pub open spec fn components_from(s: Seq<char>, at: int) -> Option<Seq<Component>>
    decreases s.len() - at,
    via components_from_decreases
{
    if at < 0 || at >= s.len() {
        Some(Seq::empty())
    } else if s[at] != '{' {
        let end = scan(s, at, Until::OpenBrace);
        match components_from(s, end) {
            Some(rest) => Some(seq![Component::Literal(s.subrange(at, end))] + rest),
            None => None,
        }
    } else {
        let close = scan(s, at + 2, Until::AnyBrace);
        if at + 1 < s.len() && s[at + 1] == '{' && close > at + 2 && close + 1 < s.len()
            && s[close] == '}' && s[close + 1] == '}' {
            match components_from(s, close + 2) {
                Some(rest) => Some(
                    seq![Component::Interpolated(trim(s.subrange(at + 2, close)))] + rest,
                ),
                None => None,
            }
        } else {
            None
        }
    }
}

#[via_fn]
proof fn components_from_decreases(s: Seq<char>, at: int) {
    if 0 <= at < s.len() {
        if s[at] != '{' {
            lemma_scan(s, at + 1, Until::OpenBrace);
        }
    }
}

/// A token as a mathematical value.
pub enum TokenView {
    Param(Seq<char>),
    Literal(Seq<Component>),
    Quoted(Seq<Component>),
    /// No token fits, or the text of the one that fits has no components.
    Unreadable,
}

/// The token that starts at `at` and the position at which it ends. With
/// `with_params` a parameter is a token and a literal holds no quote.
pub open spec fn token_at(s: Seq<char>, at: int, with_params: bool) -> (TokenView, int) {
    let literal = literal_end(s, at, !with_params);
    let quoted = quoted_end(s, at);
    let param = if with_params {
        param_end(s, at)
    } else {
        at
    };
    if param > at && param >= literal {
        (TokenView::Param(strip_dashes(s.subrange(at, param))), param)
    } else if quoted > at && quoted >= literal {
        (
            match components_from(s.subrange(at + 1, quoted - 1), 0) {
                Some(components) => TokenView::Quoted(components),
                None => TokenView::Unreadable,
            },
            quoted,
        )
    } else if literal > at {
        (
            match components_from(s.subrange(at, literal), 0) {
                Some(components) => TokenView::Literal(components),
                None => TokenView::Unreadable,
            },
            literal,
        )
    } else {
        (TokenView::Unreadable, at)
    }
}

/// Why a line in the brace syntax is not an action.
#[derive(PartialEq, Eq, Debug)]
pub enum BraceError {
    /// The line holds nothing but whitespace.
    Empty,
    /// The line does not start with a literal.
    NameNotLiteral,
    /// The name is made of more than one component.
    NameNotSingleLiteral,
    /// The name is a variable.
    NameIsVariable,
    /// No token could be read where an argument should start. The offset
    /// counts the characters of the line, without the whitespace at its start,
    /// that precede that place.
    UnreadableArgument(usize),
    /// An argument stands where a parameter should.
    ExpectedParameter,
    /// The line ends after the parameter of this name.
    MissingValue(String),
    /// A parameter follows the parameter of this name.
    ParameterAsValue(String),
    /// No token could be read after the parameter of this name.
    UnreadableValue(String),
}

/// A [`BraceError`] as a mathematical value.
pub enum BraceFailure {
    Empty,
    NameNotLiteral,
    NameNotSingleLiteral,
    NameIsVariable,
    UnreadableArgument(int),
    ExpectedParameter,
    MissingValue(Seq<char>),
    ParameterAsValue(Seq<char>),
    UnreadableValue(Seq<char>),
}

impl DeepView for BraceError {
    type V = BraceFailure;

    open spec fn deep_view(&self) -> BraceFailure {
        match self {
            BraceError::Empty => BraceFailure::Empty,
            BraceError::NameNotLiteral => BraceFailure::NameNotLiteral,
            BraceError::NameNotSingleLiteral => BraceFailure::NameNotSingleLiteral,
            BraceError::NameIsVariable => BraceFailure::NameIsVariable,
            BraceError::UnreadableArgument(offset) => BraceFailure::UnreadableArgument(
                *offset as int,
            ),
            BraceError::ExpectedParameter => BraceFailure::ExpectedParameter,
            BraceError::MissingValue(name) => BraceFailure::MissingValue(name@),
            BraceError::ParameterAsValue(name) => BraceFailure::ParameterAsValue(name@),
            BraceError::UnreadableValue(name) => BraceFailure::UnreadableValue(name@),
        }
    }
}

/// The name that a line starts with: its first token has to be a literal of
/// one component that is no variable. The second part of the result is the
/// position at which the name ends.
pub open spec fn name_of(s: Seq<char>, with_params: bool) -> Result<(Seq<char>, int), BraceFailure> {
    if s.len() == 0 {
        Err(BraceFailure::Empty)
    } else {
        match token_at(s, 0, with_params).0 {
            TokenView::Literal(components) => if components.len() != 1 {
                Err(BraceFailure::NameNotSingleLiteral)
            } else {
                match components[0] {
                    Component::Literal(name) => Ok((name, token_at(s, 0, with_params).1)),
                    Component::Interpolated(_) => Err(BraceFailure::NameIsVariable),
                }
            },
            _ => Err(BraceFailure::NameNotLiteral),
        }
    }
}

/// The arguments of a command from `at` on: every token has to be a literal
/// or a quoted group.
pub open spec fn arguments_from(s: Seq<char>, at: int) -> Result<Seq<Seq<Component>>, BraceFailure>
    decreases s.len() - at,
    via arguments_from_decreases
{
    let start = scan(s, at, Until::NonWhitespace);
    if at < 0 || start >= s.len() {
        Ok(Seq::empty())
    } else {
        let (token, end) = token_at(s, start, false);
        match token {
            TokenView::Literal(components) | TokenView::Quoted(components) => match arguments_from(
                s,
                end,
            ) {
                Ok(rest) => Ok(seq![components] + rest),
                Err(e) => Err(e),
            },
            _ => Err(BraceFailure::UnreadableArgument(start)),
        }
    }
}

/// A token that can be read ends after its start and within the text.
pub proof fn lemma_token_bounds(s: Seq<char>, at: int, with_params: bool)
    requires
        0 <= at <= s.len(),
    ensures
        at <= token_at(s, at, with_params).1 <= s.len(),
        !(token_at(s, at, with_params).0 is Unreadable) ==> token_at(s, at, with_params).1 > at,
        at <= literal_end(s, at, !with_params) <= s.len(),
        at <= quoted_end(s, at) <= s.len(),
        at <= param_end(s, at) <= s.len(),
        quoted_end(s, at) > at ==> quoted_end(s, at) >= at + 2,
{
    lemma_literal_end(s, at, !with_params);
    if at + 1 <= s.len() {
        lemma_scan(s, at + 1, Until::Quote);
    }
    if at + 2 <= s.len() {
        lemma_scan(s, at + 2, Until::Whitespace);
    }
}

/// A literal ends between its start and the end of the text.
pub proof fn lemma_literal_end(s: Seq<char>, at: int, allow_quote: bool)
    requires
        0 <= at <= s.len(),
    ensures
        at <= literal_end(s, at, allow_quote) <= s.len(),
    decreases s.len() - at,
{
    if at < s.len() {
        if plain(s[at], allow_quote) {
            lemma_literal_end(s, at + 1, allow_quote);
        } else if span_end(s, at) > at {
            lemma_scan(s, at + 2, Until::CloseBrace);
            lemma_literal_end(s, span_end(s, at), allow_quote);
        }
    }
}

#[via_fn]
proof fn arguments_from_decreases(s: Seq<char>, at: int) {
    if 0 <= at <= s.len() {
        lemma_scan(s, at, Until::NonWhitespace);
        let start = scan(s, at, Until::NonWhitespace);
        if start < s.len() {
            lemma_token_bounds(s, start, false);
        }
    } else if at > s.len() {
    }
}

/// The command that a line in the brace syntax stands for.
pub open spec fn command_of(text: Seq<char>) -> Result<CommandView, BraceFailure> {
    let s = trim(text);
    match name_of(s, false) {
        Ok((name, end)) => match arguments_from(s, end) {
            Ok(arguments) => Ok(CommandView { name, arguments }),
            Err(e) => Err(e),
        },
        Err(e) => Err(e),
    }
}

/// The bindings that the text from `at` on adds to `params`: each parameter
/// is followed by its value, a literal or a quoted group. The reading ends,
/// with what it has, at the end of the text and at the first place where a
/// parameter should stand and no token can be read.
pub open spec fn params_from(
    s: Seq<char>,
    at: int,
    params: Seq<(Seq<char>, Seq<Component>)>,
) -> Result<Seq<(Seq<char>, Seq<Component>)>, BraceFailure>
    decreases s.len() - at,
    via params_from_decreases
{
    let start = scan(s, at, Until::NonWhitespace);
    if at < 0 || start >= s.len() {
        Ok(params)
    } else {
        let (token, end) = token_at(s, start, true);
        match token {
            TokenView::Unreadable => Ok(params),
            TokenView::Param(name) => {
                let value_start = scan(s, end, Until::NonWhitespace);
                if value_start >= s.len() {
                    Err(BraceFailure::MissingValue(name))
                } else {
                    let (value, value_end) = token_at(s, value_start, true);
                    match value {
                        TokenView::Literal(components) | TokenView::Quoted(
                            components,
                        ) => params_from(s, value_end, rebound(params, name, components)),
                        TokenView::Param(_) => Err(BraceFailure::ParameterAsValue(name)),
                        TokenView::Unreadable => Err(BraceFailure::UnreadableValue(name)),
                    }
                }
            },
            _ => Err(BraceFailure::ExpectedParameter),
        }
    }
}

#[via_fn]
proof fn params_from_decreases(
    s: Seq<char>,
    at: int,
    params: Seq<(Seq<char>, Seq<Component>)>,
) {
    if 0 <= at <= s.len() {
        lemma_scan(s, at, Until::NonWhitespace);
        let start = scan(s, at, Until::NonWhitespace);
        if start < s.len() {
            lemma_token_bounds(s, start, true);
            let end = token_at(s, start, true).1;
            lemma_scan(s, end, Until::NonWhitespace);
            let value_start = scan(s, end, Until::NonWhitespace);
            if value_start < s.len() {
                lemma_token_bounds(s, value_start, true);
            }
        }
    }
}

/// The task call that a line in the brace syntax stands for.
pub open spec fn task_call_of(text: Seq<char>) -> Result<TaskCallView, BraceFailure> {
    let s = trim(text);
    match name_of(s, true) {
        Ok((name, end)) => match params_from(s, end, Seq::empty()) {
            Ok(params) => Ok(TaskCallView { name, params }),
            Err(e) => Err(e),
        },
        Err(e) => Err(e),
    }
}

/// The action that a line in the brace syntax stands for: the call of a task
/// where the line, without the whitespace around it, starts with `:`, and a
/// command where it does not.
pub open spec fn action_of(text: Seq<char>) -> Result<ActionView, BraceFailure> {
    let s = trim(text);
    if s.len() == 0 {
        Err(BraceFailure::Empty)
    } else if s[0] == ACTION_NAME_TASK_PREFIX {
        match task_call_of(s.skip(1)) {
            Ok(call) => Ok(ActionView::TaskCall(call)),
            Err(e) => Err(e),
        }
    } else {
        match command_of(s) {
            Ok(command) => Ok(ActionView::Command(command)),
            Err(e) => Err(e),
        }
    }
}

fn span_end_at(chars: &Vec<char>, at: usize) -> (end: usize)
    requires
        at < chars@.len(),
    ensures
        end == span_end(chars@, at as int),
        at <= end <= chars@.len(),
{
    let len = chars.len();
    if len - at >= 2 && chars[at] == '{' && chars[at + 1] == '{' {
        let close = scan_until(chars, at + 2, Until::CloseBrace);
        if close > at + 2 && len - close >= 2 && chars[close + 1] == '}' {
            return close + 2;
        }
    }
    at
}

fn literal_end_at(chars: &Vec<char>, at: usize, allow_quote: bool) -> (end: usize)
    requires
        at <= chars@.len(),
    ensures
        end == literal_end(chars@, at as int, allow_quote),
        at <= end <= chars@.len(),
{
    let len = chars.len();
    let mut end: usize = at;
    loop
        invariant
            at <= end <= len == chars@.len(),
            literal_end(chars@, at as int, allow_quote) == literal_end(
                chars@,
                end as int,
                allow_quote,
            ),
        ensures
            at <= end <= len,
            end == literal_end(chars@, at as int, allow_quote),
        decreases len - end,
    {
        if end >= len {
            break ;
        }
        let c = chars[end];
        if !c.is_whitespace() && c != '{' && (allow_quote || c != '"') {
            end += 1;
        } else {
            let span = span_end_at(chars, end);
            if span > end {
                end = span;
            } else {
                break ;
            }
        }
    }
    end
}

fn quoted_end_at(chars: &Vec<char>, at: usize) -> (end: usize)
    requires
        at < chars@.len(),
    ensures
        end == quoted_end(chars@, at as int),
        at <= end <= chars@.len(),
        end > at ==> end >= at + 2,
{
    let len = chars.len();
    if chars[at] == '"' {
        let close = scan_until(chars, at + 1, Until::Quote);
        if close < len {
            return close + 1;
        }
    }
    at
}

fn param_end_at(chars: &Vec<char>, at: usize) -> (end: usize)
    requires
        at < chars@.len(),
    ensures
        end == param_end(chars@, at as int),
        at <= end <= chars@.len(),
{
    let len = chars.len();
    if len - at >= 2 && chars[at] == '-' && chars[at + 1] == '-' {
        let end = scan_until(chars, at + 2, Until::Whitespace);
        if end > at + 2 {
            return end;
        }
    }
    at
}

/// Cuts a text into its components.
pub fn components_of(chars: &Vec<char>) -> (found: Option<Vec<ArgumentComponent>>)
    ensures
        match found {
            Some(components) => components_from(chars@, 0) == Some(components.deep_view()),
            None => components_from(chars@, 0) is None,
        },
{
    let len = chars.len();
    let mut components: Vec<ArgumentComponent> = Vec::new();
    let mut at: usize = 0;
    assert(components.deep_view() =~= Seq::empty());
    while at < len
        invariant
            at <= len == chars@.len(),
            components_from(chars@, 0) == match components_from(chars@, at as int) {
                Some(rest) => Some(components.deep_view() + rest),
                None => None,
            },
        decreases len - at,
    {
        let ghost before = components.deep_view();
        if chars[at] != '{' {
            let end = scan_until(chars, at, Until::OpenBrace);
            let literal = to_string(chars, at, end);
            components.push(ArgumentComponent::Literal(literal));
            proof {
                lemma_scan(chars@, at + 1, Until::OpenBrace);
                let added = Component::Literal(chars@.subrange(at as int, end as int));
                assert(components.deep_view() =~= before.push(added));
                assert forall|rest: Seq<Component>| before + (seq![added] + rest) == before.push(
                    added,
                ) + rest by {
                    assert(before + (seq![added] + rest) =~= before.push(added) + rest);
                }
            }
            at = end;
        } else {
            if !(len - at >= 2 && chars[at + 1] == '{') {
                return None;
            }
            let close = scan_until(chars, at + 2, Until::AnyBrace);
            if !(close > at + 2 && len - close >= 2 && chars[close] == '}' && chars[close + 1]
                == '}') {
                return None;
            }
            let inner = slice(chars, at + 2, close);
            let kept = trimmed(&inner);
            let name = to_string(&kept, 0, kept.len());
            assert(kept@.subrange(0, kept@.len() as int) =~= kept@);
            components.push(ArgumentComponent::Interpolated(name));
            proof {
                let added = Component::Interpolated(trim(chars@.subrange(at + 2, close as int)));
                assert(components.deep_view() =~= before.push(added));
                assert forall|rest: Seq<Component>| before + (seq![added] + rest) == before.push(
                    added,
                ) + rest by {
                    assert(before + (seq![added] + rest) =~= before.push(added) + rest);
                }
            }
            at = close + 2;
        }
    }
    assert(components.deep_view() + Seq::<Component>::empty() =~= components.deep_view());
    Some(components)
}

/// A token of the brace syntax.
#[derive(Debug)]
pub enum Token {
    Param(String),
    Literal(Vec<ArgumentComponent>),
    Quoted(Vec<ArgumentComponent>),
    Unreadable,
}

impl DeepView for Token {
    type V = TokenView;

    open spec fn deep_view(&self) -> TokenView {
        match self {
            Token::Param(name) => TokenView::Param(name@),
            Token::Literal(components) => TokenView::Literal(components.deep_view()),
            Token::Quoted(components) => TokenView::Quoted(components.deep_view()),
            Token::Unreadable => TokenView::Unreadable,
        }
    }
}

/// Reads the token that starts at `at`.
pub fn next_token(chars: &Vec<char>, at: usize, with_params: bool) -> (read: (Token, usize))
    requires
        at < chars@.len(),
    ensures
        (read.0.deep_view(), read.1 as int) == token_at(chars@, at as int, with_params),
        at <= read.1 <= chars@.len(),
        !(read.0 is Unreadable) ==> read.1 > at,
{
    let literal = literal_end_at(chars, at, !with_params);
    let quoted = quoted_end_at(chars, at);
    let param = if with_params {
        param_end_at(chars, at)
    } else {
        at
    };
    if param > at && param >= literal {
        let text = slice(chars, at, param);
        (Token::Param(stripped_of_dashes(&text)), param)
    } else if quoted > at && quoted >= literal {
        let text = slice(chars, at + 1, quoted - 1);
        match components_of(&text) {
            Some(components) => (Token::Quoted(components), quoted),
            None => (Token::Unreadable, quoted),
        }
    } else if literal > at {
        let text = slice(chars, at, literal);
        match components_of(&text) {
            Some(components) => (Token::Literal(components), literal),
            None => (Token::Unreadable, literal),
        }
    } else {
        (Token::Unreadable, at)
    }
}

/// Reads the name that a line starts with.
pub fn read_name(chars: &Vec<char>, with_params: bool) -> (result: Result<
    (String, usize),
    BraceError,
>)
    ensures
        match result {
            Ok((name, end)) => name_of(chars@, with_params) == Ok::<(Seq<char>, int), BraceFailure>(
                (name@, end as int),
            ) && end <= chars@.len(),
            Err(e) => name_of(chars@, with_params) == Err::<(Seq<char>, int), BraceFailure>(
                e.deep_view(),
            ),
        },
{
    if chars.len() == 0 {
        return Err(BraceError::Empty);
    }
    let (token, end) = next_token(chars, 0, with_params);
    match token {
        Token::Literal(mut components) => {
            if components.len() != 1 {
                return Err(BraceError::NameNotSingleLiteral);
            }
            match components.pop() {
                Some(ArgumentComponent::Literal(name)) => Ok((name, end)),
                _ => Err(BraceError::NameIsVariable),
            }
        },
        _ => Err(BraceError::NameNotLiteral),
    }
}

impl Command {
    /// Parses a command in the brace syntax.
    pub fn from_str(s: &str) -> (result: Result<Command, BraceError>)
        ensures
            match result {
                Ok(command) => command_of(s@) == Ok::<CommandView, BraceFailure>(
                    command.deep_view(),
                ),
                Err(e) => command_of(s@) == Err::<CommandView, BraceFailure>(e.deep_view()),
            },
    {
        let chars = trimmed(&to_chars(s));
        Command::from_chars(&chars)
    }

    /// Parses a command from text that has no whitespace around it.
    fn from_chars(chars: &Vec<char>) -> (result: Result<Command, BraceError>)
        ensures
            match result {
                Ok(command) => match name_of(chars@, false) {
                    Ok((name, end)) => name == command.name@ && arguments_from(chars@, end)
                        == Ok::<Seq<Seq<Component>>, BraceFailure>(
                        command.arguments.deep_view(),
                    ),
                    Err(_) => false,
                },
                Err(e) => match name_of(chars@, false) {
                    Ok((name, end)) => arguments_from(chars@, end) == Err::<
                        Seq<Seq<Component>>,
                        BraceFailure,
                    >(e.deep_view()),
                    Err(failure) => failure == e.deep_view(),
                },
            },
    {
        let len = chars.len();
        let (name, start) = match read_name(chars, false) {
            Ok(read) => read,
            Err(e) => {
                return Err(e);
            },
        };
        let mut arguments: Vec<Argument> = Vec::new();
        let mut at: usize = start;
        assert(arguments.deep_view() =~= Seq::empty());
        loop
            invariant
                at <= len == chars@.len(),
                name_of(chars@, false) == Ok::<(Seq<char>, int), BraceFailure>(
                    (name@, start as int),
                ),
                arguments_from(chars@, start as int) == match arguments_from(chars@, at as int) {
                    Ok(rest) => Ok(arguments.deep_view() + rest),
                    Err(e) => Err(e),
                },
            ensures
                arguments_from(chars@, start as int) == Ok::<Seq<Seq<Component>>, BraceFailure>(
                    arguments.deep_view(),
                ),
            decreases len - at,
        {
            let from = scan_until(chars, at, Until::NonWhitespace);
            if from >= len {
                assert(arguments.deep_view() + Seq::<Seq<Component>>::empty()
                    =~= arguments.deep_view());
                break ;
            }
            let (token, end) = next_token(chars, from, false);
            let ghost before = arguments.deep_view();
            match token {
                Token::Literal(components) | Token::Quoted(components) => {
                    arguments.push(Argument { components });
                    proof {
                        let added = components.deep_view();
                        assert(arguments.deep_view() =~= before.push(added));
                        assert forall|rest: Seq<Seq<Component>>| before + (seq![added] + rest)
                            == before.push(added) + rest by {
                            assert(before + (seq![added] + rest) =~= before.push(added) + rest);
                        }
                    }
                },
                _ => {
                    return Err(BraceError::UnreadableArgument(from));
                },
            }
            at = end;
        }
        Ok(Command { name, arguments })
    }
}

impl TaskCall {
    /// Parses the call of a task in the brace syntax, without the marker.
    pub fn from_str(s: &str) -> (result: Result<TaskCall, BraceError>)
        ensures
            match result {
                Ok(call) => task_call_of(s@) == Ok::<TaskCallView, BraceFailure>(call.deep_view()),
                Err(e) => task_call_of(s@) == Err::<TaskCallView, BraceFailure>(e.deep_view()),
            },
    {
        let chars = trimmed(&to_chars(s));
        TaskCall::from_chars(&chars)
    }

    /// Parses the call of a task from text that has no whitespace around it.
    fn from_chars(chars: &Vec<char>) -> (result: Result<TaskCall, BraceError>)
        ensures
            match result {
                Ok(call) => match name_of(chars@, true) {
                    Ok((name, end)) => name == call.name@ && params_from(chars@, end, Seq::empty())
                        == Ok::<Seq<(Seq<char>, Seq<Component>)>, BraceFailure>(
                        bindings(call.params),
                    ),
                    Err(_) => false,
                },
                Err(e) => match name_of(chars@, true) {
                    Ok((name, end)) => params_from(chars@, end, Seq::empty()) == Err::<
                        Seq<(Seq<char>, Seq<Component>)>,
                        BraceFailure,
                    >(e.deep_view()),
                    Err(failure) => failure == e.deep_view(),
                },
            },
    {
        let len = chars.len();
        let (name, start) = match read_name(chars, true) {
            Ok(read) => read,
            Err(e) => {
                return Err(e);
            },
        };
        let mut params: OrderedMap<Argument> = OrderedMap::new();
        let mut at: usize = start;
        assert(bindings(params) =~= Seq::empty());
        loop
            invariant
                at <= len == chars@.len(),
                name_of(chars@, true) == Ok::<(Seq<char>, int), BraceFailure>(
                    (name@, start as int),
                ),
                params_from(chars@, start as int, Seq::empty()) == params_from(
                    chars@,
                    at as int,
                    bindings(params),
                ),
            ensures
                params_from(chars@, start as int, Seq::empty()) == Ok::<
                    Seq<(Seq<char>, Seq<Component>)>,
                    BraceFailure,
                >(bindings(params)),
            decreases len - at,
        {
            let from = scan_until(chars, at, Until::NonWhitespace);
            if from >= len {
                break ;
            }
            let (token, end) = next_token(chars, from, true);
            let param = match token {
                Token::Unreadable => {
                    break ;
                },
                Token::Param(param) => param,
                _ => {
                    return Err(BraceError::ExpectedParameter);
                },
            };
            let value_start = scan_until(chars, end, Until::NonWhitespace);
            if value_start >= len {
                return Err(BraceError::MissingValue(param));
            }
            let (value, value_end) = next_token(chars, value_start, true);
            match value {
                Token::Literal(components) | Token::Quoted(components) => {
                    let ghost old_params = params;
                    let ghost key = param@;
                    params.well_formed();
                    params.insert(param, Argument { components });
                    proof {
                        let was = bindings(old_params);
                        assert(bound_names(was) =~= old_params.names());
                        assert(bindings(params) =~= rebound(was, key, components.deep_view()));
                    }
                },
                Token::Param(_) => {
                    return Err(BraceError::ParameterAsValue(param));
                },
                Token::Unreadable => {
                    return Err(BraceError::UnreadableValue(param));
                },
            }
            at = value_end;
        }
        Ok(TaskCall { name, params })
    }
}

impl Action {
    /// Parses an action in the brace syntax.
    pub fn from_str(s: &str) -> (result: Result<Action, BraceError>)
        ensures
            match result {
                Ok(action) => action_of(s@) == Ok::<ActionView, BraceFailure>(action.deep_view()),
                Err(e) => action_of(s@) == Err::<ActionView, BraceFailure>(e.deep_view()),
            },
    {
        let chars = trimmed(&to_chars(s));
        if chars.len() == 0 {
            return Err(BraceError::Empty);
        }
        if chars[0] == ACTION_NAME_TASK_PREFIX {
            let rest = trimmed(&slice(&chars, 1, chars.len()));
            assert(chars@.subrange(1, chars@.len() as int) =~= chars@.skip(1));
            match TaskCall::from_chars(&rest) {
                Ok(call) => Ok(Action::TaskCall(call)),
                Err(e) => Err(e),
            }
        } else {
            proof {
                crate::text::lemma_trim_idempotent(s@);
            }
            match Command::from_chars(&chars) {
                Ok(command) => Ok(Action::Command(command)),
                Err(e) => Err(e),
            }
        }
    }
}

impl BraceError {
    /// The text that describes the error.
    pub open spec fn message(self) -> Seq<char> {
        match self {
            BraceError::Empty => "Action should not be empty"@,
            BraceError::NameNotLiteral => "Name should be a literal"@,
            BraceError::NameNotSingleLiteral => "Name should be a single literal"@,
            BraceError::NameIsVariable => "Using a variable in a name is not supported"@,
            BraceError::UnreadableArgument(_) => "Could not match any token"@,
            BraceError::ExpectedParameter => "Expected param name"@,
            BraceError::MissingValue(name) => "Expected value for parameter `"@ + name@ + "`"@,
            BraceError::ParameterAsValue(name) => "Expected param value after param name `"@
                + name@ + "`"@,
            BraceError::UnreadableValue(name) => "Could not find value after `"@ + name@ + "`"@,
        }
    }

    /// The text that describes the error.
    pub fn to_string(&self) -> (text: String)
        ensures
            text@ == self.message(),
    {
        match self {
            BraceError::Empty => "Action should not be empty".to_owned(),
            BraceError::NameNotLiteral => "Name should be a literal".to_owned(),
            BraceError::NameNotSingleLiteral => "Name should be a single literal".to_owned(),
            BraceError::NameIsVariable => "Using a variable in a name is not supported".to_owned(),
            BraceError::UnreadableArgument(_) => "Could not match any token".to_owned(),
            BraceError::ExpectedParameter => "Expected param name".to_owned(),
            BraceError::MissingValue(name) => {
                let mut text = "Expected value for parameter `".to_owned();
                text.append(name.as_str());
                text.append("`");
                text
            },
            BraceError::ParameterAsValue(name) => {
                let mut text = "Expected param value after param name `".to_owned();
                text.append(name.as_str());
                text.append("`");
                text
            },
            BraceError::UnreadableValue(name) => {
                let mut text = "Could not find value after `".to_owned();
                text.append(name.as_str());
                text.append("`");
                text
            },
        }
    }
}

} // verus!
