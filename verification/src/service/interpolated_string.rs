//! Templates: text with `{{ name }}` placeholders.
//!
//! A template is kept as the text without its placeholders and, for each
//! placeholder, the name of the variable and the byte offset in that text at
//! which the value of the variable goes.

use crate::model::{InterpolatedString, InterpolatedVariable, ParamContext};
use crate::pattern::{captures_of, compiles, find_captures, Capture};
use vstd::prelude::*;
use vstd::string::{StringExecFns, StringSliceAdditionalSpecFns};
use vstd::utf8::{decode_utf8, encode_utf8, encode_utf8_decode_utf8, is_char_boundary};

verus! {

/// An [`InterpolatedVariable`] as a mathematical value.
pub struct Variable {
    pub name: Seq<char>,
    pub start: int,
}

impl DeepView for InterpolatedVariable {
    type V = Variable;

    open spec fn deep_view(&self) -> Variable {
        Variable { name: self.name@, start: self.start as int }
    }
}

/// An [`InterpolatedString`] as a mathematical value.
pub struct Template {
    pub value: Seq<char>,
    pub parts: Seq<Variable>,
}

impl DeepView for InterpolatedString {
    type V = Template;

    open spec fn deep_view(&self) -> Template {
        Template { value: self.value@, parts: self.parts.deep_view() }
    }
}

/// Why a template cannot be rendered.
#[derive(PartialEq, Eq, Debug)]
pub enum TemplateError {
    /// The context does not bind the variable of this name.
    UnboundVariable(String),
    /// The variable at this position among the parts is out of place: it
    /// starts before the one in front of it, beyond the end of the text, or
    /// inside a character.
    MisplacedVariable(usize),
}

/// A [`TemplateError`] as a mathematical value.
pub enum TemplateFailure {
    UnboundVariable(Seq<char>),
    MisplacedVariable(int),
}

impl DeepView for TemplateError {
    type V = TemplateFailure;

    open spec fn deep_view(&self) -> TemplateFailure {
        match self {
            TemplateError::UnboundVariable(name) => TemplateFailure::UnboundVariable(name@),
            TemplateError::MisplacedVariable(index) => TemplateFailure::MisplacedVariable(
                *index as int,
            ),
        }
    }
}

/// The text that the parts from position `i` on make of `rest`, the bytes of
/// the template's text from byte `done` on: each variable's value is put in
/// at its offset, and the text between the offsets stays as it is.
pub open spec fn woven(
    rest: Seq<u8>,
    done: int,
    parts: Seq<Variable>,
    i: int,
    context: Map<Seq<char>, Seq<char>>,
) -> Result<Seq<char>, TemplateFailure>
    decreases parts.len() - i,
{
    if i < 0 || i >= parts.len() {
        Ok(decode_utf8(rest))
    } else {
        let part = parts[i];
        let offset = part.start - done;
        if !context.contains_key(part.name) {
            Err(TemplateFailure::UnboundVariable(part.name))
        } else if offset < 0 || !is_char_boundary(rest, offset) {
            Err(TemplateFailure::MisplacedVariable(i))
        } else {
            match woven(rest.subrange(offset, rest.len() as int), part.start, parts, i + 1, context) {
                Ok(text) => Ok(decode_utf8(rest.subrange(0, offset)) + context[part.name] + text),
                Err(e) => Err(e),
            }
        }
    }
}

/// The text of a template in a context.
pub open spec fn rendered_template(template: Template, context: Map<Seq<char>, Seq<char>>) -> Result<
    Seq<char>,
    TemplateFailure,
> {
    woven(encode_utf8(template.value), 0, template.parts, 0, context)
}

impl InterpolatedString {
    /// Renders the template: the text with the value of each variable put in
    /// at its place.
    pub fn render(&self, param_context: &ParamContext) -> (result: Result<String, TemplateError>)
        ensures
            match result {
                Ok(text) => rendered_template(self.deep_view(), param_context@) == Ok::<
                    Seq<char>,
                    TemplateFailure,
                >(text@),
                Err(e) => rendered_template(self.deep_view(), param_context@) == Err::<
                    Seq<char>,
                    TemplateFailure,
                >(e.deep_view()),
            },
    {
        let ghost parts = self.parts.deep_view();
        let ghost start = encode_utf8(self.value@);
        let mut text = String::new();
        let mut rest: &str = self.value.as_str();
        let mut done: usize = 0;
        let mut i: usize = 0;
        assert(text@ + Seq::<char>::empty() =~= Seq::<char>::empty());
        while i < self.parts.len()
            invariant
                i <= self.parts.len(),
                parts == self.parts.deep_view(),
                start == encode_utf8(self.value@),
                woven(start, 0, parts, 0, param_context@) == match woven(
                    rest.spec_bytes(),
                    done as int,
                    parts,
                    i as int,
                    param_context@,
                ) {
                    Ok(tail) => Ok(text@ + tail),
                    Err(e) => Err(e),
                },
            decreases self.parts.len() - i,
        {
            let part = &self.parts[i];
            assert(parts[i as int] == part.deep_view());
            let value = match param_context.get(part.name.as_str()) {
                Some(value) => value,
                None => {
                    return Err(TemplateError::UnboundVariable(part.name.clone()));
                },
            };
            if part.start < done || !rest.is_char_boundary(part.start - done) {
                return Err(TemplateError::MisplacedVariable(i));
            }
            let (head, tail) = rest.split_at(part.start - done);
            let ghost before = text@;
            text.append(head);
            text.append(value.as_str());
            proof {
                encode_utf8_decode_utf8(head@);
                assert forall|more: Seq<char>| before + (head@ + value@ + more) == text@
                    + more by {
                    assert(before + (head@ + value@ + more) =~= text@ + more);
                }
            }
            rest = tail;
            done = part.start;
            i += 1;
        }
        proof {
            encode_utf8_decode_utf8(rest@);
        }
        text.append(rest);
        Ok(text)
    }
}

/// The pattern of a placeholder: `{{`, the name of a variable with any
/// whitespace around it, and `}}`.
pub const PLACEHOLDER: &'static str = r"\{\{\s*(.*?)\s*\}\}";

/// Why a text is not a template.
#[derive(PartialEq, Eq, Debug, Clone, Copy)]
pub enum TemplateSyntaxError {
    /// The pattern of a placeholder was not accepted.
    Pattern,
    /// The placeholder at this position has no name.
    MissingName(usize),
    /// The placeholder at this position has no place in the text.
    MissingMatch(usize),
    /// The placeholder at this position starts before the end of the one in
    /// front of it, ends before it starts or beyond the end of the text, or
    /// starts or ends inside a character.
    Misplaced(usize),
}

/// The template that the placeholders from position `i` on leave of `rest`,
/// the bytes of a text from byte `done` on, `removed` bytes having been taken
/// out of the text before: the text without the placeholders and, for each
/// placeholder, its name and the offset in that text at which it stood.
pub open spec fn stripped(
    rest: Seq<u8>,
    done: int,
    removed: int,
    captures: Seq<(Option<Seq<char>>, Option<(int, int)>)>,
    i: int,
) -> Result<Template, TemplateSyntaxError>
    decreases captures.len() - i,
{
    if i < 0 || i >= captures.len() {
        Ok(Template { value: decode_utf8(rest), parts: Seq::empty() })
    } else {
        match captures[i] {
            (None, _) => Err(TemplateSyntaxError::MissingName(i as usize)),
            (Some(_), None) => Err(TemplateSyntaxError::MissingMatch(i as usize)),
            (Some(name), Some((start, end))) => {
                let tail = rest.subrange(start - done, rest.len() as int);
                if start < done || end < start || !is_char_boundary(rest, start - done)
                    || !is_char_boundary(tail, end - start) {
                    Err(TemplateSyntaxError::Misplaced(i as usize))
                } else {
                    match stripped(
                        tail.subrange(end - start, tail.len() as int),
                        end,
                        removed + (end - start),
                        captures,
                        i + 1,
                    ) {
                        Ok(template) => Ok(
                            Template {
                                value: decode_utf8(rest.subrange(0, start - done))
                                    + template.value,
                                parts: seq![Variable { name, start: start - removed }]
                                    + template.parts,
                            },
                        ),
                        Err(e) => Err(e),
                    }
                }
            },
        }
    }
}

/// The template that a text stands for, given the placeholders found in it.
pub open spec fn template_from(
    text: Seq<char>,
    captures: Seq<(Option<Seq<char>>, Option<(int, int)>)>,
) -> Result<Template, TemplateSyntaxError> {
    stripped(encode_utf8(text), 0, 0, captures, 0)
}

/// The template that a text stands for.
pub open spec fn template_of(text: Seq<char>) -> Result<Template, TemplateSyntaxError> {
    if compiles(PLACEHOLDER@) {
        template_from(text, captures_of(PLACEHOLDER@, text))
    } else {
        Err(TemplateSyntaxError::Pattern)
    }
}

impl InterpolatedString {
    /// Parses a template: the placeholders are taken out of the text, and the
    /// place of each is kept.
    pub fn from_str(val: &str) -> (result: Result<InterpolatedString, TemplateSyntaxError>)
        ensures
            match result {
                Ok(template) => template_of(val@) == Ok::<Template, TemplateSyntaxError>(
                    template.deep_view(),
                ),
                Err(e) => template_of(val@) == Err::<Template, TemplateSyntaxError>(e),
            },
    {
        match find_captures(PLACEHOLDER, val) {
            Ok(captures) => InterpolatedString::from_captures(val, captures),
            Err(_) => Err(TemplateSyntaxError::Pattern),
        }
    }

    /// Makes a template of a text and the placeholders that were found in it.
    pub fn from_captures(val: &str, captures: Vec<Capture>) -> (result: Result<
        InterpolatedString,
        TemplateSyntaxError,
    >)
        ensures
            match result {
                Ok(template) => template_from(val@, captures.deep_view()) == Ok::<
                    Template,
                    TemplateSyntaxError,
                >(template.deep_view()),
                Err(e) => template_from(val@, captures.deep_view()) == Err::<
                    Template,
                    TemplateSyntaxError,
                >(e),
            },
    {
        let ghost found = captures.deep_view();
        let ghost begin = encode_utf8(val@);
        let count = captures.len();
        let mut value = String::new();
        let mut parts: Vec<InterpolatedVariable> = Vec::new();
        let mut rest: &str = val;
        let mut done: usize = 0;
        let mut removed: usize = 0;
        let mut i: usize = 0;
        assert(parts.deep_view() =~= Seq::empty());
        for capture in all: captures
            invariant
                i == all.index(),
                i <= count,
                all.seq().len() == count,
                found.len() == count,
                forall|j: int| 0 <= j < count ==> (#[trigger] all.seq()[j]).deep_view() == found[j],
                found == captures.deep_view(),
                begin == encode_utf8(val@),
                removed <= done,
                stripped(begin, 0, 0, found, 0) == match stripped(
                    rest.spec_bytes(),
                    done as int,
                    removed as int,
                    found,
                    i as int,
                ) {
                    Ok(template) => Ok(
                        Template {
                            value: value@ + template.value,
                            parts: parts.deep_view() + template.parts,
                        },
                    ),
                    Err(e) => Err(e),
                },
        {
            assert(capture.deep_view() == found[i as int]);
            let Capture { group, span } = capture;
            let name = match group {
                Some(name) => name,
                None => {
                    return Err(TemplateSyntaxError::MissingName(i));
                },
            };
            let (start, end) = match span {
                Some(span) => span,
                None => {
                    return Err(TemplateSyntaxError::MissingMatch(i));
                },
            };
            if start < done || end < start || !rest.is_char_boundary(start - done) {
                return Err(TemplateSyntaxError::Misplaced(i));
            }
            let (gap, tail) = rest.split_at(start - done);
            if !tail.is_char_boundary(end - start) {
                return Err(TemplateSyntaxError::Misplaced(i));
            }
            let (_, after) = tail.split_at(end - start);
            let ghost old_value = value@;
            let ghost old_parts = parts.deep_view();
            value.append(gap);
            parts.push(InterpolatedVariable { name, start: start - removed });
            proof {
                encode_utf8_decode_utf8(gap@);
                let added = Variable { name: name@, start: start - removed };
                assert(parts.deep_view() =~= old_parts.push(added));
                assert forall|more: Template|
                    #![trigger more.value, more.parts]
                    old_value + (gap@ + more.value) == value@ + more.value && old_parts + (
                    seq![added] + more.parts) == parts.deep_view() + more.parts by {
                    assert(old_value + (gap@ + more.value) =~= value@ + more.value);
                    assert(old_parts + (seq![added] + more.parts) =~= parts.deep_view()
                        + more.parts);
                }
            }
            removed = removed + (end - start);
            rest = after;
            done = end;
            i = i + 1;
        }
        proof {
            encode_utf8_decode_utf8(rest@);
            assert(parts.deep_view() + Seq::<Variable>::empty() =~= parts.deep_view());
        }
        value.append(rest);
        Ok(InterpolatedString { value, parts })
    }
}

} // verus!
