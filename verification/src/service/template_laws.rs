//! What holds of every template.

use crate::pattern::captures_of;
use crate::service::interpolated_string::{
    rendered_template, stripped, template_from, template_of, woven, Template, TemplateFailure,
    TemplateSyntaxError, Variable, PLACEHOLDER,
};
use vstd::prelude::*;
use vstd::utf8::{
    decode_utf8, decode_utf8_encode_utf8, decode_utf8_split, encode_utf8, encode_utf8_decode_utf8,
    encode_utf8_valid_utf8, is_char_boundary, is_char_boundary_iff_not_is_continuation_byte,
    is_char_boundary_start_end_of_seq, valid_utf8, valid_utf8_concat,
    valid_utf8_split,
};

verus! {

/// Whether the context binds the name of every placeholder that has one.
pub open spec fn binds_all(
    captures: Seq<(Option<Seq<char>>, Option<(int, int)>)>,
    context: Map<Seq<char>, Seq<char>>,
) -> bool {
    forall|i: int|
        0 <= i < captures.len() ==> ((#[trigger] captures[i]).0 matches Some(name)
            ==> context.contains_key(name))
}

/// The text of `rest`, the bytes of a text from byte `done` on, with the
/// value of its variable in the place of each placeholder from position `i`
/// on.
pub open spec fn filled(
    rest: Seq<u8>,
    done: int,
    captures: Seq<(Option<Seq<char>>, Option<(int, int)>)>,
    i: int,
    context: Map<Seq<char>, Seq<char>>,
) -> Seq<char>
    decreases captures.len() - i,
{
    if i < 0 || i >= captures.len() {
        decode_utf8(rest)
    } else {
        match captures[i] {
            (Some(name), Some((start, end))) => decode_utf8(rest.subrange(0, start - done))
                + context[name] + filled(
                rest.subrange(end - done, rest.len() as int),
                end,
                captures,
                i + 1,
                context,
            ),
            _ => Seq::empty(),
        }
    }
}

/// The bytes of a text that is made of two texts are the bytes of the one
/// and then the bytes of the other, and the place where they meet lies
/// between two characters.
proof fn lemma_encode_joined(front: Seq<u8>, back: Seq<char>)
    requires
        valid_utf8(front),
    ensures
        encode_utf8(decode_utf8(front) + back) == front + encode_utf8(back),
        valid_utf8(front + encode_utf8(back)),
        is_char_boundary(front + encode_utf8(back), front.len() as int),
{
    let tail = encode_utf8(back);
    let joined = front + tail;
    encode_utf8_valid_utf8(back);
    valid_utf8_concat(front, tail);
    if tail.len() == 0 {
        is_char_boundary_start_end_of_seq(joined);
    } else {
        assert(is_char_boundary(tail, 0));
        is_char_boundary_iff_not_is_continuation_byte(tail, 0);
        assert(joined[front.len() as int] == tail[0]);
        is_char_boundary_iff_not_is_continuation_byte(joined, front.len() as int);
    }
    decode_utf8_split(joined, front.len() as int);
    assert(joined.subrange(0, front.len() as int) =~= front);
    assert(joined.subrange(front.len() as int, joined.len() as int) =~= tail);
    encode_utf8_decode_utf8(back);
    assert(decode_utf8(joined) =~= decode_utf8(front) + back);
    decode_utf8_encode_utf8(joined);
}

/// What the parts after the first make of a text does not depend on the
/// first.
proof fn lemma_woven_shift(
    rest: Seq<u8>,
    done: int,
    first: Variable,
    parts: Seq<Variable>,
    i: int,
    context: Map<Seq<char>, Seq<char>>,
)
    requires
        0 <= i,
        woven(rest, done, parts, i, context) is Ok,
    ensures
        woven(rest, done, seq![first] + parts, i + 1, context) == woven(
            rest,
            done,
            parts,
            i,
            context,
        ),
    decreases parts.len() - i,
{
    let all = seq![first] + parts;
    if i < parts.len() {
        let part = parts[i];
        assert(all[i + 1] == part);
        let offset = part.start - done;
        lemma_woven_shift(
            rest.subrange(offset, rest.len() as int),
            part.start,
            first,
            parts,
            i + 1,
            context,
        );
    }
}

/// Rendering what is left of a text after its placeholders were taken out
/// puts the values in where the placeholders stood.
proof fn lemma_stripped_renders(
    rest: Seq<u8>,
    done: int,
    removed: int,
    captures: Seq<(Option<Seq<char>>, Option<(int, int)>)>,
    i: int,
    context: Map<Seq<char>, Seq<char>>,
)
    requires
        valid_utf8(rest),
        0 <= i,
        stripped(rest, done, removed, captures, i) is Ok,
        binds_all(captures, context),
    ensures
        woven(
            encode_utf8(stripped(rest, done, removed, captures, i)->Ok_0.value),
            done - removed,
            stripped(rest, done, removed, captures, i)->Ok_0.parts,
            0,
            context,
        ) == Ok::<Seq<char>, TemplateFailure>(filled(rest, done, captures, i, context)),
    decreases captures.len() - i,
{
    let template = stripped(rest, done, removed, captures, i)->Ok_0;
    if i >= captures.len() {
        decode_utf8_encode_utf8(rest);
    } else {
        let name = captures[i].0->Some_0;
        let (start, end) = captures[i].1->Some_0;
        let gap = rest.subrange(0, start - done);
        let tail = rest.subrange(start - done, rest.len() as int);
        let after = tail.subrange(end - start, tail.len() as int);
        valid_utf8_split(rest, start - done);
        valid_utf8_split(tail, end - start);
        let later = stripped(after, end, removed + (end - start), captures, i + 1)->Ok_0;
        lemma_stripped_renders(after, end, removed + (end - start), captures, i + 1, context);
        lemma_encode_joined(gap, later.value);
        let bytes = encode_utf8(template.value);
        let first = Variable { name, start: start - removed };
        assert(template.parts[0] == first);
        assert(context.contains_key(name));
        assert(bytes.subrange(0, gap.len() as int) =~= gap);
        assert(bytes.subrange(gap.len() as int, bytes.len() as int) =~= encode_utf8(later.value));
        lemma_woven_shift(
            encode_utf8(later.value),
            start - removed,
            first,
            later.parts,
            0,
            context,
        );
        assert(rest.subrange(end - done, rest.len() as int) =~= after);
    }
}

/// Parsing a text and rendering the template gives the text back with the
/// value of its variable in the place of each placeholder: nothing else of
/// the text is changed, and no placeholder is left.
pub proof fn lemma_template_round_trip(
    text: Seq<char>,
    captures: Seq<(Option<Seq<char>>, Option<(int, int)>)>,
    context: Map<Seq<char>, Seq<char>>,
)
    requires
        template_from(text, captures) is Ok,
        binds_all(captures, context),
    ensures
        rendered_template(template_from(text, captures)->Ok_0, context) == Ok::<
            Seq<char>,
            TemplateFailure,
        >(filled(encode_utf8(text), 0, captures, 0, context)),
{
    encode_utf8_valid_utf8(text);
    lemma_stripped_renders(encode_utf8(text), 0, 0, captures, 0, context);
}

/// The same of a text in which the placeholders are searched for: where it
/// is a template, and the context binds the name of every placeholder found
/// in it, the template renders to the text with the values in the places of
/// the placeholders.
pub proof fn lemma_parsed_template_renders(text: Seq<char>, context: Map<Seq<char>, Seq<char>>)
    ensures
        template_of(text) is Ok && binds_all(captures_of(PLACEHOLDER@, text), context)
            ==> rendered_template(template_of(text)->Ok_0, context) == Ok::<
            Seq<char>,
            TemplateFailure,
        >(filled(encode_utf8(text), 0, captures_of(PLACEHOLDER@, text), 0, context)),
{
    if template_of(text) is Ok && binds_all(captures_of(PLACEHOLDER@, text), context) {
        lemma_template_round_trip(text, captures_of(PLACEHOLDER@, text), context);
    }
}

/// A text in which no placeholder was found is a template that renders to
/// the text itself, whatever the context binds.
pub proof fn lemma_plain_template(text: Seq<char>, context: Map<Seq<char>, Seq<char>>)
    ensures
        template_from(text, Seq::empty()) == Ok::<Template, TemplateSyntaxError>(
            Template { value: text, parts: Seq::empty() },
        ),
        rendered_template(Template { value: text, parts: Seq::empty() }, context) == Ok::<
            Seq<char>,
            TemplateFailure,
        >(text),
{
    encode_utf8_decode_utf8(text);
}

} // verus!
