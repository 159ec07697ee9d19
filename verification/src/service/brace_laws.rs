//! What holds of every line in the brace syntax.

use crate::model::action::{CommandView, Component, TaskCallView};
use crate::service::action_laws::{literals, spaced};
use crate::service::action_parser::{bound_names, dashed, rebound, strip_dashes};
use crate::service::braces::{
    arguments_from, command_of, components_from, literal_end, name_of, param_end, params_from,
    plain, scan, stops, task_call_of, token_at, BraceFailure, TokenView, Until,
};
use crate::text::white_space;
use vstd::prelude::*;

verus! {

/// Whether `word` is not empty and holds neither whitespace nor a brace that
/// opens nor a quote.
pub open spec fn bare(word: Seq<char>) -> bool {
    &&& word.len() > 0
    &&& forall|i: int|
        0 <= i < word.len() ==> !white_space(#[trigger] word[i]) && word[i] != '{' && word[i]
            != '"'
}

/// Whether every one of `words` is bare and none starts with two dashes.
pub open spec fn all_bare(words: Seq<Seq<char>>) -> bool {
    forall|j: int| 0 <= j < words.len() ==> bare(#[trigger] words[j]) && !dashed(words[j])
}

/// A scan that meets nothing to stop it for `count` characters, and then the
/// end of the text or a character that stops it, ends there.
proof fn lemma_scan_run(s: Seq<char>, from: int, count: int, until: Until)
    requires
        0 <= from,
        0 <= count,
        from + count <= s.len(),
        forall|i: int| from <= i < from + count ==> !stops(until, #[trigger] s[i]),
        from + count == s.len() || stops(until, s[from + count]),
    ensures
        scan(s, from, until) == from + count,
    decreases count,
{
    if count > 0 {
        lemma_scan_run(s, from + 1, count - 1, until);
    }
}

/// A literal that goes through `count` characters of which each may stand in
/// a literal, and then meets the end of the text or a character that may not
/// and that opens no span, ends there.
proof fn lemma_literal_run(s: Seq<char>, at: int, count: int, allow_quote: bool)
    requires
        0 <= at,
        0 <= count,
        at + count <= s.len(),
        forall|i: int| at <= i < at + count ==> plain(#[trigger] s[i], allow_quote),
        at + count == s.len() || (!plain(s[at + count], allow_quote) && s[at + count] != '{'),
    ensures
        literal_end(s, at, allow_quote) == at + count,
    decreases count,
{
    if count > 0 {
        lemma_literal_run(s, at + 1, count - 1, allow_quote);
    } else if at < s.len() {
    }
}

/// A text without a brace that opens is one literal.
proof fn lemma_components_of_bare(word: Seq<char>)
    requires
        word.len() > 0,
        forall|i: int| 0 <= i < word.len() ==> #[trigger] word[i] != '{',
    ensures
        components_from(word, 0) == Some(seq![Component::Literal(word)]),
{
    lemma_scan_run(word, 0, word.len() as int, Until::OpenBrace);
    assert(word.subrange(0, word.len() as int) =~= word);
    assert(components_from(word, word.len() as int) == Some(Seq::<Component>::empty()));
    assert(seq![Component::Literal(word)] + Seq::<Component>::empty() =~= seq![
        Component::Literal(word),
    ]);
}

/// A bare word that does not start with two dashes, followed by whitespace
/// or the end of the text, is a literal token of one component.
proof fn lemma_word_token(s: Seq<char>, at: int, word: Seq<char>, with_params: bool)
    requires
        0 <= at,
        at + word.len() <= s.len(),
        s.subrange(at, at + word.len()) == word,
        bare(word),
        !dashed(word),
        at + word.len() == s.len() || white_space(s[at + word.len()]),
    ensures
        token_at(s, at, with_params) == (
            TokenView::Literal(seq![Component::Literal(word)]),
            at + word.len(),
        ),
{
    let end = at + word.len();
    assert forall|i: int| at <= i < end implies plain(#[trigger] s[i], !with_params) && s[i]
        != '{' by {
        assert(s[i] == word[i - at]);
    }
    lemma_literal_run(s, at, word.len() as int, !with_params);
    assert(param_end(s, at) == at) by {
        if at + 1 < s.len() && s[at] == '-' && s[at + 1] == '-' {
            assert(s[at] == word[0]);
        }
    }
    lemma_components_of_bare(word);
}

/// Two dashes and a bare name that does not start with two dashes, followed
/// by whitespace or the end of the text, are the parameter of that name.
proof fn lemma_flag_token(s: Seq<char>, at: int, name: Seq<char>)
    requires
        0 <= at,
        at + 2 + name.len() <= s.len(),
        s.subrange(at, at + 2 + name.len()) == seq!['-', '-'] + name,
        bare(name),
        !dashed(name),
        at + 2 + name.len() == s.len() || white_space(s[at + 2 + name.len()]),
    ensures
        token_at(s, at, true) == (TokenView::Param(name), at + 2 + name.len()),
{
    let text = seq!['-', '-'] + name;
    let end = at + 2 + name.len();
    assert forall|i: int| at <= i < end implies plain(#[trigger] s[i], false) by {
        assert(s[i] == text[i - at]);
    }
    lemma_literal_run(s, at, 2 + name.len() as int, false);
    assert forall|i: int| at + 2 <= i < end implies !stops(Until::Whitespace, #[trigger] s[i]) by {}
    lemma_scan_run(s, at + 2, name.len() as int, Until::Whitespace);
    assert(strip_dashes(text) == name) by {
        assert(text.skip(2) =~= name);
        assert(strip_dashes(name) == name);
    }
}

/// Bare words, each after one space, are the arguments of a command, one
/// literal each.
proof fn lemma_reads_bare_words(s: Seq<char>, at: int, words: Seq<Seq<char>>)
    requires
        0 <= at <= s.len(),
        all_bare(words),
        s.skip(at) == spaced(words),
    ensures
        arguments_from(s, at) == Ok::<Seq<Seq<Component>>, BraceFailure>(literals(words)),
    decreases words.len(),
{
    let unread = s.skip(at);
    if words.len() == 0 {
        assert(literals(words) =~= Seq::<Seq<Component>>::empty());
    } else {
        let word = words[0];
        let rest = words.drop_first();
        assert(unread == seq![' '] + word + spaced(rest));
        assert(s[at] == unread[0]);
        assert(s[at + 1] == unread[1]);
        lemma_scan_run(s, at, 1, Until::NonWhitespace);
        let start = at + 1;
        let end = start + word.len();
        assert(s.subrange(start, end) =~= word) by {
            assert forall|i: int| 0 <= i < word.len() implies s[start + i] == word[i] by {
                assert(unread[1 + i] == word[i]);
            }
        }
        assert(s.skip(end) =~= spaced(rest)) by {
            assert(s.skip(end) =~= unread.skip(1 + word.len() as int));
        }
        assert(end == s.len() || white_space(s[end])) by {
            if end < s.len() {
                assert(spaced(rest)[0] == ' ');
            }
        }
        lemma_word_token(s, start, word, false);
        assert forall|j: int| 0 <= j < rest.len() implies bare(#[trigger] rest[j]) && !dashed(
            rest[j],
        ) by {}
        lemma_reads_bare_words(s, end, rest);
        assert(seq![seq![Component::Literal(word)]] + literals(rest) =~= literals(words)) by {
            assert forall|j: int| 0 <= j < rest.len() implies literals(rest)[j] == literals(
                words,
            )[j + 1] by {}
        }
    }
}

/// Bare words, each after a space, end in a character that is no whitespace.
proof fn lemma_spaced_end(words: Seq<Seq<char>>)
    requires
        all_bare(words),
        words.len() > 0,
    ensures
        spaced(words).len() > 0,
        !white_space(spaced(words).last()),
    decreases words.len(),
{
    let rest = words.drop_first();
    assert(bare(words[0]));
    if rest.len() > 0 {
        assert forall|j: int| 0 <= j < rest.len() implies bare(#[trigger] rest[j]) && !dashed(
            rest[j],
        ) by {}
        lemma_spaced_end(rest);
        assert(spaced(words).last() == spaced(rest).last());
    }
}

/// In the brace syntax, the name of a program followed by bare words, each
/// after one space, is the command of that program with the words as its
/// arguments, one literal each, as many as there are words and in their
/// order.
pub proof fn lemma_bare_command(name: Seq<char>, words: Seq<Seq<char>>)
    requires
        bare(name),
        !dashed(name),
        all_bare(words),
    ensures
        command_of(name + spaced(words)) == Ok::<CommandView, BraceFailure>(
            CommandView { name, arguments: literals(words) },
        ),
{
    let text = name + spaced(words);
    if words.len() > 0 {
        lemma_spaced_end(words);
    }
    assert(text.subrange(0, name.len() as int) =~= name);
    lemma_word_token(text, 0, name, false);
    assert(name_of(text, false) == Ok::<(Seq<char>, int), BraceFailure>(
        (name, name.len() as int),
    ));
    assert(text.skip(name.len() as int) =~= spaced(words));
    lemma_reads_bare_words(text, name.len() as int, words);
}

/// Bindings as they are written in the brace syntax: for each, a space, two
/// dashes and the name, a space and the value.
pub open spec fn flagged(params: Seq<(Seq<char>, Seq<char>)>) -> Seq<char>
    decreases params.len(),
{
    if params.len() == 0 {
        Seq::empty()
    } else {
        seq![' ', '-', '-'] + params[0].0 + seq![' '] + params[0].1 + flagged(params.drop_first())
    }
}

/// Bindings of literal values.
pub open spec fn literal_bindings(params: Seq<(Seq<char>, Seq<char>)>) -> Seq<
    (Seq<char>, Seq<Component>),
> {
    Seq::new(params.len(), |i: int| (params[i].0, seq![Component::Literal(params[i].1)]))
}

/// Whether bindings can be written in the brace syntax without quotes: names
/// and values are bare, none starts with two dashes, and no name is bound
/// twice.
pub open spec fn bare_bindings(params: Seq<(Seq<char>, Seq<char>)>) -> bool {
    &&& forall|i: int|
        0 <= i < params.len() ==> bare((#[trigger] params[i]).0) && !dashed(params[i].0) && bare(
            params[i].1,
        ) && !dashed(params[i].1)
    &&& forall|i: int, j: int|
        0 <= i < params.len() && 0 <= j < params.len() && i != j ==> (#[trigger] params[i]).0 != (
        #[trigger] params[j]).0
}

/// Written bindings, read after some bindings that do not bind the same
/// names, add those bindings in their order.
proof fn lemma_reads_flagged(
    s: Seq<char>,
    at: int,
    bound: Seq<(Seq<char>, Seq<char>)>,
    params: Seq<(Seq<char>, Seq<char>)>,
)
    requires
        0 <= at <= s.len(),
        bare_bindings(bound + params),
        s.skip(at) == flagged(params),
    ensures
        params_from(s, at, literal_bindings(bound)) == Ok::<
            Seq<(Seq<char>, Seq<Component>)>,
            BraceFailure,
        >(literal_bindings(bound + params)),
    decreases params.len(),
{
    let unread = s.skip(at);
    let whole = bound + params;
    if params.len() == 0 {
        assert(unread.len() == 0);
        assert(whole =~= bound);
    } else {
        let (name, value) = params[0];
        let rest = params.drop_first();
        assert(whole[bound.len() as int] == params[0]);
        assert(bare(name) && !dashed(name) && bare(value) && !dashed(value));
        let head = seq![' ', '-', '-'] + name + seq![' '] + value;
        assert(unread == head + flagged(rest));
        assert(white_space(' '));
        assert(!white_space('-'));
        assert(s[at] == unread[0]);
        assert(s[at + 1] == unread[1]);
        lemma_scan_run(s, at, 1, Until::NonWhitespace);
        let start = at + 1;
        let flag_end = start + 2 + name.len();
        assert(s.subrange(start, flag_end) =~= seq!['-', '-'] + name) by {
            assert forall|i: int| 0 <= i < 2 + name.len() implies s[start + i] == (seq!['-', '-']
                + name)[i] by {
                assert(unread[1 + i] == head[1 + i]);
            }
        }
        assert(s[flag_end] == ' ') by {
            assert(unread[3 + name.len() as int] == head[3 + name.len() as int]);
            assert(s[flag_end] == unread[3 + name.len() as int]);
        }
        lemma_flag_token(s, start, name);
        let value_start = flag_end + 1;
        let value_end = value_start + value.len();
        assert(s[value_start] == value[0]) by {
            assert(unread[4 + name.len() as int] == head[4 + name.len() as int]);
            assert(s[value_start] == unread[4 + name.len() as int]);
        }
        lemma_scan_run(s, flag_end, 1, Until::NonWhitespace);
        assert(s.subrange(value_start, value_end) =~= value) by {
            assert forall|i: int| 0 <= i < value.len() implies s[value_start + i] == value[i] by {
                assert(unread[4 + name.len() as int + i] == head[4 + name.len() as int + i]);
            }
        }
        assert(s.skip(value_end) =~= flagged(rest)) by {
            assert(s.skip(value_end) =~= unread.skip(head.len() as int));
        }
        assert(value_end == s.len() || white_space(s[value_end])) by {
            if value_end < s.len() {
                assert(rest.len() > 0);
                assert(flagged(rest)[0] == ' ');
                assert(s.skip(value_end)[0] == s[value_end]);
            }
        }
        lemma_word_token(s, value_start, value, true);
        let was = literal_bindings(bound);
        assert(!bound_names(was).contains(name)) by {
            if bound_names(was).contains(name) {
                let j = choose|j: int| 0 <= j < was.len() && bound_names(was)[j] == name;
                assert(whole[j] == bound[j]);
                assert(whole[j].0 != whole[bound.len() as int].0);
            }
        }
        let more = bound.push((name, value));
        assert(rebound(was, name, seq![Component::Literal(value)]) =~= literal_bindings(more));
        assert(more + rest =~= whole);
        lemma_reads_flagged(s, value_end, more, rest);
    }
}

/// Written bindings end in a character that is no whitespace.
proof fn lemma_flagged_end(params: Seq<(Seq<char>, Seq<char>)>)
    requires
        bare_bindings(params),
        params.len() > 0,
    ensures
        flagged(params).len() > 0,
        flagged(params)[0] == ' ',
        !white_space(flagged(params).last()),
    decreases params.len(),
{
    let rest = params.drop_first();
    let (name, value) = params[0];
    assert(bare(value));
    assert(flagged(params) == seq![' ', '-', '-'] + name + seq![' '] + value + flagged(rest));
    if rest.len() > 0 {
        assert forall|i: int| 0 <= i < rest.len() implies bare((#[trigger] rest[i]).0) && !dashed(
            rest[i].0,
        ) && bare(rest[i].1) && !dashed(rest[i].1) by {}
        assert forall|i: int, j: int|
            0 <= i < rest.len() && 0 <= j < rest.len() && i != j implies (#[trigger] rest[i]).0
            != (#[trigger] rest[j]).0 by {}
        lemma_flagged_end(rest);
    }
}

/// In the brace syntax, the name of a task followed by written bindings is
/// the call of that task with those bindings, as many as were written and in
/// their order.
pub proof fn lemma_bare_call(name: Seq<char>, params: Seq<(Seq<char>, Seq<char>)>)
    requires
        bare(name),
        !dashed(name),
        bare_bindings(params),
    ensures
        task_call_of(name + flagged(params)) == Ok::<TaskCallView, BraceFailure>(
            TaskCallView { name, params: literal_bindings(params) },
        ),
{
    let text = name + flagged(params);
    if params.len() > 0 {
        lemma_flagged_end(params);
    }
    assert(text.subrange(0, name.len() as int) =~= name);
    lemma_word_token(text, 0, name, true);
    assert(name_of(text, true) == Ok::<(Seq<char>, int), BraceFailure>(
        (name, name.len() as int),
    ));
    assert(text.skip(name.len() as int) =~= flagged(params));
    let none = Seq::<(Seq<char>, Seq<char>)>::empty();
    assert(literal_bindings(none) =~= Seq::<(Seq<char>, Seq<Component>)>::empty());
    lemma_reads_flagged(text, name.len() as int, none, params);
}

} // verus!
