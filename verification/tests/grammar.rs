//! Lines in the action grammar, and what they stand for.

use taskerie::model::action::{Action, Argument, ArgumentComponent, Command, Target};
use taskerie::model::ParamContext;
use taskerie::ordered_map::OrderedMap;
use taskerie::service::action_parser::{
    parse, ActionParser, BindingError, BindingErrorKind, ParseError, SyntaxError, SyntaxErrorKind,
};
use taskerie::service::render::UnboundVariable;

fn literal(text: &str) -> ArgumentComponent {
    ArgumentComponent::Literal(text.to_string())
}

fn variable(name: &str) -> ArgumentComponent {
    ArgumentComponent::Interpolated(name.to_string())
}

fn argument(components: Vec<ArgumentComponent>) -> Argument {
    Argument { components }
}

fn command(line: &str) -> Command {
    match parse(line).expect("the line is a command") {
        Action::Command(command) => command,
        Action::TaskCall(call) => panic!("unexpected call of {}", call.name),
    }
}

fn call(line: &str) -> (String, Vec<(String, Argument)>) {
    match parse(line).expect("the line is a call") {
        Action::TaskCall(call) => (call.name, entries(&call.params)),
        Action::Command(command) => panic!("unexpected command {}", command.name),
    }
}

fn entries(params: &OrderedMap<Argument>) -> Vec<(String, Argument)> {
    let mut entries = Vec::new();
    let mut index = 0;
    while let Some((name, value)) = params.get_index(index) {
        entries.push((name.clone(), value.clone()));
        index += 1;
    }
    entries
}

fn syntax_error(line: &str) -> SyntaxError {
    match parse(line) {
        Err(ParseError::Syntax(error)) => error,
        other => panic!("expected a syntax error, got {other:?}"),
    }
}

fn binding_error(line: &str) -> BindingError {
    match parse(line) {
        Err(ParseError::Binding(error)) => error,
        other => panic!("expected a binding error, got {other:?}"),
    }
}

#[test]
fn command_with_two_words() {
    let parsed = command("echo hello world");
    assert_eq!(parsed.name, "echo");
    assert_eq!(
        parsed.arguments,
        vec![argument(vec![literal("hello")]), argument(vec![literal("world")])]
    );
}

#[test]
fn command_with_quoted_group() {
    let parsed = command(r#"echo "hello world""#);
    assert_eq!(parsed.arguments, vec![argument(vec![literal("hello world")])]);
}

#[test]
fn command_with_variables() {
    assert_eq!(command("echo ${x}").arguments, vec![argument(vec![variable("x")])]);
    assert_eq!(
        command("echo pre${x}post").arguments,
        vec![argument(vec![literal("pre"), variable("x"), literal("post")])]
    );
}

#[test]
fn task_call_with_binding() {
    let (name, params) = call("_build --env ${e}");
    assert_eq!(name, "build");
    assert_eq!(params, vec![("env".to_string(), argument(vec![variable("e")]))]);
}

#[test]
fn task_call_keeps_the_order_of_its_bindings() {
    let (name, params) = call(r#"  _deploy --to "the moon" --from earth --to mars  "#);
    assert_eq!(name, "deploy");
    assert_eq!(
        params,
        vec![
            ("to".to_string(), argument(vec![literal("mars")])),
            ("from".to_string(), argument(vec![literal("earth")])),
        ]
    );
}

#[test]
fn task_call_without_bindings() {
    let (name, params) = call("_build");
    assert_eq!(name, "build");
    assert!(params.is_empty());
}

#[test]
fn task_call_argument_without_name_is_refused() {
    assert_eq!(
        binding_error("_build prod"),
        BindingError { kind: BindingErrorKind::ExpectedParameterName, index: 0 }
    );
    assert_eq!(
        binding_error("_build --env prod stray"),
        BindingError { kind: BindingErrorKind::ExpectedParameterName, index: 2 }
    );
    assert_eq!(
        binding_error("_build -- prod"),
        BindingError { kind: BindingErrorKind::ExpectedParameterName, index: 0 }
    );
    assert_eq!(
        binding_error("_build ${name} prod"),
        BindingError { kind: BindingErrorKind::ExpectedParameterName, index: 0 }
    );
}

#[test]
fn task_call_name_without_value_is_refused() {
    assert_eq!(
        binding_error("_build --env"),
        BindingError { kind: BindingErrorKind::ExpectedParameterValue, index: 1 }
    );
    assert_eq!(
        binding_error("_build --env --other value"),
        BindingError { kind: BindingErrorKind::ExpectedParameterValue, index: 1 }
    );
}

#[test]
fn parameter_name_loses_every_leading_pair_of_dashes() {
    let (_, params) = call("_build ----env prod ---odd end");
    assert_eq!(
        params,
        vec![
            ("env".to_string(), argument(vec![literal("prod")])),
            ("-odd".to_string(), argument(vec![literal("end")])),
        ]
    );
}

#[test]
fn empty_line_has_no_name() {
    let error = syntax_error("   ");
    assert_eq!(error, SyntaxError { kind: SyntaxErrorKind::EmptyName, offset: 0, found: None });
    assert_eq!(error.to_string(), "Empty action is invalid");
}

#[test]
fn marker_alone_has_no_name() {
    let error = syntax_error("_");
    assert_eq!(error, SyntaxError { kind: SyntaxErrorKind::EmptyName, offset: 1, found: None });
    assert_eq!(error.to_string(), "Action must have a name");
    assert_eq!(
        syntax_error("_ build"),
        SyntaxError { kind: SyntaxErrorKind::EmptyName, offset: 1, found: Some(' ') }
    );
}

#[test]
fn unterminated_quote_carries_its_offset() {
    let error = syntax_error(r#"echo "never closed"#);
    assert_eq!(
        error,
        SyntaxError { kind: SyntaxErrorKind::UnterminatedQuote, offset: 18, found: None }
    );
    assert_eq!(error.to_string(), "Error at 19: argument group must be closed");
}

#[test]
fn quote_must_be_followed_by_whitespace() {
    let error = syntax_error(r#"echo "closed"tight"#);
    assert_eq!(
        error,
        SyntaxError { kind: SyntaxErrorKind::UnterminatedQuote, offset: 13, found: Some('t') }
    );
    assert_eq!(error.to_string(), "literal group must be followed by whitespace");
}

#[test]
fn unterminated_interpolation_carries_its_offset() {
    let error = syntax_error("echo ${name");
    assert_eq!(
        error,
        SyntaxError { kind: SyntaxErrorKind::UnterminatedInterpolation, offset: 11, found: None }
    );
    assert_eq!(error.to_string(), "Error at 12: interpolation must be closed");
    assert_eq!(
        syntax_error("echo ${na me}"),
        SyntaxError {
            kind: SyntaxErrorKind::UnterminatedInterpolation,
            offset: 9,
            found: Some(' ')
        }
    );
    assert_eq!(
        syntax_error(r#"echo "${name""#),
        SyntaxError {
            kind: SyntaxErrorKind::UnterminatedInterpolation,
            offset: 13,
            found: None
        }
    );
}

#[test]
fn stray_marker_carries_its_offset() {
    let error = syntax_error("echo $HOME");
    assert_eq!(
        error,
        SyntaxError { kind: SyntaxErrorKind::StrayMarker, offset: 6, found: Some('H') }
    );
    assert_eq!(error.to_string(), "$ must be followed by {");
    let error = syntax_error("echo cost$");
    assert_eq!(error, SyntaxError { kind: SyntaxErrorKind::StrayMarker, offset: 10, found: None });
    assert_eq!(error.to_string(), "Error at 11: $ must be followed by {");
}

#[test]
fn variable_name_may_be_empty() {
    assert_eq!(
        command("echo ${}test${}").arguments,
        vec![argument(vec![variable(""), literal("test"), variable("")])]
    );
}

#[test]
fn dollar_in_a_name_is_an_ordinary_character() {
    let parsed = command("pay$me now");
    assert_eq!(parsed.name, "pay$me");
    assert_eq!(parsed.arguments, vec![argument(vec![literal("now")])]);
}

#[test]
fn quote_inside_a_word_joins_the_group_to_it() {
    assert_eq!(
        command(r#"echo pre"in side" next"#).arguments,
        vec![argument(vec![literal("prein side")]), argument(vec![literal("next")])]
    );
}

#[test]
fn other_whitespace_separates_arguments_too() {
    assert_eq!(
        command("echo\ta\u{2003}b\u{a0}c").arguments,
        vec![
            argument(vec![literal("a")]),
            argument(vec![literal("b")]),
            argument(vec![literal("c")])
        ]
    );
    assert_eq!(command("echo a\u{200b}b").arguments, vec![argument(vec![literal("a\u{200b}b")])]);
}

#[test]
fn parsing_twice_gives_the_same() {
    let line = r#"_task --a "x ${y} z" --b ${c}d"#;
    assert_eq!(call(line), call(line));
}

#[test]
fn parser_can_be_run_by_hand() {
    let action = ActionParser::new("echo hi").parse().unwrap();
    assert_eq!(action.name, "echo");
    assert_eq!(action.target, Target::External);
    assert_eq!(action.arguments, vec![argument(vec![literal("hi")])]);
    assert_eq!(
        ActionParser::new(" echo").parse().unwrap_err(),
        SyntaxError { kind: SyntaxErrorKind::EmptyName, offset: 0, found: Some(' ') }
    );
}

#[test]
fn render_concatenates_components() {
    let value = argument(vec![literal("a"), variable("x"), literal("b")]);
    let mut context = ParamContext::default();
    assert_eq!(value.render(&context), Err(UnboundVariable { name: "x".to_string() }));
    context.set("x", "Z");
    assert_eq!(value.render(&context), Ok("aZb".to_string()));
}

#[test]
fn render_reports_the_first_unbound_variable() {
    let value = argument(vec![variable("known"), variable("first"), variable("second")]);
    let mut context = ParamContext::default();
    context.set("known", "k");
    assert_eq!(value.render(&context), Err(UnboundVariable { name: "first".to_string() }));
}

#[test]
fn render_of_literals_ignores_the_context() {
    let value = argument(vec![literal("plain "), literal("text")]);
    let empty = ParamContext::default();
    let mut full = ParamContext::default();
    full.set("plain ", "other");
    full.set("text", "other");
    assert_eq!(value.render(&empty), Ok("plain text".to_string()));
    assert_eq!(value.render(&full), Ok("plain text".to_string()));
    assert_eq!(argument(vec![]).render(&empty), Ok(String::new()));
}

#[test]
fn command_renders_to_its_line() {
    let parsed = command(r#"tool ${a} "b c""#);
    let mut context = ParamContext::default();
    assert_eq!(parsed.render(&context), Err(UnboundVariable { name: "a".to_string() }));
    context.set("a", "A");
    assert_eq!(parsed.render(&context), Ok("tool A b c".to_string()));
    assert_eq!(command("alone").render(&context), Ok("alone".to_string()));
}

#[test]
fn written_line_parses_back() {
    let parsed = command(r#"tool a${b}c ${d}${e} "x  y" "" end"#);
    assert_eq!(parsed.name, "tool");
    assert_eq!(
        parsed.arguments,
        vec![
            argument(vec![literal("a"), variable("b"), literal("c")]),
            argument(vec![variable("d"), variable("e")]),
            argument(vec![literal("x  y")]),
            argument(vec![literal("")]),
            argument(vec![literal("end")]),
        ]
    );
}

#[test]
fn quoted_group_is_read_as_what_stands_outside_quotes() {
    assert_eq!(command(r#"echo "${x}""#).arguments, command("echo ${x}").arguments);
    assert_eq!(command(r#"echo "${x}""#).arguments, vec![argument(vec![variable("x")])]);
    assert_eq!(
        command(r#"echo "a${x}""#).arguments,
        vec![argument(vec![literal("a"), variable("x")])]
    );
    assert_eq!(
        command(r#"echo "${x} ${y}" ${z}"" """#).arguments,
        vec![
            argument(vec![variable("x"), literal(" "), variable("y")]),
            argument(vec![variable("z")]),
            argument(vec![literal("")]),
        ]
    );
}

#[test]
fn refused_reading_leaves_the_parser_as_it_was() {
    let mut parser = ActionParser::new("x");
    assert_eq!(
        parser.assert_valid_interpolation_start(),
        Err(SyntaxError { kind: SyntaxErrorKind::StrayMarker, offset: 0, found: Some('x') })
    );
    assert_eq!(parser.next(), Some('x'));
    assert_eq!(
        parser.assert_valid_interpolation_start(),
        Err(SyntaxError { kind: SyntaxErrorKind::StrayMarker, offset: 1, found: None })
    );
    assert_eq!(parser.next(), None);
}

#[test]
fn parser_reads_character_by_character() {
    let mut parser = ActionParser::new(" \t x y");
    assert_eq!(parser.next_non_whitespace(), Some('x'));
    assert_eq!(parser.next(), Some(' '));
    assert_eq!(parser.next_err(SyntaxErrorKind::EmptyName), Ok('y'));
    assert_eq!(parser.next(), None);
    assert_eq!(
        parser.next_err(SyntaxErrorKind::UnterminatedQuote),
        Err(SyntaxError { kind: SyntaxErrorKind::UnterminatedQuote, offset: 6, found: None })
    );
    assert_eq!(parser.next_non_whitespace(), None);

    let mut parser = ActionParser::new("a  ");
    assert_eq!(parser.next_non_whitespace_err(SyntaxErrorKind::EmptyName), Ok('a'));
    assert_eq!(
        parser.next_non_whitespace_err(SyntaxErrorKind::EmptyName),
        Err(SyntaxError { kind: SyntaxErrorKind::EmptyName, offset: 3, found: None })
    );
    parser.reset_buf();
}

#[test]
fn parse_errors_say_what_is_wrong() {
    assert_eq!(parse("_build prod").unwrap_err().to_string(), "Expected param name at argument 0");
    assert_eq!(
        parse("_build --a 1 --b 2 --c 3 --d 4 --e 5 --f").unwrap_err().to_string(),
        "Expected param value at argument 11"
    );
    assert_eq!(parse("echo $").unwrap_err().to_string(), "Error at 7: $ must be followed by {");
}
