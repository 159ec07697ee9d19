//! Maps, contexts, templates and the brace syntax at their edges.

use taskerie::config;
use taskerie::load;
use taskerie::model::action::{Action, ArgumentComponent, Command, TaskCall};
use taskerie::model::{InterpolatedString, InterpolatedVariable, ParamContext};
use taskerie::ordered_map::OrderedMap;
use taskerie::pattern::Capture;
use taskerie::service::action_parser::{ParseError, SyntaxErrorKind};
use taskerie::service::braces::BraceError;
use taskerie::service::interpolated_string::{TemplateError, TemplateSyntaxError};
use taskerie::service::task_parser::ConfigError;
use taskerie::text::{to_chars, to_string, trimmed};

fn keys<V>(map: &OrderedMap<V>) -> Vec<String> {
    let mut keys = Vec::new();
    let mut index = 0;
    while let Some((name, _)) = map.get_index(index) {
        keys.push(name.clone());
        index += 1;
    }
    keys
}

#[test]
fn ordered_map_keeps_insertion_order() {
    let mut map = OrderedMap::new();
    assert_eq!(map.len(), 0);
    assert!(map.get_index(0).is_none());
    map.insert("b".to_string(), 1);
    map.insert("a".to_string(), 2);
    map.insert("c".to_string(), 3);
    assert_eq!(keys(&map), vec!["b", "a", "c"]);
    assert_eq!(map.len(), 3);
    assert_eq!(map.get("a"), Some(&2));
    assert_eq!(map.get("d"), None);
    assert!(map.contains_key("c"));
    assert!(!map.contains_key(""));
    assert_eq!(map.get_index(1), Some((&"a".to_string(), &2)));
    assert_eq!(map.get_index(3), None);
}

#[test]
fn ordered_map_replaces_in_place() {
    let mut map = OrderedMap::new();
    map.insert("b".to_string(), 1);
    map.insert("a".to_string(), 2);
    map.insert("b".to_string(), 9);
    assert_eq!(keys(&map), vec!["b", "a"]);
    assert_eq!(map.len(), 2);
    assert_eq!(map.get("b"), Some(&9));
    assert_eq!(map.get_index(0), Some((&"b".to_string(), &9)));
}

#[test]
fn context_binds_and_rebinds() {
    let mut context = ParamContext::default();
    assert!(!context.has("x"));
    assert_eq!(context.get("x"), None);
    context.set("x", "1");
    context.set("y", "2");
    context.set("x", "3");
    assert!(context.has("x"));
    assert_eq!(context.get("x"), Some(&"3".to_string()));
    assert_eq!(context.get("y"), Some(&"2".to_string()));
    assert_eq!(keys(&context.params), vec!["x", "y"]);
}

#[test]
fn text_is_trimmed_of_every_whitespace() {
    let chars = to_chars(" \t\u{3000}a b\u{a0}\n");
    let kept = trimmed(&chars);
    assert_eq!(to_string(&kept, 0, kept.len()), "a b");
    assert_eq!(to_string(&chars, 3, 6), "a b");
    assert!(trimmed(&to_chars(" \n ")).is_empty());
    assert_eq!(to_chars("héé").len(), 3);
}

#[test]
fn template_offsets_count_bytes() {
    let template = InterpolatedString::from_str("é{{ x }}é").unwrap();
    assert_eq!(
        template,
        InterpolatedString {
            value: "éé".to_string(),
            parts: vec![InterpolatedVariable { name: "x".to_string(), start: 2 }],
        }
    );
    let mut context = ParamContext::default();
    context.set("x", "ö");
    assert_eq!(template.render(&context), Ok("éöé".to_string()));
}

#[test]
fn template_with_adjacent_placeholders() {
    let template = InterpolatedString::from_str("{{a}}{{ b }}").unwrap();
    assert_eq!(
        template.parts,
        vec![
            InterpolatedVariable { name: "a".to_string(), start: 0 },
            InterpolatedVariable { name: "b".to_string(), start: 0 },
        ]
    );
    let mut context = ParamContext::default();
    context.set("a", "1");
    context.set("b", "2");
    assert_eq!(template.render(&context), Ok("12".to_string()));
}

#[test]
fn template_keeps_braces_that_hold_no_placeholder() {
    let template = InterpolatedString::from_str("a {{ b } c").unwrap();
    assert_eq!(template, InterpolatedString { value: "a {{ b } c".to_string(), parts: vec![] });
}

#[test]
fn template_reports_the_unbound_variable() {
    let template = InterpolatedString::from_str("{{ a }}-{{ b }}").unwrap();
    let mut context = ParamContext::default();
    context.set("a", "1");
    assert_eq!(template.render(&context), Err(TemplateError::UnboundVariable("b".to_string())));
}

#[test]
fn template_with_misplaced_variable_is_refused() {
    let mut context = ParamContext::default();
    context.set("x", "1");
    let beyond = InterpolatedString {
        value: "abc".to_string(),
        parts: vec![InterpolatedVariable { name: "x".to_string(), start: 4 }],
    };
    assert_eq!(beyond.render(&context), Err(TemplateError::MisplacedVariable(0)));
    let backwards = InterpolatedString {
        value: "abc".to_string(),
        parts: vec![
            InterpolatedVariable { name: "x".to_string(), start: 2 },
            InterpolatedVariable { name: "x".to_string(), start: 1 },
        ],
    };
    assert_eq!(backwards.render(&context), Err(TemplateError::MisplacedVariable(1)));
    let inside = InterpolatedString {
        value: "é".to_string(),
        parts: vec![InterpolatedVariable { name: "x".to_string(), start: 1 }],
    };
    assert_eq!(inside.render(&context), Err(TemplateError::MisplacedVariable(0)));
    let at_end = InterpolatedString {
        value: "abc".to_string(),
        parts: vec![InterpolatedVariable { name: "x".to_string(), start: 3 }],
    };
    assert_eq!(at_end.render(&context), Ok("abc1".to_string()));
}

#[test]
fn template_from_found_placeholders() {
    let found = |group: Option<&str>, span: Option<(usize, usize)>| Capture {
        group: group.map(str::to_string),
        span,
    };
    assert_eq!(
        InterpolatedString::from_captures("ab{{x}}cd", vec![found(Some("x"), Some((2, 7)))]),
        Ok(InterpolatedString {
            value: "abcd".to_string(),
            parts: vec![InterpolatedVariable { name: "x".to_string(), start: 2 }],
        })
    );
    assert_eq!(
        InterpolatedString::from_captures("abcd", vec![found(None, Some((0, 1)))]),
        Err(TemplateSyntaxError::MissingName(0))
    );
    assert_eq!(
        InterpolatedString::from_captures("abcd", vec![found(Some("x"), None)]),
        Err(TemplateSyntaxError::MissingMatch(0))
    );
    assert_eq!(
        InterpolatedString::from_captures(
            "abcd",
            vec![found(Some("x"), Some((1, 3))), found(Some("y"), Some((2, 4)))]
        ),
        Err(TemplateSyntaxError::Misplaced(1))
    );
    assert_eq!(
        InterpolatedString::from_captures("abcd", vec![found(Some("x"), Some((3, 2)))]),
        Err(TemplateSyntaxError::Misplaced(0))
    );
    assert_eq!(
        InterpolatedString::from_captures("abcd", vec![found(Some("x"), Some((3, 5)))]),
        Err(TemplateSyntaxError::Misplaced(0))
    );
    assert_eq!(
        InterpolatedString::from_captures("é", vec![found(Some("x"), Some((0, 1)))]),
        Err(TemplateSyntaxError::Misplaced(0))
    );
}

#[test]
fn brace_action_with_marker_is_a_call() {
    match Action::from_str("  : build --env {{ e }} ").unwrap() {
        Action::TaskCall(call) => {
            assert_eq!(call.name, "build");
            assert_eq!(keys(&call.params), vec!["env"]);
            assert_eq!(
                call.params.get("env").unwrap().components,
                vec![ArgumentComponent::Interpolated("e".to_string())]
            );
        }
        Action::Command(command) => panic!("unexpected command {}", command.name),
    }
    match Action::from_str("build --env x").unwrap() {
        Action::Command(command) => {
            assert_eq!(command.name, "build");
            assert_eq!(command.arguments.len(), 2);
        }
        Action::TaskCall(call) => panic!("unexpected call of {}", call.name),
    }
}

#[test]
fn brace_errors_say_what_is_wrong() {
    assert_eq!(Action::from_str(" ").unwrap_err(), BraceError::Empty);
    assert_eq!(Action::from_str(":").unwrap_err(), BraceError::Empty);
    assert_eq!(Command::from_str("").unwrap_err(), BraceError::Empty);
    assert_eq!(Command::from_str(r#""quoted" x"#).unwrap_err(), BraceError::NameNotLiteral);
    assert_eq!(TaskCall::from_str("--flag x").unwrap_err(), BraceError::NameNotLiteral);
    assert_eq!(Command::from_str("{{ name }} x").unwrap_err(), BraceError::NameIsVariable);
    assert_eq!(Command::from_str("pre{{ name }} x").unwrap_err(), BraceError::NameNotSingleLiteral);
    assert_eq!(Command::from_str("tool {x").unwrap_err(), BraceError::UnreadableArgument(5));
    assert_eq!(
        Command::from_str("tool {{a{b}}").unwrap_err(),
        BraceError::UnreadableArgument(5)
    );
    assert_eq!(TaskCall::from_str("task value").unwrap_err(), BraceError::ExpectedParameter);
    assert_eq!(
        TaskCall::from_str("task --name").unwrap_err(),
        BraceError::MissingValue("name".to_string())
    );
    assert_eq!(
        TaskCall::from_str("task --name --other x").unwrap_err(),
        BraceError::ParameterAsValue("name".to_string())
    );
    assert_eq!(
        TaskCall::from_str("task --name {x").unwrap_err(),
        BraceError::UnreadableValue("name".to_string())
    );
    assert_eq!(BraceError::Empty.to_string(), "Action should not be empty");
    assert_eq!(
        BraceError::MissingValue("p".to_string()).to_string(),
        "Expected value for parameter `p`"
    );
    assert_eq!(
        BraceError::ParameterAsValue("p".to_string()).to_string(),
        "Expected param value after param name `p`"
    );
}

#[test]
fn brace_call_stops_at_an_unreadable_parameter() {
    let call = TaskCall::from_str(r#"task --a 1 "open --b 2"#).unwrap();
    assert_eq!(keys(&call.params), vec!["a"]);
}

#[test]
fn brace_tokens_are_the_longest_that_fit() {
    let command = Command::from_str(r#"tool "a"b --x{{y z}} """#).unwrap();
    assert_eq!(
        command.arguments.iter().map(|argument| argument.components.clone()).collect::<Vec<_>>(),
        vec![
            vec![ArgumentComponent::Literal(r#""a"b"#.to_string())],
            vec![
                ArgumentComponent::Literal("--x".to_string()),
                ArgumentComponent::Interpolated("y z".to_string())
            ],
            vec![],
        ]
    );
    let call = TaskCall::from_str("task --x{{y z}} v").unwrap_err();
    assert_eq!(call, BraceError::ExpectedParameter);
}

#[test]
fn configuration_with_a_bad_line_is_refused() {
    let written = |task: config::Task| {
        let mut tasks = OrderedMap::new();
        tasks.insert("job".to_string(), task);
        config::Root { tasks }
    };
    let plain = |line: &str| config::Task {
        working_directory: None,
        actions: vec![config::Action::Command(line.to_string())],
        on_success: vec![],
        on_failure: vec![],
        params: OrderedMap::new(),
    };
    match load(&written(plain(r#"echo "open"#))) {
        Err(ConfigError::Action(ParseError::Syntax(error))) => {
            assert_eq!(error.kind, SyntaxErrorKind::UnterminatedQuote);
            assert_eq!(error.offset, 10);
        }
        other => panic!("expected a syntax error, got {other:?}"),
    }
    assert!(matches!(
        load(&written(plain("_call stray"))),
        Err(ConfigError::Action(ParseError::Binding(_)))
    ));
    let mut params = OrderedMap::new();
    params.insert("x".to_string(), "{ nothing".to_string());
    let mut calling = plain("echo");
    calling.on_failure.push(config::Action::TaskCall { name: "job".to_string(), params });
    assert_eq!(load(&written(calling)).unwrap_err(), ConfigError::Parameter);
    assert!(load(&written(plain("echo fine"))).is_ok());
}

#[test]
fn whitespace_is_the_unicode_property() {
    let listed = |c: char| {
        matches!(
            c as u32,
            0x09..=0x0D
                | 0x20
                | 0x85
                | 0xA0
                | 0x1680
                | 0x2000..=0x200A
                | 0x2028
                | 0x2029
                | 0x202F
                | 0x205F
                | 0x3000
        )
    };
    let mut count = 0;
    for code in 0..=0x10FFFF_u32 {
        if let Some(c) = char::from_u32(code) {
            let trimmed_away = trimmed(&vec![c]).is_empty();
            assert_eq!(trimmed_away, listed(c), "U+{code:04X}");
            if trimmed_away {
                count += 1;
            }
        }
    }
    assert_eq!(count, 25);
}

#[test]
fn configuration_errors_say_what_is_wrong() {
    assert_eq!(ConfigError::Parameter.to_string(), "Parameter value is not a template");
    assert_eq!(
        ConfigError::WorkingDirectory(TemplateSyntaxError::Pattern).to_string(),
        "Working directory is not a template"
    );
    let mut tasks = OrderedMap::new();
    tasks.insert(
        "job".to_string(),
        config::Task {
            working_directory: None,
            actions: vec![],
            on_success: vec![config::Action::Command(r#"echo "x"y"#.to_string())],
            on_failure: vec![],
            params: OrderedMap::new(),
        },
    );
    assert_eq!(
        load(&config::Root { tasks }).unwrap_err().to_string(),
        "literal group must be followed by whitespace"
    );
}
