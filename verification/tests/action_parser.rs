//! Action lines, read by the state machine.

use taskerie::model::action::{Argument, ArgumentComponent, Target};
use taskerie::service::action_parser::Action;

fn assert_valid_action(
    input: &str,
    expected_action_name: &str,
    expected_arguments: Vec<Argument>,
    expected_target: Target,
) {
    let action = Action::from_str(input).expect("Expected valid action");
    assert_eq!(expected_action_name, action.name);
    assert_eq!(expected_arguments, action.arguments);
    assert_eq!(expected_target, action.target);
}

fn assert_invalid_action<S: AsRef<str>>(input: &str, err: S) {
    let action = Action::from_str(input);
    let error_str = action.expect_err("Expected invalid action").to_string();
    assert_eq!(err.as_ref(), &error_str);
}

#[test]
fn test_external_program_no_args() {
    assert_valid_action("echo", "echo", vec![], Target::External);
}

#[test]
fn test_external_program_simple_args() {
    assert_valid_action(
        "echo hello world",
        "echo",
        vec![
            Argument {
                components: vec![ArgumentComponent::Literal("hello".into())],
            },
            Argument {
                components: vec![ArgumentComponent::Literal("world".into())],
            },
        ],
        Target::External,
    );
}

#[test]
fn test_external_program_grouped_arg() {
    assert_valid_action(
        r#"echo "hello world""#,
        "echo",
        vec![Argument {
            components: vec![ArgumentComponent::Literal("hello world".into())],
        }],
        Target::External,
    );
}

#[test]
fn test_external_program_simple_grouped_args() {
    assert_valid_action(
        r#"echo "hello world" ! good "hello again" yoohoo"#,
        "echo",
        vec![
            Argument {
                components: vec![ArgumentComponent::Literal("hello world".into())],
            },
            Argument {
                components: vec![ArgumentComponent::Literal("!".into())],
            },
            Argument {
                components: vec![ArgumentComponent::Literal("good".into())],
            },
            Argument {
                components: vec![ArgumentComponent::Literal("hello again".into())],
            },
            Argument {
                components: vec![ArgumentComponent::Literal("yoohoo".into())],
            },
        ],
        Target::External,
    );
}

#[test]
fn test_external_program_interpolated_arg() {
    assert_valid_action(
        "echo ${arg1}",
        "echo",
        vec![Argument {
            components: vec![ArgumentComponent::Interpolated("arg1".into())],
        }],
        Target::External,
    );
}

#[test]
fn test_external_program_interpolated_args() {
    assert_valid_action(
        "echo ${arg1} ${arg2}",
        "echo",
        vec![
            Argument {
                components: vec![ArgumentComponent::Interpolated("arg1".into())],
            },
            Argument {
                components: vec![ArgumentComponent::Interpolated("arg2".into())],
            },
        ],
        Target::External,
    );
}

#[test]
fn test_external_program_mixed_args() {
    assert_valid_action(
        r#"echo-test ${arg1} hello "are you there" ${arg2} mmh "boo" ${arg3}"#,
        "echo-test",
        vec![
            Argument {
                components: vec![ArgumentComponent::Interpolated("arg1".into())],
            },
            Argument {
                components: vec![ArgumentComponent::Literal("hello".into())],
            },
            Argument {
                components: vec![ArgumentComponent::Literal("are you there".into())],
            },
            Argument {
                components: vec![ArgumentComponent::Interpolated("arg2".into())],
            },
            Argument {
                components: vec![ArgumentComponent::Literal("mmh".into())],
            },
            Argument {
                components: vec![ArgumentComponent::Literal("boo".into())],
            },
            Argument {
                components: vec![ArgumentComponent::Interpolated("arg3".into())],
            },
        ],
        Target::External,
    );
}

#[test]
fn test_task_no_args() {
    assert_valid_action("_my_task", "my_task", vec![], Target::Task);
}

#[test]
fn test_task_simple_args() {
    assert_valid_action(
        "_my_task hello world",
        "my_task",
        vec![
            Argument {
                components: vec![ArgumentComponent::Literal("hello".into())],
            },
            Argument {
                components: vec![ArgumentComponent::Literal("world".into())],
            },
        ],
        Target::Task,
    );
}

#[test]
fn test_task_grouped_arg() {
    assert_valid_action(
        r#"_my_task "hello world""#,
        "my_task",
        vec![Argument {
            components: vec![ArgumentComponent::Literal("hello world".into())],
        }],
        Target::Task,
    );
}

#[test]
fn test_task_simple_grouped_args() {
    assert_valid_action(
        r#"_my_task "hello world" ! good "hello again" yoohoo"#,
        "my_task",
        vec![
            Argument {
                components: vec![ArgumentComponent::Literal("hello world".into())],
            },
            Argument {
                components: vec![ArgumentComponent::Literal("!".into())],
            },
            Argument {
                components: vec![ArgumentComponent::Literal("good".into())],
            },
            Argument {
                components: vec![ArgumentComponent::Literal("hello again".into())],
            },
            Argument {
                components: vec![ArgumentComponent::Literal("yoohoo".into())],
            },
        ],
        Target::Task,
    );
}

#[test]
fn test_task_interpolated_arg() {
    assert_valid_action(
        "_my_task ${arg1}",
        "my_task",
        vec![Argument {
            components: vec![ArgumentComponent::Interpolated("arg1".into())],
        }],
        Target::Task,
    );
}

#[test]
fn test_task_interpolated_args() {
    assert_valid_action(
        "_my_task ${arg1} ${arg2}",
        "my_task",
        vec![
            Argument {
                components: vec![ArgumentComponent::Interpolated("arg1".into())],
            },
            Argument {
                components: vec![ArgumentComponent::Interpolated("arg2".into())],
            },
        ],
        Target::Task,
    );
}

#[test]
fn test_task_mixed_args() {
    assert_valid_action(
        r#"_$ezgrmy_task-with-a$complx^name ${arg1} hello "are you there" ${arg2} mmh "boo" ${arg3}"#,
        "$ezgrmy_task-with-a$complx^name",
        vec![
            Argument {
                components: vec![ArgumentComponent::Interpolated("arg1".into())],
            },
            Argument {
                components: vec![ArgumentComponent::Literal("hello".into())],
            },
            Argument {
                components: vec![ArgumentComponent::Literal("are you there".into())],
            },
            Argument {
                components: vec![ArgumentComponent::Interpolated("arg2".into())],
            },
            Argument {
                components: vec![ArgumentComponent::Literal("mmh".into())],
            },
            Argument {
                components: vec![ArgumentComponent::Literal("boo".into())],
            },
            Argument {
                components: vec![ArgumentComponent::Interpolated("arg3".into())],
            },
        ],
        Target::Task,
    );
}

#[test]
fn test_single_argument_with_multiple_components() {
    assert_valid_action(
        "my_action ${arg1}test${arg2}",
        "my_action",
        vec![Argument {
            components: vec![
                ArgumentComponent::Interpolated("arg1".into()),
                ArgumentComponent::Literal("test".into()),
                ArgumentComponent::Interpolated("arg2".into()),
            ],
        }],
        Target::External,
    );
}

#[test]
fn test_multiple_arguments_with_multiple_components() {
    assert_valid_action(
        r#"my_action ${arg1}test${arg2} "hello world" ${arg3}literal${arg4}"#,
        "my_action",
        vec![
            Argument {
                components: vec![
                    ArgumentComponent::Interpolated("arg1".into()),
                    ArgumentComponent::Literal("test".into()),
                    ArgumentComponent::Interpolated("arg2".into()),
                ],
            },
            Argument {
                components: vec![ArgumentComponent::Literal("hello world".into())],
            },
            Argument {
                components: vec![
                    ArgumentComponent::Interpolated("arg3".into()),
                    ArgumentComponent::Literal("literal".into()),
                    ArgumentComponent::Interpolated("arg4".into()),
                ],
            },
        ],
        Target::External,
    );
}

#[test]
fn test_edge_case_empty_literal() {
    assert_valid_action(
        r#"my_action "" ${arg1} """#,
        "my_action",
        vec![
            Argument {
                components: vec![ArgumentComponent::Literal("".into())],
            },
            Argument {
                components: vec![ArgumentComponent::Interpolated("arg1".into())],
            },
            Argument {
                components: vec![ArgumentComponent::Literal("".into())],
            },
        ],
        Target::External,
    );
}

#[test]
fn test_complex_mixed_arguments() {
    assert_valid_action(
        r#"my_action ${arg1}test${arg2} "hello world" ${arg3}literal${arg4} "another literal" ${arg5}"#,
        "my_action",
        vec![
            Argument {
                components: vec![
                    ArgumentComponent::Interpolated("arg1".into()),
                    ArgumentComponent::Literal("test".into()),
                    ArgumentComponent::Interpolated("arg2".into()),
                ],
            },
            Argument {
                components: vec![ArgumentComponent::Literal("hello world".into())],
            },
            Argument {
                components: vec![
                    ArgumentComponent::Interpolated("arg3".into()),
                    ArgumentComponent::Literal("literal".into()),
                    ArgumentComponent::Interpolated("arg4".into()),
                ],
            },
            Argument {
                components: vec![ArgumentComponent::Literal("another literal".into())],
            },
            Argument {
                components: vec![ArgumentComponent::Interpolated("arg5".into())],
            },
        ],
        Target::External,
    );
}

#[test]
fn test_task_with_multiple_components() {
    assert_valid_action(
        r#"_my_task ${arg1}test${arg2} "hello world" ${arg3}literal${arg4}"#,
        "my_task",
        vec![
            Argument {
                components: vec![
                    ArgumentComponent::Interpolated("arg1".into()),
                    ArgumentComponent::Literal("test".into()),
                    ArgumentComponent::Interpolated("arg2".into()),
                ],
            },
            Argument {
                components: vec![ArgumentComponent::Literal("hello world".into())],
            },
            Argument {
                components: vec![
                    ArgumentComponent::Interpolated("arg3".into()),
                    ArgumentComponent::Literal("literal".into()),
                    ArgumentComponent::Interpolated("arg4".into()),
                ],
            },
        ],
        Target::Task,
    );
}

#[test]
fn test_grouped_argument_with_interpolation() {
    assert_valid_action(
        r#"my_action "hello ${arg1} world""#,
        "my_action",
        vec![Argument {
            components: vec![
                ArgumentComponent::Literal("hello ".into()),
                ArgumentComponent::Interpolated("arg1".into()),
                ArgumentComponent::Literal(" world".into()),
            ],
        }],
        Target::External,
    );
}

#[test]
fn test_task_with_complex_mixed_arguments() {
    assert_valid_action(
        r#"_my_task ${arg1}test${arg2} "hello world" ${arg3}literal${arg4} "another literal" ${arg5}"#,
        "my_task",
        vec![
            Argument {
                components: vec![
                    ArgumentComponent::Interpolated("arg1".into()),
                    ArgumentComponent::Literal("test".into()),
                    ArgumentComponent::Interpolated("arg2".into()),
                ],
            },
            Argument {
                components: vec![ArgumentComponent::Literal("hello world".into())],
            },
            Argument {
                components: vec![
                    ArgumentComponent::Interpolated("arg3".into()),
                    ArgumentComponent::Literal("literal".into()),
                    ArgumentComponent::Interpolated("arg4".into()),
                ],
            },
            Argument {
                components: vec![ArgumentComponent::Literal("another literal".into())],
            },
            Argument {
                components: vec![ArgumentComponent::Interpolated("arg5".into())],
            },
        ],
        Target::Task,
    );
}

#[test]
fn test_task_with_grouped_argument_and_interpolation() {
    assert_valid_action(
        r#"_my_task "hello ${arg1} world""#,
        "my_task",
        vec![Argument {
            components: vec![
                ArgumentComponent::Literal("hello ".into()),
                ArgumentComponent::Interpolated("arg1".into()),
                ArgumentComponent::Literal(" world".into()),
            ],
        }],
        Target::Task,
    );
}

#[test]
fn test_unclosed_quotation_marks_are_rejected() {
    assert_invalid_action(
        r#"_my_task ""#,
        "Error at 11: argument group must be closed",
    );
}

#[test]
fn test_dollar_sign_must_be_followed_by_curly_brace() {
    assert_invalid_action(
        r#"my_action "hello!@#$%^&*() world""#,
        "$ must be followed by {",
    );
}

#[test]
fn test_dollar_sign_in_task_must_be_followed_by_curly_brace() {
    assert_invalid_action(
        r#"_my_task "hello!@#$%^&*() world""#,
        "$ must be followed by {",
    );
}

#[test]
fn test_empty_interpolation_variable_is_rejected() {
    assert_valid_action(
        "_my_task ${}test${}",
        "my_task",
        vec![Argument {
            components: vec![
                ArgumentComponent::Interpolated("".into()),
                ArgumentComponent::Literal("test".into()),
                ArgumentComponent::Interpolated("".into()),
            ],
        }],
        Target::Task,
    );
}

#[test]
fn test_empty_interpolation_is_rejected() {
    assert_valid_action(
        "my_action ${}test${}",
        "my_action",
        vec![Argument {
            components: vec![
                ArgumentComponent::Interpolated("".into()),
                ArgumentComponent::Literal("test".into()),
                ArgumentComponent::Interpolated("".into()),
            ],
        }],
        Target::External,
    );
}
