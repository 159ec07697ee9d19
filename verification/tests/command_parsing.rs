//! Commands in the brace syntax.

use taskerie::model::action::{Argument, ArgumentComponent, Command};

fn parts(arguments: &[Argument]) -> Vec<Vec<ArgumentComponent>> {
    arguments.iter().map(|argument| argument.components.clone()).collect()
}

#[test]
fn test_command_parsing() {
    let command = Command::from_str("command").unwrap();
    assert_eq!(command.name, "command");
    assert!(command.arguments.is_empty());
}

#[test]
fn test_command_parsing_with_arguments() {
    let command = Command::from_str("command arg1 arg2").unwrap();
    assert_eq!(command.name, "command");
    assert_eq!(
        vec![
            vec![ArgumentComponent::Literal("arg1".to_owned())],
            vec![ArgumentComponent::Literal("arg2".to_owned())],
        ],
        parts(&command.arguments)
    );
}

#[test]
fn test_command_parsing_with_nested_arguments() {
    let command = Command::from_str(r#"command arg1 "arg2 arg3""#).unwrap();
    assert_eq!(command.name, "command");
    assert_eq!(
        vec![
            vec![ArgumentComponent::Literal("arg1".to_owned())],
            vec![ArgumentComponent::Literal("arg2 arg3".to_owned()),],
        ],
        parts(&command.arguments)
    );
}

#[test]
fn test_command_parsing_with_multiple_nested_arguments() {
    let command = Command::from_str(r#"command arg1 "arg2 arg3" "arg4 arg5""#).unwrap();
    assert_eq!(command.name, "command");
    assert_eq!(
        vec![
            vec![ArgumentComponent::Literal("arg1".to_owned())],
            vec![ArgumentComponent::Literal("arg2 arg3".to_owned()),],
            vec![ArgumentComponent::Literal("arg4 arg5".to_owned()),],
        ],
        parts(&command.arguments)
    );
}

#[test]
fn test_command_parsing_with_multiple_nested_arguments_with_spaces() {
    let command =
        Command::from_str(r#"command arg1 "arg2 arg3" "arg4 arg5" arg6"#).unwrap();
    assert_eq!(command.name, "command");
    assert_eq!(
        vec![
            vec![ArgumentComponent::Literal("arg1".to_owned())],
            vec![ArgumentComponent::Literal("arg2 arg3".to_owned()),],
            vec![ArgumentComponent::Literal("arg4 arg5".to_owned()),],
            vec![ArgumentComponent::Literal("arg6".to_owned()),],
        ],
        parts(&command.arguments)
    );
}

#[test]
fn test_command_parsing_with_interpolation() {
    let command = Command::from_str(r#"command {{var1}}"#).unwrap();
    assert_eq!(command.name, "command");
    assert_eq!(
        vec![vec![ArgumentComponent::Interpolated("var1".to_owned())],],
        parts(&command.arguments)
    );
}

#[test]
fn test_command_parsing_with_multiple_interpolations() {
    let command = Command::from_str(r#"command {{ var1 }} {{ var2 }}"#).unwrap();
    assert_eq!(command.name, "command");
    assert_eq!(
        vec![
            vec![ArgumentComponent::Interpolated("var1".to_owned())],
            vec![ArgumentComponent::Interpolated("var2".to_owned())],
        ],
        parts(&command.arguments)
    );
}

#[test]
fn test_command_parsing_with_interpolations_and_literals() {
    let command = Command::from_str(r#"command {{ var1 }} arg2 {{ var3 }}"#).unwrap();
    assert_eq!(command.name, "command");
    assert_eq!(
        vec![
            vec![ArgumentComponent::Interpolated("var1".to_owned())],
            vec![ArgumentComponent::Literal("arg2".to_owned())],
            vec![ArgumentComponent::Interpolated("var3".to_owned())],
        ],
        parts(&command.arguments)
    );
}

#[test]
fn test_command_parsing_with_interpolations_and_literals_mixed() {
    let command = Command::from_str(r#"command {{ var1 }}arg1 "arg2 " "{{ var3 }}" "{{var4}}arg4""#).unwrap();
    assert_eq!(command.name, "command");
    assert_eq!(
        vec![
            vec![
                ArgumentComponent::Interpolated("var1".to_owned()),
                ArgumentComponent::Literal("arg1".to_owned())
            ],
            vec![ArgumentComponent::Literal("arg2 ".to_owned()),],
            vec![ArgumentComponent::Interpolated("var3".to_owned()),],
            vec![
                ArgumentComponent::Interpolated("var4".to_owned()),
                ArgumentComponent::Literal("arg4".to_owned())
            ],
        ],
        parts(&command.arguments)
    );
}

#[test]
fn test_command_parsing_with_interpolations_and_literals_and_spaces_and_trailing_spaces() {
    let command =
        Command::from_str(r#"command {{ var1 }} arg2 {{ var3 }} arg4  "#).unwrap();
    assert_eq!(command.name, "command");
    assert_eq!(
        vec![
            vec![ArgumentComponent::Interpolated("var1".to_owned())],
            vec![ArgumentComponent::Literal("arg2".to_owned())],
            vec![ArgumentComponent::Interpolated("var3".to_owned())],
            vec![ArgumentComponent::Literal("arg4".to_owned())],
        ],
        parts(&command.arguments)
    );
}

#[test]
fn test_command_parsing_with_interpolations_and_literals_and_spaces_and_trailing_spaces_and_leading_spaces() {
    let command =
        Command::from_str(r#"  command {{ var1 }} arg2 {{ var3 }} arg4  "#).unwrap();
    assert_eq!(command.name, "command");
    assert_eq!(
        vec![
            vec![ArgumentComponent::Interpolated("var1".to_owned())],
            vec![ArgumentComponent::Literal("arg2".to_owned())],
            vec![ArgumentComponent::Interpolated("var3".to_owned())],
            vec![ArgumentComponent::Literal("arg4".to_owned())],
        ],
        parts(&command.arguments)
    );
}
