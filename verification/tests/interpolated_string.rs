//! Templates with `{{ name }}` placeholders.

use taskerie::model::{InterpolatedString, InterpolatedVariable, ParamContext};

#[test]
fn test_empty_string() {
    let input = "";
    let expected = InterpolatedString { value: String::new(), parts: vec![] };
    assert_eq!(expected, InterpolatedString::from_str(input).unwrap());
}

#[test]
fn test_single_variable() {
    let input = "{{name}}";
    let expected = InterpolatedString {
        value: String::new(),
        parts: vec![InterpolatedVariable { name: "name".to_string(), start: 0 }],
    };
    assert_eq!(expected, InterpolatedString::from_str(input).unwrap());
}

#[test]
fn test_multiple_variables() {
    let input = "{{name}} is {{age}} years old";
    let expected = InterpolatedString {
        value: " is  years old".to_string(),
        parts: vec![
            InterpolatedVariable { name: "name".to_string(), start: 0 },
            InterpolatedVariable { name: "age".to_string(), start: 4 },
        ],
    };
    assert_eq!(expected, InterpolatedString::from_str(input).unwrap());
}

#[test]
fn test_multiple_variables_with_inner_spaces() {
    let input = "{{ name }} is {{ age  }} years old";
    let expected = InterpolatedString {
        value: " is  years old".to_string(),
        parts: vec![
            InterpolatedVariable { name: "name".to_string(), start: 0 },
            InterpolatedVariable { name: "age".to_string(), start: 4 },
        ],
    };
    assert_eq!(expected, InterpolatedString::from_str(input).unwrap());
}

#[test]
fn test_no_variables() {
    let input = "Hello, world!";
    let expected = InterpolatedString { value: "Hello, world!".to_string(), parts: vec![] };
    assert_eq!(expected, InterpolatedString::from_str(input).unwrap());
}

#[test]
fn test_single_variable_with_whitespace() {
    let input = " {{name}} ";
    let expected = InterpolatedString {
        value: "  ".to_string(),
        parts: vec![InterpolatedVariable { name: "name".to_string(), start: 1 }],
    };
    assert_eq!(expected, InterpolatedString::from_str(input).unwrap());
}

#[test]
fn test_render_empty_string() {
    let interpolated = InterpolatedString { value: String::new(), parts: vec![] };
    let context = ParamContext::default();
    assert_eq!(interpolated.render(&context).unwrap(), "");
}

#[test]
fn test_render_no_variables() {
    let interpolated =
        InterpolatedString { value: "Hello, world!".to_string(), parts: vec![] };
    let context = ParamContext::default();
    assert_eq!(interpolated.render(&context).unwrap(), "Hello, world!");
}

#[test]
fn test_render_single_variable() {
    let interpolated = InterpolatedString {
        value: "Hello, !".to_string(),
        parts: vec![InterpolatedVariable { name: "name".to_string(), start: 7 }],
    };
    let mut context = ParamContext::default();
    context.set("name", "world");
    assert_eq!(interpolated.render(&context).unwrap(), "Hello, world!");
}

#[test]
fn test_render_multiple_variables() {
    let interpolated = InterpolatedString {
        value: " is  years old".to_string(),
        parts: vec![
            InterpolatedVariable { name: "name".to_string(), start: 0 },
            InterpolatedVariable { name: "age".to_string(), start: 4 },
        ],
    };
    let mut context = ParamContext::default();
    context.set("name", "John");
    context.set("age", "30");
    assert_eq!(interpolated.render(&context).unwrap(), "John is 30 years old");
}

#[test]
fn test_render_missing_variable() {
    let interpolated = InterpolatedString {
        value: "Hello, !".to_string(),
        parts: vec![InterpolatedVariable { name: "name".to_string(), start: 7 }],
    };
    let context = ParamContext::default();
    assert!(interpolated.render(&context).is_err());
}
