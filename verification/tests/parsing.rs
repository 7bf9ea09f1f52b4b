//! Tests of the template parser.

use edo::error::EdoError;
use edo::parse::{parse, Expression};

fn literal(text: &str) -> Expression {
    Expression::Literal(text.to_string())
}

fn call(name: &str, arguments: Vec<&str>) -> Expression {
    Expression::Function {
        name: name.to_string(),
        arguments: arguments.into_iter().map(|a| a.to_string()).collect(),
    }
}

#[test]
fn parse_literal() {
    assert_eq!(parse("testing"), Ok(vec![literal("testing")]));
}

#[test]
fn parse_function() {
    assert_eq!(parse("{test}"), Ok(vec![call("test", vec![])]));
    assert_eq!(parse("{test()}"), Ok(vec![call("test", vec![])]));
    assert_eq!(
        parse("{test(1, 2, 3)}"),
        Ok(vec![call("test", vec!["1", "2", "3"])])
    );
}

#[test]
fn parse_arguments() {
    assert_eq!(parse("{f()}"), Ok(vec![call("f", vec![])]));
    assert_eq!(parse("{f(test)}"), Ok(vec![call("f", vec!["test"])]));
    assert_eq!(
        parse("{f(test,test2)}"),
        Ok(vec![call("f", vec!["test", "test2"])])
    );
    assert_eq!(
        parse("{f(test, test2)}"),
        Ok(vec![call("f", vec!["test", "test2"])])
    );
}

#[test]
fn parse_multiple_expressions() {
    assert_eq!(
        parse("{test}literal{test2}haha"),
        Ok(vec![
            call("test", vec![]),
            literal("literal"),
            call("test2", vec![]),
            literal("haha"),
        ])
    );

    assert_eq!(
        parse("haha{test}"),
        Ok(vec![literal("haha"), call("test", vec![])])
    );
}

#[test]
fn parse_method() {
    assert_eq!(
        parse("haha{test(a, b, c)}"),
        Ok(vec![literal("haha"), call("test", vec!["a", "b", "c"])])
    );
}

#[test]
fn parse_empty_input() {
    assert_eq!(parse(""), Ok(vec![]));
}

#[test]
fn parse_empty_name() {
    assert_eq!(parse("{}"), Ok(vec![call("", vec![])]));
}

#[test]
fn parse_closing_brace_is_literal() {
    assert_eq!(parse("hello}there"), Ok(vec![literal("hello}there")]));
}

#[test]
fn parse_adjacent_placeholders() {
    assert_eq!(
        parse("{a}{b}"),
        Ok(vec![call("a", vec![]), call("b", vec![])])
    );
}

#[test]
fn parse_unterminated_placeholder_fails() {
    assert_eq!(parse("{unterminated"), Err(EdoError::ParsingError));
}

#[test]
fn parse_unterminated_arguments_fails() {
    assert_eq!(parse("{f(a"), Err(EdoError::ParsingError));
    assert_eq!(parse("{f(a)"), Err(EdoError::ParsingError));
}

#[test]
fn parse_bad_argument_token_fails() {
    assert_eq!(parse("{f(a!)}"), Err(EdoError::ParsingError));
    assert_eq!(parse("{f(a b)}"), Err(EdoError::ParsingError));
    assert_eq!(parse("{f(a ,b)}"), Err(EdoError::ParsingError));
}

#[test]
fn parse_trailing_comma_fails() {
    assert_eq!(parse("{f(a,)}"), Err(EdoError::ParsingError));
    assert_eq!(parse("{f(a, )}"), Err(EdoError::ParsingError));
}

#[test]
fn parse_empty_argument_list_not_spaces() {
    assert_eq!(parse("{f( )}"), Err(EdoError::ParsingError));
}
