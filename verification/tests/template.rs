//! Tests of template construction, registration and rendering.

use edo::error::EdoError;
use edo::render::Handler;
use edo::Edo;

/// A handler that is never expected to run.
struct NoOp;

impl<'a> Handler<&'a str> for NoOp {
    fn invoke(&self, _arguments: &Vec<String>, _context: &&'a str) -> Result<String, String> {
        Ok(String::new())
    }
}

/// A handler that always produces `"World!"`.
struct World;

impl<'a> Handler<&'a str> for World {
    fn invoke(&self, _arguments: &Vec<String>, _context: &&'a str) -> Result<String, String> {
        Ok("World!".to_string())
    }
}

/// A handler that echoes its first argument, with an exclamation mark when
/// the second argument is `yes`.
struct Exclaim;

impl<'a> Handler<&'a str> for Exclaim {
    fn invoke(&self, args: &Vec<String>, _context: &&'a str) -> Result<String, String> {
        Ok(format!(
            "{}{}",
            args[0],
            if args[1] == "yes" { "!" } else { "" }
        ))
    }
}

/// A handler that echoes the render-time context.
struct Echo;

impl<'a> Handler<&'a str> for Echo {
    fn invoke(&self, _arguments: &Vec<String>, context: &&'a str) -> Result<String, String> {
        Ok(context.to_string())
    }
}

/// A handler that always fails.
struct Bork;

impl<'a> Handler<&'a str> for Bork {
    fn invoke(&self, _arguments: &Vec<String>, _context: &&'a str) -> Result<String, String> {
        Err("BORK".to_string())
    }
}

/// A handler that greets its first argument.
struct SayHello;

impl<'a> Handler<&'a str> for SayHello {
    fn invoke(&self, args: &Vec<String>, _context: &&'a str) -> Result<String, String> {
        Ok(format!("Hello {}", args[0]))
    }
}

/// One handler type serving two names: one branch fails, the other succeeds.
enum Branch {
    Fail,
    Greet,
}

impl<'a> Handler<&'a str> for Branch {
    fn invoke(&self, _arguments: &Vec<String>, _context: &&'a str) -> Result<String, String> {
        match self {
            Branch::Fail => Err("BORK".to_string()),
            Branch::Greet => Ok("fine".to_string()),
        }
    }
}

#[test]
fn create_new_edo() {
    let edo: Result<Edo<&str, NoOp>, _> = Edo::new("Hello {name}");
    assert!(edo.is_ok());
}

#[test]
fn register_handler() {
    let mut edo: Edo<&str, World> = match Edo::new("Hello {name}") {
        Ok(edo) => edo,
        Err(err) => panic!("{:?}", err),
    };
    edo.register_handler("name", World);
    assert!(edo.lookup("name").is_some());
}

#[test]
fn register_static() {
    let mut edo: Edo<&str, NoOp> = match Edo::new("Hello {name}") {
        Ok(edo) => edo,
        Err(err) => panic!("{:?}", err),
    };
    edo.register_static("name", "World!");
    assert!(edo.lookup("name").is_some());
}

#[test]
fn render_template() {
    let mut edo: Edo<&str, World> = match Edo::new("Hello {name}") {
        Ok(edo) => edo,
        Err(err) => panic!("{:?}", err),
    };
    edo.register_handler("name", World);
    assert_eq!(edo.render(""), "Hello World!");
}

#[test]
fn render_template_with_missing_handler() {
    let edo: Edo<&str, NoOp> = match Edo::new("Hello {name}") {
        Ok(edo) => edo,
        Err(err) => panic!("{:?}", err),
    };
    assert_eq!(edo.render(""), "Hello ");
}

#[test]
fn render_template_with_arguments() {
    let mut edo: Edo<&str, Exclaim> = match Edo::new("Hello {name(Gio, yes)}") {
        Ok(edo) => edo,
        Err(err) => panic!("{:?}", err),
    };
    edo.register_handler("name", Exclaim);
    assert_eq!(edo.render(""), "Hello Gio!");
}

#[test]
fn render_template_with_context() {
    let mut edo: Edo<&str, Echo> = match Edo::new("Hello {name}") {
        Ok(edo) => edo,
        Err(err) => panic!("{:?}", err),
    };
    edo.register_handler("name", Echo);
    assert_eq!(edo.render("Context!!!"), "Hello Context!!!");
}

#[test]
fn render_with_errors() {
    let mut edo: Edo<&str, Bork> = match Edo::new("Hello {name}") {
        Ok(edo) => edo,
        Err(err) => panic!("{:?}", err),
    };
    edo.register_handler("name", Bork);
    let (output, errors) = edo.render_with_errors("");
    assert_eq!(output, "Hello ");
    assert_eq!(errors, vec!["BORK"]);
}

#[test]
fn render_static_value() {
    let mut edo: Edo<&str, NoOp> = Edo::new("Hello {name}").unwrap();
    edo.register_static("name", "World!");
    let (output, errors) = edo.render_with_errors("");
    assert_eq!(output, "Hello World!");
    assert!(errors.is_empty());
}

#[test]
fn render_handler_with_argument() {
    let mut edo: Edo<&str, SayHello> = Edo::new("{say_hello(World)}").unwrap();
    edo.register_handler("say_hello", SayHello);
    let (output, errors) = edo.render_with_errors("");
    assert_eq!(output, "Hello World");
    assert!(errors.is_empty());
}

#[test]
fn missing_producer_reports_no_error() {
    let edo: Edo<&str, NoOp> = Edo::new("Hello {name}").unwrap();
    let (output, errors) = edo.render_with_errors("");
    assert_eq!(output, "Hello ");
    assert!(errors.is_empty());
}

#[test]
fn handler_error_keeps_rendering() {
    let mut edo: Edo<&str, Branch> = Edo::new("start {bad} mid {good} end").unwrap();
    edo.register_handler("bad", Branch::Fail);
    edo.register_handler("good", Branch::Greet);
    let (output, errors) = edo.render_with_errors("");
    assert_eq!(output, "start  mid fine end");
    assert_eq!(errors, vec!["BORK"]);
}

#[test]
fn override_keeps_later_static() {
    let mut edo: Edo<&str, NoOp> = Edo::new("Hello {name}").unwrap();
    edo.register_static("name", "first");
    edo.register_static("name", "second");
    assert_eq!(edo.render(""), "Hello second");
}

#[test]
fn override_handler_over_static() {
    let mut edo: Edo<&str, World> = Edo::new("Hello {name}").unwrap();
    edo.register_static("name", "static value");
    edo.register_handler("name", World);
    assert_eq!(edo.render(""), "Hello World!");
}

#[test]
fn static_render_ignores_context() {
    let mut edo: Edo<&str, NoOp> = Edo::new("Hello {name}, {greeting}").unwrap();
    edo.register_static("name", "you");
    edo.register_static("greeting", "welcome");
    let first = edo.render("one context");
    let second = edo.render("another context");
    assert_eq!(first, "Hello you, welcome");
    assert_eq!(first, second);
}

#[test]
fn unterminated_placeholder_fails_construction() {
    let edo: Result<Edo<&str, NoOp>, EdoError> = Edo::new("{unterminated");
    assert!(matches!(edo, Err(EdoError::ParsingError)));
}

#[test]
fn empty_template_renders_empty() {
    let edo: Edo<&str, NoOp> = Edo::new("").unwrap();
    let (output, errors) = edo.render_with_errors("");
    assert_eq!(output, "");
    assert!(errors.is_empty());
}

#[test]
fn parse_error_description() {
    assert_eq!(EdoError::ParsingError.description(), "Parsing error");
}
