use tax_shell::decimal::Decimal;
use tax_shell::registry::{ParamKind, Parameter};
use tax_shell::validate::{check_args, parse_arg, validate, ArgumentError, ArityError, ParseError, Value};

fn strings(words: &[&str]) -> Vec<String> {
    words.iter().map(|w| w.to_string()).collect()
}

fn number(name: &str) -> Parameter {
    Parameter { name: name.to_string(), kind: ParamKind::Number }
}

fn text(name: &str) -> Parameter {
    Parameter { name: name.to_string(), kind: ParamKind::Text }
}

fn number_in(value: Value) -> String {
    match value {
        Value::Number(n) => n.to_text(),
        Value::Text(t) => panic!("a text: {}", t),
    }
}

fn text_in(value: Value) -> String {
    match value {
        Value::Text(t) => t,
        Value::Number(n) => panic!("a number: {}", n.to_text()),
    }
}

#[test]
fn the_right_number_of_arguments_passes() {
    assert_eq!(check_args(&vec![], &vec![]), Ok(()));
    assert_eq!(check_args(&vec![number("percentage")], &strings(&["5"])), Ok(()));
    assert_eq!(check_args(&vec![number("a"), text("b")], &strings(&["x", "y"])), Ok(()));
}

#[test]
fn missing_arguments_are_named() {
    assert_eq!(
        check_args(&vec![number("percentage")], &vec![]),
        Err(ArityError::Missing(strings(&["percentage"])))
    );
    assert_eq!(
        check_args(&vec![number("a"), text("b"), text("c")], &strings(&["1"])),
        Err(ArityError::Missing(strings(&["b", "c"])))
    );
}

#[test]
fn extra_arguments_are_listed() {
    assert_eq!(check_args(&vec![], &strings(&["now"])), Err(ArityError::Extra(strings(&["now"]))));
    assert_eq!(
        check_args(&vec![number("percentage")], &strings(&["1", "2", "3"])),
        Err(ArityError::Extra(strings(&["2", "3"])))
    );
}

#[test]
fn arity_errors_are_reported_in_words() {
    assert_eq!(
        ArityError::Missing(strings(&["percentage"])).message(),
        "Invalid arguments, missing: percentage."
    );
    assert_eq!(ArityError::Missing(strings(&["b", "c"])).message(), "Invalid arguments, missing: b, c.");
    assert_eq!(ArityError::Extra(strings(&["2", "3"])).message(), "Invalid arguments, unexpected: 2, 3.");
}

#[test]
fn a_number_is_parsed_to_its_canonical_form() {
    let value = parse_arg(&"018.50".to_string(), &number("percentage")).ok().unwrap();
    assert_eq!(number_in(value), "18.5");
}

#[test]
fn a_text_is_taken_as_it_is() {
    let value = parse_arg(&"018.50".to_string(), &text("label")).ok().unwrap();
    assert_eq!(text_in(value), "018.50");
}

#[test]
fn what_is_no_number_gives_a_parse_error() {
    let error = parse_arg(&"abc".to_string(), &number("percentage")).err().unwrap();
    assert_eq!(
        error,
        ParseError {
            argument: "abc".to_string(),
            parameter: "percentage".to_string(),
            expected: ParamKind::Number,
        }
    );
    assert_eq!(error.message(), "Invalid percentage 'abc': expected a number.");
}

#[test]
fn a_parse_error_says_what_was_expected() {
    let error = ParseError {
        argument: "x".to_string(),
        parameter: "label".to_string(),
        expected: ParamKind::Text,
    };
    assert_eq!(error.message(), "Invalid label 'x': expected a text.");
}

#[test]
fn validation_checks_the_count_before_the_values() {
    let outcome = validate(&vec![number("percentage")], &strings(&["abc", "def"]));
    assert_eq!(outcome.err().unwrap(), ArgumentError::Arity(ArityError::Extra(strings(&["def"]))));
    let outcome = validate(&vec![number("percentage")], &vec![]);
    assert_eq!(
        outcome.err().unwrap(),
        ArgumentError::Arity(ArityError::Missing(strings(&["percentage"])))
    );
}

#[test]
fn validation_reports_the_first_argument_that_fails() {
    let outcome = validate(&vec![number("a"), number("b"), number("c")], &strings(&["1", "x", "y"]));
    assert_eq!(
        outcome.err().unwrap(),
        ArgumentError::Parse(ParseError {
            argument: "x".to_string(),
            parameter: "b".to_string(),
            expected: ParamKind::Number,
        })
    );
}

#[test]
fn validation_converts_every_argument() {
    let values = validate(&vec![number("a"), text("b")], &strings(&["+7.0", "seven"])).ok().unwrap();
    assert_eq!(values.len(), 2);
    let mut values = values.into_iter();
    assert_eq!(number_in(values.next().unwrap()), "7");
    assert_eq!(text_in(values.next().unwrap()), "seven");
    assert!(validate(&vec![], &vec![]).ok().unwrap().is_empty());
    assert_eq!(Decimal::parse("7").unwrap().to_text(), "7");
}
