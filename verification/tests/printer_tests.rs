use nlisp::printer::Printable;
use nlisp::types::{Expr, HashableValue, Value};

#[test]
fn test_display_integer() {
    assert_eq!("12", Value::Integer(12).print_value(true));
    assert_eq!("5", Value::Integer(5).print_value(true));
}

#[test]
fn test_display_symbol() {
    assert_eq!("+", Value::Symbol("+".to_string()).print_value(true));
    assert_eq!("foo-bar", Value::Symbol("foo-bar".to_string()).print_value(true));
}

#[test]
fn test_display_keyword() {
    assert_eq!(":foo", Value::Keyword(":foo".to_string()).print_value(true));
    assert_eq!(":foo-bar", Value::Keyword(":foo-bar".to_string()).print_value(true));
}

#[test]
fn test_display_string() {
    assert_eq!("\"hello world\"", Value::String("hello world".to_string()).print_value(true));
    assert_eq!("\"foo\\nbar\"", Value::String("foo\nbar".to_string()).print_value(true));
}

#[test]
fn test_print_string_raw() {
    assert_eq!("hello\nworld", Value::String("hello\nworld".to_string()).print_value(false));
}

#[test]
fn test_display_identifiers() {
    assert_eq!("nil", Value::Nil.print_value(true));
    assert_eq!("true", Value::Boolean(true).print_value(true));
    assert_eq!("false", Value::Boolean(false).print_value(true));
}

#[test]
fn test_display_list() {
    assert_eq!("(1)", Value::List(vec![Value::Integer(1)]).print_value(true));

    assert_eq!(
        "(+ 1 2)",
        Value::List(vec![
            Value::Symbol("+".to_string()),
            Value::Integer(1),
            Value::Integer(2),
        ])
        .print_value(true)
    );
}

#[test]
fn test_display_nested_list() {
    assert_eq!(
        "(+ (* 12 8) 2)",
        Value::List(vec![
            Value::Symbol("+".to_string()),
            Value::List(vec![
                Value::Symbol("*".to_string()),
                Value::Integer(12),
                Value::Integer(8),
            ]),
            Value::Integer(2),
        ])
        .print_value(true)
    );
}

#[test]
fn test_display_vector() {
    assert_eq!("[1]", Value::Vector(vec![Value::Integer(1)]).print_value(true));

    assert_eq!(
        "[foo 1 2]",
        Value::Vector(vec![
            Value::Symbol("foo".to_string()),
            Value::Integer(1),
            Value::Integer(2),
        ])
        .print_value(true)
    );
}

#[test]
fn test_display_hashmap() {
    assert_eq!(
        "{\"foo\" 1}",
        Value::HashMap(vec![(HashableValue::String("foo".to_string()), Value::Integer(1))])
            .print_value(true)
    );
}

#[test]
fn test_display_negative_integer() {
    assert_eq!("-42", Value::Integer(-42).print_value(true));
    assert_eq!("0", Value::Integer(0).print_value(true));
    assert_eq!(
        "-9223372036854775808",
        Value::Integer(i64::MIN).print_value(true)
    );
    assert_eq!(
        "9223372036854775807",
        Value::Integer(i64::MAX).print_value(true)
    );
}

#[test]
fn test_display_function() {
    let val = Value::Function(nlisp::types::FunctionBody::BuiltinValues(
        nlisp::types::ValueBuiltin::Add,
    ));
    assert_eq!("(fn ...)", val.print_value(true));
}

#[test]
fn test_expr_to_text() {
    assert_eq!("12", Expr::Integer(12).to_text());
    assert_eq!("\"hi\"", Expr::String("hi".to_string()).to_text());
    assert_eq!(
        "(quote a)",
        Expr::Quote(Box::new(Expr::Symbol("a".to_string()))).to_text()
    );
    assert_eq!(
        "(+ 1 [2 3])",
        Expr::List(vec![
            Expr::Symbol("+".to_string()),
            Expr::Integer(1),
            Expr::Vector(vec![Expr::Integer(2), Expr::Integer(3)]),
        ])
        .to_text()
    );
}

#[test]
fn test_write_delimiter_separated_elems() {
    let parts = vec!["a".to_string(), "b".to_string(), "c".to_string()];
    assert_eq!("a, b, c", nlisp::printer::write_delimiter_separated_elems(&parts, ", "));
    let one = vec!["a".to_string()];
    assert_eq!("a", nlisp::printer::write_delimiter_separated_elems(&one, ", "));
    let none: Vec<String> = vec![];
    assert_eq!("", nlisp::printer::write_delimiter_separated_elems(&none, ", "));
}

#[test]
fn test_write_delimiter_separated_printables() {
    let vals = vec![
        Value::String("foo".to_string()),
        Value::Integer(1),
    ];
    assert_eq!(
        "\"foo\" 1",
        nlisp::printer::write_delimiter_separated_printables(&vals, " ", true)
    );
    assert_eq!(
        "foo 1",
        nlisp::printer::write_delimiter_separated_printables(&vals, " ", false)
    );
}
