use nlisp::parser::{parse_text_to_expression, ParseError};
use nlisp::types::Expr;

#[test]
fn test_parse_empty_string() {
    assert_eq!(Err(ParseError::EmptyExpr), parse_text_to_expression(""));
}

#[test]
fn test_parse_symbol() {
    assert_eq!(Ok(Expr::Symbol("foo".to_string())), parse_text_to_expression("foo"));
    assert_eq!(Ok(Expr::Symbol("foo-bar".to_string())), parse_text_to_expression(" foo-bar   "));
    assert_eq!(Ok(Expr::Symbol("hi".to_string())), parse_text_to_expression("    hi"));
}

#[test]
fn test_parse_integer() {
    assert_eq!(Ok(Expr::Integer(63)), parse_text_to_expression("63"));
    assert_eq!(Ok(Expr::Integer(18)), parse_text_to_expression(" 18"));
    assert_eq!(Ok(Expr::Integer(100)), parse_text_to_expression(" 100    "));
    assert_eq!(Ok(Expr::Integer(3)), parse_text_to_expression("      3    "));
}

#[test]
fn test_parse_integer_invalid() {
    assert_eq!(
        Err(ParseError::IntegerContainsNonNumericChar('a')),
        parse_text_to_expression("1a")
    );
}

#[test]
fn test_parse_string() {
    assert_eq!(
        Ok(Expr::String("hello world".to_string())),
        parse_text_to_expression("\"hello world\"")
    );
    assert_eq!(
        Ok(Expr::String("hello\nworld".to_string())),
        parse_text_to_expression("\"hello\nworld\"")
    );
}

#[test]
fn test_parse_list() {
    let expected_expr = Expr::List(vec![
        Expr::Symbol("add".to_string()),
        Expr::Integer(32),
        Expr::Integer(4),
    ]);
    assert_eq!(Ok(expected_expr), parse_text_to_expression(" (add   32      4) "));
}

#[test]
fn test_parse_list_unbalance() {
    assert_eq!(Err(ParseError::UnbalancedParens), parse_text_to_expression("(+ 1 2"));
}

#[test]
fn test_parse_nested_list() {
    let expected_expr = Expr::List(vec![
        Expr::Symbol("+".to_string()),
        Expr::Integer(2),
        Expr::List(vec![
            Expr::Symbol("*".to_string()),
            Expr::Integer(3),
            Expr::Integer(4),
        ]),
    ]);
    assert_eq!(Ok(expected_expr), parse_text_to_expression("(  + 2   (*  3  4)  )  "))
}

#[test]
fn test_parse_vector() {
    let expected_expr = Expr::Vector(vec![
        Expr::Symbol("foo".to_string()),
        Expr::Integer(32),
        Expr::String("hi there".to_string()),
    ]);
    assert_eq!(Ok(expected_expr), parse_text_to_expression(" [ foo   32      \"hi there\" ] "));
}

#[test]
fn test_parse_hashmap() {
    assert_eq!(Ok(Expr::HashMap(vec![])), parse_text_to_expression("{}"));

    let expected_expr = Expr::HashMap(vec![
        (Expr::Keyword(":foo".to_string()), Expr::Integer(32)),
        (Expr::Keyword(":bar".to_string()), Expr::String("hi there".to_string())),
    ]);
    assert_eq!(
        Ok(expected_expr),
        parse_text_to_expression(" { :foo  32 :bar     \"hi there\" } ")
    );
}

#[test]
fn test_parse_hashmap_unbalanced() {
    assert_eq!(
        Err(ParseError::HashmapMissingValue(":bar".to_string())),
        parse_text_to_expression("{:bar} ")
    );
}

#[test]
fn test_parse_comment() {
    assert_eq!(Ok(Expr::Integer(8)), parse_text_to_expression(" 8;      \n"));

    let expected_expr = Expr::List(vec![
        Expr::Symbol("-".to_owned()),
        Expr::Integer(3),
        Expr::Integer(1),
    ]);
    assert_eq!(Ok(expected_expr), parse_text_to_expression("(- 3;\n1)"));
}

#[test]
fn test_parse_identifiers() {
    assert_eq!(Ok(Expr::Nil), parse_text_to_expression("nil"));
    assert_eq!(Ok(Expr::Boolean(true)), parse_text_to_expression("true"));
    assert_eq!(Ok(Expr::Boolean(true)), parse_text_to_expression("#t"));
    assert_eq!(Ok(Expr::Boolean(false)), parse_text_to_expression("false"));
    assert_eq!(Ok(Expr::Boolean(false)), parse_text_to_expression("#f"));
}

#[test]
fn test_parse_quote() {
    assert_eq!(
        Ok(Expr::Quote(Box::new(Expr::Symbol("a".to_string())))),
        parse_text_to_expression("'a")
    );
}

#[test]
fn test_parse_newlines() {
    assert_eq!(Ok(Expr::Integer(1)), parse_text_to_expression("\n1\n\n"));
}

#[test]
fn test_parse_string_escapes() {
    assert_eq!(
        Ok(Expr::String("a\"b".to_string())),
        parse_text_to_expression("\"a\\\"b\"")
    );
    assert_eq!(
        Ok(Expr::String("a\nb".to_string())),
        parse_text_to_expression("\"a\\nb\"")
    );
    assert_eq!(
        Ok(Expr::String("a\\b".to_string())),
        parse_text_to_expression("\"a\\\\b\"")
    );
    assert_eq!(
        Err(ParseError::StringInvalidBackslash),
        parse_text_to_expression("\"a\\xb\"")
    );
}

#[test]
fn test_parse_integer_too_large() {
    assert_eq!(
        Err(ParseError::IntegerParseError),
        parse_text_to_expression("99999999999999999999")
    );
    assert_eq!(
        Ok(Expr::Integer(9223372036854775807)),
        parse_text_to_expression("9223372036854775807")
    );
    assert_eq!(
        Err(ParseError::IntegerParseError),
        parse_text_to_expression("9223372036854775808")
    );
}

#[test]
fn test_parse_invalid_string_start() {
    let chars: Vec<char> = vec!['a'];
    let (r, _) = nlisp::parser::parse_string(&chars, 0);
    assert_eq!(Err(ParseError::InvalidString), r);
}

#[test]
fn test_consume_between_missing_delimiter() {
    let chars: Vec<char> = vec!['x'];
    let (r, _) = nlisp::parser::consume_chars_between(&chars, 0, '(', ')');
    assert!(matches!(r, Err(ParseError::InvalidExpr(_))));
}

#[test]
fn test_parse_multiple_expressions() {
    let exprs = nlisp::parser::parse_text_to_expressions("1 2 (+ 1 2)").unwrap();
    assert_eq!(3, exprs.len());
    assert_eq!(Expr::Integer(1), exprs[0]);
    assert_eq!(Expr::Integer(2), exprs[1]);
}
