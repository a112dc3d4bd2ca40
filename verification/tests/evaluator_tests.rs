use nlisp::env::Env;
use nlisp::evaluator::{evaluate_expr, RuntimeError};
use nlisp::types::{Expr, Value};
use nlisp::DEFAULT_FUEL;

#[test]
fn test_evaluate_integer() {
    let mut env = Env::default();
    assert_eq!(Ok(Value::Integer(3)), evaluate_expr(&Expr::Integer(3), &mut env, 0, DEFAULT_FUEL));
}

#[test]
fn test_evaluate_string() {
    let mut env = Env::default();
    assert_eq!(
        Ok(Value::String("hello".to_string())),
        evaluate_expr(&Expr::String("hello".to_string()), &mut env, 0, DEFAULT_FUEL)
    );
}

#[test]
fn test_evaluate_boolean() {
    let mut env = Env::default();
    assert_eq!(
        Ok(Value::Boolean(true)),
        evaluate_expr(&Expr::Boolean(true), &mut env, 0, DEFAULT_FUEL)
    );
    assert_eq!(
        Ok(Value::Boolean(false)),
        evaluate_expr(&Expr::Boolean(false), &mut env, 0, DEFAULT_FUEL)
    );
}

#[test]
fn test_evaluate_symbol() {
    let mut env = Env::default();
    assert_eq!(
        Err(RuntimeError::UnboundSymbol("foo".to_string())),
        evaluate_expr(&Expr::Symbol("foo".to_string()), &mut env, 0, DEFAULT_FUEL)
    );
    env.insert(0, "foo".to_string(), Value::Integer(3));
    assert_eq!(
        Ok(Value::Integer(3)),
        evaluate_expr(&Expr::Symbol("foo".to_string()), &mut env, 0, DEFAULT_FUEL)
    );
}

#[test]
fn test_apply_builtin_function() {
    let mut env = Env::default();
    let my_expr = Expr::List(vec![
        Expr::Symbol("+".to_string()),
        Expr::Integer(1),
        Expr::Integer(2),
    ]);
    assert_eq!(Ok(Value::Integer(3)), evaluate_expr(&my_expr, &mut env, 0, DEFAULT_FUEL));
}

#[test]
fn test_apply_closure() {
    let mut env = Env::default();
    let my_expr = Expr::List(vec![
        Expr::List(vec![
            Expr::Symbol("fn*".to_string()),
            Expr::List(vec![
                Expr::Symbol("x".to_string()),
                Expr::Symbol("y".to_string()),
            ]),
            Expr::List(vec![
                Expr::Symbol("+".to_string()),
                Expr::Symbol("x".to_string()),
                Expr::Symbol("y".to_string()),
            ]),
        ]),
        Expr::Integer(4),
        Expr::Integer(8),
    ]);

    assert_eq!(Ok(Value::Integer(12)), evaluate_expr(&my_expr, &mut env, 0, DEFAULT_FUEL));
}

#[test]
fn test_evaluate_empty_list() {
    let mut env = Env::default();
    assert_eq!(
        Ok(Value::List(vec![])),
        evaluate_expr(&Expr::List(vec![]), &mut env, 0, DEFAULT_FUEL)
    );
}

#[test]
fn test_evaluate_vector_elements() {
    let mut env = Env::default();
    let e = Expr::Vector(vec![
        Expr::List(vec![
            Expr::Symbol("+".to_string()),
            Expr::Integer(1),
            Expr::Integer(2),
        ]),
        Expr::Integer(9),
    ]);
    assert_eq!(
        Ok(Value::Vector(vec![Value::Integer(3), Value::Integer(9)])),
        evaluate_expr(&e, &mut env, 0, DEFAULT_FUEL)
    );
}

#[test]
fn test_evaluate_non_function_head() {
    let mut env = Env::default();
    let e = Expr::List(vec![Expr::Integer(1), Expr::Integer(2), Expr::Integer(3)]);
    assert_eq!(
        Err(RuntimeError::CannotApplyNonFunction),
        evaluate_expr(&e, &mut env, 0, DEFAULT_FUEL)
    );
}

#[test]
fn test_evaluate_quote_unsupported() {
    let mut env = Env::default();
    let e = Expr::Quote(Box::new(Expr::Integer(1)));
    assert_eq!(Err(RuntimeError::Misc), evaluate_expr(&e, &mut env, 0, DEFAULT_FUEL));
}

#[test]
fn test_evaluate_out_of_fuel() {
    let mut env = Env::default();
    assert_eq!(
        Err(RuntimeError::RecursionDepthExceeded),
        evaluate_expr(&Expr::Integer(3), &mut env, 0, 0)
    );
}

#[test]
fn test_evaluate_hashmap_literal() {
    let mut env = Env::default();
    let e = Expr::HashMap(vec![(
        Expr::Keyword(":a".to_string()),
        Expr::List(vec![
            Expr::Symbol("+".to_string()),
            Expr::Integer(1),
            Expr::Integer(1),
        ]),
    )]);
    assert_eq!(
        Ok(Value::HashMap(vec![(
            nlisp::types::HashableValue::Keyword(":a".to_string()),
            Value::Integer(2)
        )])),
        evaluate_expr(&e, &mut env, 0, DEFAULT_FUEL)
    );
}

#[test]
fn test_evaluate_unhashable_key() {
    let mut env = Env::default();
    let e = Expr::HashMap(vec![(Expr::List(vec![]), Expr::Integer(1))]);
    assert_eq!(
        Err(RuntimeError::HashError(Value::List(vec![]))),
        evaluate_expr(&e, &mut env, 0, DEFAULT_FUEL)
    );
}
