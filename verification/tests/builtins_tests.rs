use nlisp::builtins::arithmetic;
use nlisp::builtins::atoms;
use nlisp::builtins::comparison;
use nlisp::builtins::list;
use nlisp::builtins::sequencing;
use nlisp::builtins::special_forms;
use nlisp::builtins::string;
use nlisp::env::Env;
use nlisp::evaluator::{RuntimeError, TypeError};
use nlisp::types::{Expr, FunctionBody, Value};
use nlisp::DEFAULT_FUEL;

#[test]
fn builtins_test_good() {
    let mut env = Env::default();
    let values = vec![Value::Integer(1), Value::Integer(2)];
    assert_eq!(Ok(Value::Integer(3)), arithmetic::add(&mut env, values));
}

#[test]
fn builtins_test_wrong_num_args() {
    let mut env = Env::default();
    let values = vec![Value::Integer(1)];
    assert_eq!(
        Err(RuntimeError::FunctionApplicationWrongNumberOfArgs { expected: 2, given: 1 }),
        arithmetic::add(&mut env, values)
    );
}

#[test]
fn builtins_test_wrong_types() {
    let mut env = Env::default();
    let values = vec![Value::Integer(1), Value::Symbol("foo".to_string())];
    assert_eq!(
        Err(RuntimeError::IncorrectType(TypeError::Misc)),
        arithmetic::add(&mut env, values)
    );
}

#[test]
fn builtins_def_test_good() {
    let mut env = Env::default();
    let exprs = vec![Expr::Symbol("foo".to_string()), Expr::Integer(4)];
    assert_eq!(Ok(Value::Integer(4)), special_forms::def(&mut env, 0, exprs, DEFAULT_FUEL));
    assert_eq!(Some(Value::Integer(4)), env.lookup(0, "foo"));
}

#[test]
fn builtins_def_test_wrong_num_args() {
    let mut env = Env::default();
    let exprs = vec![Expr::Symbol("foo".to_string())];
    assert_eq!(
        Err(RuntimeError::FunctionApplicationWrongNumberOfArgs { expected: 2, given: 1 }),
        special_forms::def(&mut env, 0, exprs, DEFAULT_FUEL)
    );
}

#[test]
fn builtins_test_identifier_not_symbol() {
    let mut env = Env::default();
    let exprs = vec![Expr::Integer(3), Expr::Integer(4)];
    assert_eq!(
        Err(RuntimeError::ExpectedToBindSymbol),
        special_forms::def(&mut env, 0, exprs, DEFAULT_FUEL)
    );
}

#[test]
fn arithmetic_test_good() {
    let mut env = Env::default();
    let values = vec![Value::Integer(1), Value::Integer(2)];
    assert_eq!(Ok(Value::Integer(3)), arithmetic::add(&mut env, values));
}

#[test]
fn arithmetic_test_wrong_num_args() {
    let mut env = Env::default();
    let values = vec![Value::Integer(1)];
    assert_eq!(
        Err(RuntimeError::FunctionApplicationWrongNumberOfArgs { expected: 2, given: 1 }),
        arithmetic::add(&mut env, values)
    );
}

#[test]
fn arithmetic_test_wrong_types() {
    let mut env = Env::default();
    let values = vec![Value::Integer(1), Value::Symbol("foo".to_string())];
    assert_eq!(
        Err(RuntimeError::IncorrectType(TypeError::Misc)),
        arithmetic::add(&mut env, values)
    );
}

#[test]
fn arithmetic_sub_mul_div() {
    let mut env = Env::default();
    assert_eq!(
        Ok(Value::Integer(4)),
        arithmetic::sub(&mut env, vec![Value::Integer(7), Value::Integer(3)])
    );
    assert_eq!(
        Ok(Value::Integer(21)),
        arithmetic::mul(&mut env, vec![Value::Integer(7), Value::Integer(3)])
    );
    assert_eq!(
        Ok(Value::Integer(2)),
        arithmetic::div(&mut env, vec![Value::Integer(7), Value::Integer(3)])
    );
    assert_eq!(
        Err(RuntimeError::DivisionByZero),
        arithmetic::div(&mut env, vec![Value::Integer(7), Value::Integer(0)])
    );
}

#[test]
fn test_equal() {
    let mut env = Env::default();
    let args = vec![Value::Integer(3), Value::Integer(3)];
    assert_eq!(Ok(Value::Boolean(true)), comparison::eq(&mut env, args));
}

#[test]
fn test_not_equal() {
    let mut env = Env::default();
    let args = vec![
        Value::String("abc".to_string()),
        Value::String("foo".to_string()),
    ];
    assert_eq!(Ok(Value::Boolean(false)), comparison::eq(&mut env, args));
}

#[test]
fn test_seq_coercion() {
    let mut env = Env::default();
    let args = vec![
        Value::List(vec![Value::Integer(1), Value::Symbol("foo".to_string())]),
        Value::Vector(vec![Value::Integer(1), Value::Symbol("foo".to_string())]),
    ];
    assert_eq!(Ok(Value::Boolean(true)), comparison::eq(&mut env, args));
}

#[test]
fn test_different_types() {
    let mut env = Env::default();
    let args = vec![Value::String("abc".to_string()), Value::Integer(4)];
    assert_eq!(Ok(Value::Boolean(false)), comparison::eq(&mut env, args));
}

#[test]
fn comparison_orderings() {
    let mut env = Env::default();
    assert_eq!(
        Ok(Value::Boolean(true)),
        comparison::lt(&mut env, vec![Value::Integer(1), Value::Integer(2)])
    );
    assert_eq!(
        Ok(Value::Boolean(true)),
        comparison::lte(&mut env, vec![Value::Integer(2), Value::Integer(2)])
    );
    assert_eq!(
        Ok(Value::Boolean(false)),
        comparison::gt(&mut env, vec![Value::Integer(1), Value::Integer(2)])
    );
    assert_eq!(
        Ok(Value::Boolean(true)),
        comparison::gte(&mut env, vec![Value::Integer(2), Value::Integer(2)])
    );
    assert_eq!(
        Err(RuntimeError::IncorrectType(TypeError::Misc)),
        comparison::lt(&mut env, vec![Value::Nil, Value::Integer(2)])
    );
}

#[test]
fn special_forms_test_good() {
    let mut env = Env::default();
    let exprs = vec![Expr::Symbol("foo".to_string()), Expr::Integer(4)];
    assert_eq!(Ok(Value::Integer(4)), special_forms::def(&mut env, 0, exprs, DEFAULT_FUEL));
    assert_eq!(Some(Value::Integer(4)), env.lookup(0, "foo"));
}

#[test]
fn special_forms_test_wrong_num_args() {
    let mut env = Env::default();
    let exprs = vec![Expr::Symbol("foo".to_string())];
    assert_eq!(
        Err(RuntimeError::FunctionApplicationWrongNumberOfArgs { expected: 2, given: 1 }),
        special_forms::def(&mut env, 0, exprs, DEFAULT_FUEL)
    );
}

#[test]
fn special_forms_test_identifier_not_symbol() {
    let mut env = Env::default();
    let exprs = vec![Expr::Integer(3), Expr::Integer(4)];
    assert_eq!(
        Err(RuntimeError::ExpectedToBindSymbol),
        special_forms::def(&mut env, 0, exprs, DEFAULT_FUEL)
    );
}

#[test]
fn special_forms_let_test_good() {
    let mut env = Env::default();
    let exprs = vec![
        Expr::List(vec![
            Expr::Symbol("a".to_string()),
            Expr::Integer(3),
            Expr::Symbol("b".to_string()),
            Expr::List(vec![
                Expr::Symbol("+".to_string()),
                Expr::Symbol("a".to_string()),
                Expr::Integer(1),
            ]),
        ]),
        Expr::List(vec![
            Expr::Symbol("*".to_string()),
            Expr::Symbol("a".to_string()),
            Expr::Symbol("b".to_string()),
        ]),
    ];
    assert_eq!(Ok(Value::Integer(12)), special_forms::let_f(&mut env, 0, exprs, DEFAULT_FUEL));
}

#[test]
fn special_forms_let_test_wrong_num_args() {
    let mut env = Env::default();
    let exprs = vec![Expr::List(vec![])];
    assert_eq!(
        Err(RuntimeError::FunctionApplicationWrongNumberOfArgs { given: 1, expected: 2 }),
        special_forms::let_f(&mut env, 0, exprs, DEFAULT_FUEL)
    );
}

#[test]
fn test_unmatched_pair() {
    let mut env = Env::default();
    let exprs = vec![
        Expr::List(vec![Expr::Symbol("a".to_string())]),
        Expr::Integer(3),
    ];
    assert_eq!(
        Err(RuntimeError::UnmatchedLetBindingID),
        special_forms::let_f(&mut env, 0, exprs, DEFAULT_FUEL)
    );
}

#[test]
fn test_binding_id_not_symbol() {
    let mut env = Env::default();
    let exprs = vec![
        Expr::List(vec![
            Expr::Integer(5),
            Expr::String("hello world".to_string()),
        ]),
        Expr::Integer(3),
    ];
    assert_eq!(
        Err(RuntimeError::ExpectedToBindSymbol),
        special_forms::let_f(&mut env, 0, exprs, DEFAULT_FUEL)
    );
}

#[test]
fn special_forms_fn_test_good() {
    let mut env = Env::default();
    let exprs = vec![
        Expr::List(vec![
            Expr::Symbol("x".to_string()),
            Expr::Symbol("y".to_string()),
        ]),
        Expr::List(vec![
            Expr::Symbol("+".to_string()),
            Expr::Symbol("x".to_string()),
            Expr::Symbol("y".to_string()),
        ]),
    ];
    let expected_value = Value::Function(FunctionBody::Closure {
        closed_env: 0,
        params: vec!["x".to_string(), "y".to_string()],
        variadic_param: None,
        body: Expr::List(vec![
            Expr::Symbol("+".to_string()),
            Expr::Symbol("x".to_string()),
            Expr::Symbol("y".to_string()),
        ]),
    });

    assert_eq!(Ok(expected_value), special_forms::fn_f(&mut env, 0, exprs, DEFAULT_FUEL));
}

#[test]
fn special_forms_fn_test_wrong_num_args() {
    let mut env = Env::default();
    let exprs = vec![Expr::List(vec![
        Expr::Symbol("x".to_string()),
        Expr::Symbol("y".to_string()),
    ])];

    assert_eq!(
        Err(RuntimeError::FunctionApplicationWrongNumberOfArgs { expected: 2, given: 1 }),
        special_forms::fn_f(&mut env, 0, exprs, DEFAULT_FUEL)
    );
}

#[test]
fn test_params_not_list() {
    let mut env = Env::default();
    let exprs = vec![Expr::String("foo".to_string()), Expr::Integer(2)];

    assert_eq!(
        Err(RuntimeError::ExpectedToBindSymbol),
        special_forms::fn_f(&mut env, 0, exprs, DEFAULT_FUEL)
    );
}

#[test]
fn test_param_not_symbol() {
    let mut env = Env::default();
    let exprs = vec![
        Expr::List(vec![Expr::Symbol("x".to_string()), Expr::Integer(3)]),
        Expr::Integer(2),
    ];

    assert_eq!(
        Err(RuntimeError::ExpectedToBindSymbol),
        special_forms::fn_f(&mut env, 0, exprs, DEFAULT_FUEL)
    );
}

#[test]
fn test_variadic_parameters() {
    let mut env = Env::default();
    let exprs = vec![
        Expr::List(vec![
            Expr::Symbol("x".to_string()),
            Expr::Symbol("&".to_string()),
            Expr::Symbol("rest".to_string()),
        ]),
        Expr::Symbol("rest".to_string()),
    ];
    let expected_value = Value::Function(FunctionBody::Closure {
        closed_env: 0,
        params: vec!["x".to_string()],
        variadic_param: Some("rest".to_string()),
        body: Expr::Symbol("rest".to_string()),
    });

    assert_eq!(Ok(expected_value), special_forms::fn_f(&mut env, 0, exprs, DEFAULT_FUEL));
}

#[test]
fn test_malformed_variadic_parameters() {
    let mut env = Env::default();
    let trailing_amp = vec![
        Expr::List(vec![Expr::Symbol("&".to_string())]),
        Expr::Integer(1),
    ];
    assert_eq!(
        Err(RuntimeError::Misc),
        special_forms::fn_f(&mut env, 0, trailing_amp, DEFAULT_FUEL)
    );

    let two_names = vec![
        Expr::List(vec![
            Expr::Symbol("&".to_string()),
            Expr::Symbol("a".to_string()),
            Expr::Symbol("b".to_string()),
        ]),
        Expr::Integer(1),
    ];
    assert_eq!(
        Err(RuntimeError::Misc),
        special_forms::fn_f(&mut env, 0, two_names, DEFAULT_FUEL)
    );
}

#[test]
fn test_pr_str() {
    let args = vec![
        Value::String("foo".to_string()),
        Value::String("bar".to_string()),
    ];
    assert_eq!(
        Ok(Value::String("\"foo\" \"bar\"".to_string())),
        string::pr_str(&mut Env::default(), args)
    );
}

#[test]
fn test_str_builtin_concatenates_raw() {
    let args = vec![
        Value::String("foo".to_string()),
        Value::Integer(1),
        Value::Keyword(":k".to_string()),
    ];
    assert_eq!(
        Ok(Value::String("foo1:k".to_string())),
        string::str(&mut Env::default(), args)
    );
}

#[test]
fn test_list_builtins() {
    let mut env = Env::default();
    assert_eq!(
        Ok(Value::List(vec![Value::Integer(1), Value::Integer(2)])),
        list::list_f(&mut env, vec![Value::Integer(1), Value::Integer(2)])
    );
    assert_eq!(
        Ok(Value::Boolean(true)),
        list::list_p(&mut env, vec![Value::List(vec![])])
    );
    assert_eq!(
        Ok(Value::Boolean(false)),
        list::list_p(&mut env, vec![Value::Vector(vec![])])
    );
    assert_eq!(Ok(Value::Boolean(true)), list::empty_p(&mut env, vec![Value::Nil]));
    assert_eq!(Ok(Value::Integer(0)), list::count(&mut env, vec![Value::Nil]));
    assert_eq!(
        Ok(Value::Integer(2)),
        list::count(&mut env, vec![Value::Vector(vec![Value::Nil, Value::Nil])])
    );
    assert_eq!(
        Err(RuntimeError::IncorrectType(TypeError::NotASeq)),
        list::count(&mut env, vec![Value::Integer(1)])
    );
}

#[test]
fn test_if_and_do_forms() {
    let mut env = Env::default();
    let args = vec![Expr::Boolean(false), Expr::Integer(1), Expr::Integer(2)];
    assert_eq!(Ok(Value::Integer(2)), sequencing::if_f(&mut env, 0, args, DEFAULT_FUEL));

    let no_else = vec![Expr::Boolean(false), Expr::Integer(1)];
    assert_eq!(Ok(Value::Nil), sequencing::if_f(&mut env, 0, no_else, DEFAULT_FUEL));

    let zero_is_truthy = vec![Expr::Integer(0), Expr::Integer(1), Expr::Integer(2)];
    assert_eq!(Ok(Value::Integer(1)), sequencing::if_f(&mut env, 0, zero_is_truthy, DEFAULT_FUEL));

    let do_args = vec![
        Expr::List(vec![
            Expr::Symbol("def!".to_string()),
            Expr::Symbol("side".to_string()),
            Expr::Integer(5),
        ]),
        Expr::Symbol("side".to_string()),
    ];
    assert_eq!(Ok(Value::Integer(5)), sequencing::do_f(&mut env, 0, do_args, DEFAULT_FUEL));

    assert_eq!(
        Err(RuntimeError::FunctionApplicationWrongNumberOfArgs { given: 0, expected: 1 }),
        sequencing::do_f(&mut env, 0, vec![], DEFAULT_FUEL)
    );
}

#[test]
fn test_atom_builtins() {
    let mut env = Env::default();
    let cell = atoms::atom(&mut env, vec![Value::Integer(9)]).unwrap();
    assert!(matches!(cell, Value::Atom(_)));
    assert_eq!(Ok(Value::Integer(9)), atoms::deref(&mut env, vec![cell]));
    assert_eq!(
        Err(RuntimeError::IncorrectType(TypeError::Misc)),
        atoms::deref(&mut env, vec![Value::Integer(9)])
    );
}
