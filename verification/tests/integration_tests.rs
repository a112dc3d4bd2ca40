use nlisp::env::Env;
use nlisp::evaluator::RuntimeError;
use nlisp::rep;

#[test]
fn test_parse_and_print_strings() {
    let input = "\"\\\"\""; // "\""
    let mut env = Env::default();
    let output = rep(input, &mut env).unwrap();
    assert_eq!("\"\\\"\"\n", output);
}

#[test]
fn test_recursive_functions() {
    let function_def_src =
        "(def! fib (fn* (N) (if (= N 0) 1 (if (= N 1) 1 (+ (fib (- N 1)) (fib (- N 2)))))))";
    let mut env = Env::default();
    assert_eq!("(fn ...)\n", rep(function_def_src, &mut env).unwrap());
    assert_eq!("1\n", rep("(fib 0)", &mut env).unwrap());
    assert_eq!("1\n", rep("(fib 1)", &mut env).unwrap());
    assert_eq!("2\n", rep("(fib 2)", &mut env).unwrap());
}

#[test]
fn test_recursion_end_to_end() {
    let function_def_src =
        "(def! fib (fn* (N) (if (= N 0) 1 (if (= N 1) 1 (+ (fib (- N 1)) (fib (- N 2)))))))";
    let mut env = Env::default();
    rep(function_def_src, &mut env).unwrap();
    assert_eq!("8\n", rep("(fib 5)", &mut env).unwrap());
}

#[test]
fn test_arithmetic_end_to_end() {
    let mut env = Env::default();
    assert_eq!("5\n", rep("(+ 2 3)", &mut env).unwrap());
    assert_eq!("-1\n", rep("(- 2 3)", &mut env).unwrap());
    assert_eq!("6\n", rep("(* 2 3)", &mut env).unwrap());
    assert_eq!("3\n", rep("(/ 7 2)", &mut env).unwrap());
    assert_eq!(
        Err(RuntimeError::DivisionByZero),
        rep("(/ 7 0)", &mut env)
    );
}

#[test]
fn test_arity_and_type_errors() {
    let mut env = Env::default();
    assert_eq!(
        Err(RuntimeError::FunctionApplicationWrongNumberOfArgs { given: 1, expected: 2 }),
        rep("(+ 1)", &mut env)
    );
    assert_eq!(
        Err(RuntimeError::IncorrectType(nlisp::evaluator::TypeError::Misc)),
        rep("(+ 1 \"a\")", &mut env)
    );
    assert_eq!(Err(RuntimeError::CannotApplyNonFunction), rep("(1 2 3)", &mut env));
}

#[test]
fn test_equality_coercion_end_to_end() {
    let mut env = Env::default();
    assert_eq!("true\n", rep("(= (list 1 2) [1 2])", &mut env).unwrap());
    assert_eq!("true\n", rep("(= [1 2] (list 1 2))", &mut env).unwrap());
    assert_eq!("false\n", rep("(= nil (list))", &mut env).unwrap());
    assert_eq!("true\n", rep("(= nil nil)", &mut env).unwrap());
}

#[test]
fn test_scoping() {
    let mut env = Env::default();
    assert_eq!("1\n", rep("(def! x 1)", &mut env).unwrap());
    assert_eq!("2\n", rep("(let* (x 2) x)", &mut env).unwrap());
    assert_eq!("1\n", rep("x", &mut env).unwrap());
}

#[test]
fn test_closures_capture_definition_site() {
    let mut env = Env::default();
    rep("(def! f (let* (x 1) (fn* () x)))", &mut env).unwrap();
    rep("(def! x 2)", &mut env).unwrap();
    assert_eq!("1\n", rep("(f)", &mut env).unwrap());
}

#[test]
fn test_def_inside_let_stays_local() {
    // `def!` binds in the frame it is evaluated in: a definition made
    // inside a `let*` lives in the let frame and is gone afterwards.
    let mut env = Env::default();
    rep("(let* (x 1) (def! f (fn* () x)))", &mut env).unwrap();
    assert_eq!(
        Err(RuntimeError::UnboundSymbol("f".to_string())),
        rep("(f)", &mut env)
    );
}

#[test]
fn test_variadic_binding() {
    let mut env = Env::default();
    assert_eq!("(2 3)\n", rep("((fn* (a & rest) rest) 1 2 3)", &mut env).unwrap());
    assert_eq!("()\n", rep("((fn* (a & rest) rest) 1)", &mut env).unwrap());
    assert_eq!("1\n", rep("((fn* (a & rest) a) 1 2 3)", &mut env).unwrap());
    assert_eq!(
        Err(RuntimeError::FunctionApplicationWrongNumberOfArgs { given: 0, expected: 1 }),
        rep("((fn* (a & rest) rest))", &mut env)
    );
}

#[test]
fn test_sequence_builtins_end_to_end() {
    let mut env = Env::default();
    assert_eq!("0\n", rep("(count nil)", &mut env).unwrap());
    assert_eq!("true\n", rep("(empty? nil)", &mut env).unwrap());
    assert_eq!("3\n", rep("(count (list 1 2 3))", &mut env).unwrap());
    assert_eq!("false\n", rep("(list? [1])", &mut env).unwrap());
    assert_eq!("true\n", rep("(list? (list 1))", &mut env).unwrap());
}

#[test]
fn test_not_closure() {
    let mut env = Env::default();
    assert_eq!("false\n", rep("(not true)", &mut env).unwrap());
    assert_eq!("true\n", rep("(not nil)", &mut env).unwrap());
    assert_eq!("false\n", rep("(not 0)", &mut env).unwrap());
}

#[test]
fn test_prn_buffers_output() {
    let mut env = Env::default();
    assert_eq!("nil\n", rep("(prn 1 \"a\")", &mut env).unwrap());
    assert_eq!("nil\n", rep("(println 1 \"a\")", &mut env).unwrap());
    let out = env.take_output();
    assert_eq!(vec!["1 \"a\"".to_string(), "1 a".to_string()], out);
    assert!(env.take_output().is_empty());
}

#[test]
fn test_atoms_end_to_end() {
    let mut env = Env::default();
    assert_eq!("(atom)\n", rep("(def! a (atom 1))", &mut env).unwrap());
    assert_eq!("1\n", rep("(deref a)", &mut env).unwrap());
}

#[test]
fn test_hashmap_literal_end_to_end() {
    let mut env = Env::default();
    assert_eq!("{:a 2}\n", rep("{:a (+ 1 1)}", &mut env).unwrap());
    // A later duplicate key replaces the earlier binding in place.
    assert_eq!("{1 3}\n", rep("{1 2 1 3}", &mut env).unwrap());
    assert!(matches!(
        rep("{(list) 1}", &mut env),
        Err(RuntimeError::HashError(_))
    ));
}

#[test]
fn test_str_and_pr_str_end_to_end() {
    let mut env = Env::default();
    assert_eq!("\"1a\"\n", rep("(str 1 \"a\")", &mut env).unwrap());
    assert_eq!("\"1 \\\"a\\\"\"\n", rep("(pr-str 1 \"a\")", &mut env).unwrap());
}

#[test]
fn test_malformed_parameter_list_end_to_end() {
    let mut env = Env::default();
    assert_eq!(Err(RuntimeError::Misc), rep("(fn* (&) 1)", &mut env));
    assert_eq!(Err(RuntimeError::Misc), rep("(fn* (& a b) 1)", &mut env));
    assert_eq!(
        Err(RuntimeError::ExpectedToBindSymbol),
        rep("(fn* (1) 1)", &mut env)
    );
}

#[test]
fn test_parse_error_surfaces() {
    let mut env = Env::default();
    assert_eq!(
        Err(RuntimeError::ParseError(nlisp::parser::ParseError::UnbalancedParens)),
        rep("(+ 1 2", &mut env)
    );
}

#[test]
fn test_eval_program_multiple_lines() {
    let mut env = Env::default();
    assert_eq!("1\n5\n", rep("(def! x 1) (+ x 4)", &mut env).unwrap());
}
