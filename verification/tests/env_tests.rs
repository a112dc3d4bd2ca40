use nlisp::env::Env;
use nlisp::evaluator::RuntimeError;
use nlisp::types::Value;

#[test]
fn test_lookup_symbol() {
    let map = vec![("foo".to_string(), Value::Integer(4))];

    let env = Env::with_map(map);
    assert_eq!(Some(Value::Integer(4)), env.lookup(0, "foo"));
    assert_eq!(None, env.lookup(0, "bar"));
}

#[test]
fn test_lookup_symbol_err() {
    let map = vec![("foo".to_string(), Value::Integer(4))];

    let env = Env::with_map(map);
    assert_eq!(Ok(Value::Integer(4)), env.lookup_err(0, "foo"));
    assert_eq!(
        Err(RuntimeError::UnboundSymbol("bar".to_string())),
        env.lookup_err(0, "bar")
    );
}

#[test]
fn test_with_symbol() {
    let mut env = Env::default();
    assert_eq!(None, env.lookup(0, "foo"));
    let child = env.with_symbol(0, "foo".to_string(), Value::String("hello".to_string()));
    assert_eq!(Some(Value::String("hello".to_string())), env.lookup(child, "foo"));
    assert_eq!(None, env.lookup(0, "foo"));
}

#[test]
fn test_insert_symbol() {
    let mut env = Env::default();
    assert_eq!(None, env.lookup(0, "foo"));
    env.insert(0, "foo".to_string(), Value::String("hello".to_string()));
    assert_eq!(Some(Value::String("hello".to_string())), env.lookup(0, "foo"));
}

#[test]
fn test_with_values() {
    let mut env = Env::with_map(Vec::new());
    env.insert(0, "foo".to_string(), Value::Symbol("hello".to_string()));
    env.insert(0, "bar".to_string(), Value::Integer(0));
    assert_eq!(Some(Value::Symbol("hello".to_string())), env.lookup(0, "foo"));
    assert_eq!(Some(Value::Integer(0)), env.lookup(0, "bar"));
}

#[test]
fn test_shadowing_never_escapes() {
    let mut env = Env::with_map(vec![("x".to_string(), Value::Integer(1))]);
    let child = env.create_child_env(0);
    env.insert(child, "x".to_string(), Value::Integer(2));
    assert_eq!(Some(Value::Integer(2)), env.lookup(child, "x"));
    assert_eq!(Some(Value::Integer(1)), env.lookup(0, "x"));
}

#[test]
fn test_rebinding_overwrites() {
    let mut env = Env::with_map(Vec::new());
    env.insert(0, "x".to_string(), Value::Integer(1));
    env.insert(0, "x".to_string(), Value::Integer(2));
    assert_eq!(Some(Value::Integer(2)), env.lookup(0, "x"));
}

#[test]
fn test_lookup_through_parent_chain() {
    let mut env = Env::with_map(vec![("x".to_string(), Value::Integer(7))]);
    let c1 = env.create_child_env(0);
    let c2 = env.create_child_env(c1);
    assert_eq!(Some(Value::Integer(7)), env.lookup(c2, "x"));
}
