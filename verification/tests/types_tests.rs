use nlisp::types::{HashableValue, HashValueError, Value};

#[test]
fn test_nil_equality() {
    assert_eq!(Value::Nil, Value::Nil);
    assert_ne!(Value::Nil, Value::List(vec![]));
    assert_ne!(Value::Vector(vec![]), Value::Nil);
}

#[test]
fn test_to_seq() {
    assert_eq!(Ok(vec![]), Value::Nil.to_seq());

    let list_elems = vec![Value::Integer(1), Value::String("foo".to_string())];
    assert_eq!(Ok(list_elems.clone()), Value::List(list_elems.clone()).to_seq());
    assert_eq!(Ok(list_elems.clone()), Value::Vector(list_elems.clone()).to_seq());
}

#[test]
fn test_to_seq_refuses_scalars() {
    assert_eq!(
        Err(nlisp::evaluator::RuntimeError::IncorrectType(
            nlisp::evaluator::TypeError::NotASeq
        )),
        Value::Integer(3).to_seq()
    );
}

#[test]
fn test_sequence_coercion_equality() {
    let l = Value::List(vec![Value::Integer(1), Value::Integer(2)]);
    let v = Value::Vector(vec![Value::Integer(1), Value::Integer(2)]);
    assert_eq!(l, v);
    assert_eq!(v, l);

    let nested_l = Value::List(vec![Value::Vector(vec![Value::Integer(1)])]);
    let nested_v = Value::Vector(vec![Value::List(vec![Value::Integer(1)])]);
    assert_eq!(nested_l, nested_v);

    let shorter = Value::List(vec![Value::Integer(1)]);
    assert_ne!(l, shorter);
}

#[test]
fn test_hashmap_equality_ignores_order() {
    let a = Value::HashMap(vec![
        (HashableValue::Integer(1), Value::Integer(10)),
        (HashableValue::Keyword(":k".to_string()), Value::Integer(20)),
    ]);
    let b = Value::HashMap(vec![
        (HashableValue::Keyword(":k".to_string()), Value::Integer(20)),
        (HashableValue::Integer(1), Value::Integer(10)),
    ]);
    assert_eq!(a, b);

    let c = Value::HashMap(vec![(HashableValue::Integer(1), Value::Integer(10))]);
    assert_ne!(a, c);
}

#[test]
fn test_try_into_hashable() {
    assert!(matches!(
        Value::Integer(3).try_into_hashable(),
        Ok(HashableValue::Integer(3))
    ));
    assert!(matches!(
        Value::Keyword(":a".to_string()).try_into_hashable(),
        Ok(HashableValue::Keyword(_))
    ));
    assert!(matches!(
        Value::List(vec![]).try_into_hashable(),
        Err(HashValueError::UnhashableValue(Value::List(_)))
    ));
}
