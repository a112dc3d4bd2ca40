//! The arithmetic builtins: `+`, `-`, `*` and `/` on two integers.
//!
//! Addition, subtraction and multiplication wrap around the 64-bit integer
//! domain. Division truncates; a zero divisor is reported as an error
//! rather than trapping, and the one overflowing quotient wraps.

use vstd::prelude::*;

use crate::builtins::assert_args_length;
use crate::env::{env_extends, Env};
use crate::evaluator::{res_matches, RuntimeError, TypeError};
use crate::semantics::builtin_s;
use crate::types::{vals_view, FunctionBody, ValM, Value, ValueBuiltin};
use crate::types::{lemma_vals_view_index, lemma_vals_view_len};

verus! {

/// The bindings this module installs.
pub open spec fn bindings(m: Map<Seq<char>, ValM>) -> Map<Seq<char>, ValM> {
    m.insert("+"@, ValM::Function(crate::types::FnM::BuiltinValues(ValueBuiltin::Add))).insert(
        "-"@,
        ValM::Function(crate::types::FnM::BuiltinValues(ValueBuiltin::Sub)),
    ).insert("*"@, ValM::Function(crate::types::FnM::BuiltinValues(ValueBuiltin::Mul))).insert(
        "/"@,
        ValM::Function(crate::types::FnM::BuiltinValues(ValueBuiltin::Div)),
    )
}

/// Installs the arithmetic builtins into frame `fr`.
pub fn insert_functions(env: &mut Env, fr: usize)
    requires
        old(env).wf(),
        fr < old(env)@.frames.len(),
    ensures
        final(env).wf(),
        env_extends(old(env)@, final(env)@),
        final(env)@.frames.len() == old(env)@.frames.len(),
        final(env)@.cells == old(env)@.cells,
        final(env)@.output == old(env)@.output,
        forall|i: int|
            0 <= i < final(env)@.frames.len() && i != fr ==> final(env)@.frames[i]
                == old(env)@.frames[i],
        final(env)@.frames[fr as int].parent == old(env)@.frames[fr as int].parent,
        final(env)@.frames[fr as int].map == bindings(old(env)@.frames[fr as int].map),
{
    env.insert(
        fr,
        "+".to_owned(),
        Value::Function(FunctionBody::BuiltinValues(ValueBuiltin::Add)),
    );
    env.insert(
        fr,
        "-".to_owned(),
        Value::Function(FunctionBody::BuiltinValues(ValueBuiltin::Sub)),
    );
    env.insert(
        fr,
        "*".to_owned(),
        Value::Function(FunctionBody::BuiltinValues(ValueBuiltin::Mul)),
    );
    env.insert(
        fr,
        "/".to_owned(),
        Value::Function(FunctionBody::BuiltinValues(ValueBuiltin::Div)),
    );
    proof {
        assert(final(env)@.frames =~= old(env)@.frames.update(
            fr as int,
            final(env)@.frames[fr as int],
        ));
    }
}

/// The `+` builtin: the wrapping sum of two integers.
pub fn add(env: &mut Env, args: Vec<Value>) -> (r: Result<Value, RuntimeError>)
    requires
        old(env).wf(),
    ensures
        final(env).wf(),
        env_extends(old(env)@, final(env)@),
        ({
            let (st1, rm) = builtin_s(ValueBuiltin::Add, vals_view(args@), old(env)@);
            final(env)@ == st1 && res_matches(r, rm)
        }),
{
    broadcast use lemma_vals_view_len, lemma_vals_view_index;

    match assert_args_length(&args, 2) {
        Err(e) => Err(e),
        Ok(_) => match (&args[0], &args[1]) {
            (Value::Integer(a), Value::Integer(b)) => Ok(Value::Integer(a.wrapping_add(*b))),
            _ => Err(RuntimeError::IncorrectType(TypeError::Misc)),
        },
    }
}

/// The `-` builtin: the wrapping difference of two integers.
pub fn sub(env: &mut Env, args: Vec<Value>) -> (r: Result<Value, RuntimeError>)
    requires
        old(env).wf(),
    ensures
        final(env).wf(),
        env_extends(old(env)@, final(env)@),
        ({
            let (st1, rm) = builtin_s(ValueBuiltin::Sub, vals_view(args@), old(env)@);
            final(env)@ == st1 && res_matches(r, rm)
        }),
{
    broadcast use lemma_vals_view_len, lemma_vals_view_index;

    match assert_args_length(&args, 2) {
        Err(e) => Err(e),
        Ok(_) => match (&args[0], &args[1]) {
            (Value::Integer(a), Value::Integer(b)) => Ok(Value::Integer(a.wrapping_sub(*b))),
            _ => Err(RuntimeError::IncorrectType(TypeError::Misc)),
        },
    }
}

/// The `*` builtin: the wrapping product of two integers.
pub fn mul(env: &mut Env, args: Vec<Value>) -> (r: Result<Value, RuntimeError>)
    requires
        old(env).wf(),
    ensures
        final(env).wf(),
        env_extends(old(env)@, final(env)@),
        ({
            let (st1, rm) = builtin_s(ValueBuiltin::Mul, vals_view(args@), old(env)@);
            final(env)@ == st1 && res_matches(r, rm)
        }),
{
    broadcast use lemma_vals_view_len, lemma_vals_view_index;

    match assert_args_length(&args, 2) {
        Err(e) => Err(e),
        Ok(_) => match (&args[0], &args[1]) {
            (Value::Integer(a), Value::Integer(b)) => Ok(Value::Integer(a.wrapping_mul(*b))),
            _ => Err(RuntimeError::IncorrectType(TypeError::Misc)),
        },
    }
}

/// The `/` builtin: the truncating quotient of two integers. A zero
/// divisor is `DivisionByZero`; the one overflowing quotient wraps.
pub fn div(env: &mut Env, args: Vec<Value>) -> (r: Result<Value, RuntimeError>)
    requires
        old(env).wf(),
    ensures
        final(env).wf(),
        env_extends(old(env)@, final(env)@),
        ({
            let (st1, rm) = builtin_s(ValueBuiltin::Div, vals_view(args@), old(env)@);
            final(env)@ == st1 && res_matches(r, rm)
        }),
{
    broadcast use lemma_vals_view_len, lemma_vals_view_index;

    match assert_args_length(&args, 2) {
        Err(e) => Err(e),
        Ok(_) => match (&args[0], &args[1]) {
            (Value::Integer(a), Value::Integer(b)) => {
                if *b == 0 {
                    return Err(RuntimeError::DivisionByZero);
                }
                match a.checked_div(*b) {
                    Some(q) => Ok(Value::Integer(q)),
                    None => Ok(Value::Integer(i64::MIN)),
                }
            },
            _ => Err(RuntimeError::IncorrectType(TypeError::Misc)),
        },
    }
}

} // verus!
