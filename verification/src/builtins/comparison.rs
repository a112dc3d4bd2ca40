//! The comparison builtins: `=` with the sequence-coercion rule, and the
//! integer orderings `<`, `<=`, `>`, `>=`; also `not`, a builtin written in
//! the language itself.

use vstd::prelude::*;

use crate::builtins::assert_args_length;
use crate::env::{env_extends, Env};
use crate::evaluator::{res_matches, RuntimeError, TypeError};
use crate::semantics::builtin_s;
use crate::types::{vals_view, Expr, FnM, FunctionBody, ValM, Value, ValueBuiltin};
use crate::types::{lemma_vals_view_index, lemma_vals_view_len};

verus! {

/// The bindings this module installs.
pub open spec fn bindings(m: Map<Seq<char>, ValM>) -> Map<Seq<char>, ValM> {
    m.insert("="@, ValM::Function(FnM::BuiltinValues(ValueBuiltin::Eq))).insert(
        "<"@,
        ValM::Function(FnM::BuiltinValues(ValueBuiltin::Lt)),
    ).insert("<="@, ValM::Function(FnM::BuiltinValues(ValueBuiltin::Lte))).insert(
        ">"@,
        ValM::Function(FnM::BuiltinValues(ValueBuiltin::Gt)),
    ).insert(">="@, ValM::Function(FnM::BuiltinValues(ValueBuiltin::Gte)))
}

/// Installs the comparison builtins into frame `fr`.
pub fn insert_functions(env: &mut Env, fr: usize)
    requires
        old(env).wf(),
        fr < old(env)@.frames.len(),
    ensures
        final(env).wf(),
        env_extends(old(env)@, final(env)@),
        final(env)@.frames.len() == old(env)@.frames.len(),
        final(env)@.cells == old(env)@.cells,
        final(env)@.output == old(env)@.output,
        forall|i: int|
            0 <= i < final(env)@.frames.len() && i != fr ==> final(env)@.frames[i]
                == old(env)@.frames[i],
        final(env)@.frames[fr as int].parent == old(env)@.frames[fr as int].parent,
        final(env)@.frames[fr as int].map == bindings(old(env)@.frames[fr as int].map),
{
    env.insert(fr, "=".to_owned(), Value::Function(FunctionBody::BuiltinValues(ValueBuiltin::Eq)));
    env.insert(fr, "<".to_owned(), Value::Function(FunctionBody::BuiltinValues(ValueBuiltin::Lt)));
    env.insert(
        fr,
        "<=".to_owned(),
        Value::Function(FunctionBody::BuiltinValues(ValueBuiltin::Lte)),
    );
    env.insert(fr, ">".to_owned(), Value::Function(FunctionBody::BuiltinValues(ValueBuiltin::Gt)));
    env.insert(
        fr,
        ">=".to_owned(),
        Value::Function(FunctionBody::BuiltinValues(ValueBuiltin::Gte)),
    );
    proof {
        assert(final(env)@.frames =~= old(env)@.frames.update(
            fr as int,
            final(env)@.frames[fr as int],
        ));
    }
}

/// The closure value that `(fn* (x) (if x false true))` denotes, captured
/// over frame `closure_fr`.
pub fn not_closure_value(closure_fr: usize) -> (r: Value)
    ensures
        r@ == not_closure(closure_fr as int),
{
    let mut body_elems: Vec<Expr> = Vec::new();
    body_elems.push(Expr::Symbol("if".to_owned()));
    body_elems.push(Expr::Symbol("x".to_owned()));
    body_elems.push(Expr::Boolean(false));
    body_elems.push(Expr::Boolean(true));
    let mut params: Vec<String> = Vec::new();
    params.push("x".to_owned());
    proof {
        crate::types::lemma_exprs_view_len(body_elems@);
        crate::types::lemma_exprs_view_index(body_elems@, 0);
        crate::types::lemma_exprs_view_index(body_elems@, 1);
        crate::types::lemma_exprs_view_index(body_elems@, 2);
        crate::types::lemma_exprs_view_index(body_elems@, 3);
        assert(body_elems@.len() == 4);
        assert(body_elems@[0]@ == crate::types::ExprM::Symbol("if"@));
        assert(body_elems@[1]@ == crate::types::ExprM::Symbol("x"@));
        assert(body_elems@[2]@ == crate::types::ExprM::Boolean(false));
        assert(body_elems@[3]@ == crate::types::ExprM::Boolean(true));
        assert(crate::types::exprs_view(body_elems@) =~= seq![
            crate::types::ExprM::Symbol("if"@),
            crate::types::ExprM::Symbol("x"@),
            crate::types::ExprM::Boolean(false),
            crate::types::ExprM::Boolean(true),
        ]);
        crate::types::lemma_strings_view_len(params@);
        crate::types::lemma_strings_view_index(params@, 0);
        assert(crate::types::strings_view(params@) =~= seq!["x"@]);
    }
    Value::Function(
        FunctionBody::Closure {
            closed_env: closure_fr,
            params,
            variadic_param: None,
            body: Expr::List(body_elems),
        },
    )
}

/// The `not` closure: one parameter `x`, body `(if x false true)`, captured
/// over `closure_fr`.
pub open spec fn not_closure(closure_fr: int) -> ValM {
    ValM::Function(
        FnM::Closure {
            env: closure_fr,
            params: seq!["x"@],
            variadic: None,
            body: crate::types::ExprM::List(
                seq![
                    crate::types::ExprM::Symbol("if"@),
                    crate::types::ExprM::Symbol("x"@),
                    crate::types::ExprM::Boolean(false),
                    crate::types::ExprM::Boolean(true),
                ],
            ),
        },
    )
}

/// Installs `not` into `into_fr`, closing over `closure_fr`.
pub fn insert_core_closures(env: &mut Env, into_fr: usize, closure_fr: usize)
    requires
        old(env).wf(),
        into_fr < old(env)@.frames.len(),
        closure_fr < old(env)@.frames.len(),
    ensures
        final(env).wf(),
        env_extends(old(env)@, final(env)@),
        final(env)@.frames.len() == old(env)@.frames.len(),
        final(env)@.cells == old(env)@.cells,
        final(env)@.output == old(env)@.output,
        forall|i: int|
            0 <= i < final(env)@.frames.len() && i != into_fr ==> final(env)@.frames[i]
                == old(env)@.frames[i],
        final(env)@.frames[into_fr as int].parent == old(env)@.frames[into_fr as int].parent,
        final(env)@.frames[into_fr as int].map == old(env)@.frames[into_fr as int].map.insert(
            "not"@,
            not_closure(closure_fr as int),
        ),
{
    let not_fn = not_closure_value(closure_fr);
    env.insert(into_fr, "not".to_owned(), not_fn);
}

/// The `=` builtin: equality of two values under the sequence-coercion
/// rule.
pub fn eq(env: &mut Env, args: Vec<Value>) -> (r: Result<Value, RuntimeError>)
    requires
        old(env).wf(),
    ensures
        final(env).wf(),
        env_extends(old(env)@, final(env)@),
        ({
            let (st1, rm) = builtin_s(ValueBuiltin::Eq, vals_view(args@), old(env)@);
            final(env)@ == st1 && res_matches(r, rm)
        }),
{
    broadcast use lemma_vals_view_len, lemma_vals_view_index;

    match assert_args_length(&args, 2) {
        Err(e) => Err(e),
        Ok(_) => Ok(Value::Boolean(args[0].value_eq(&args[1]))),
    }
}

/// The `<` builtin on two integers.
pub fn lt(env: &mut Env, args: Vec<Value>) -> (r: Result<Value, RuntimeError>)
    requires
        old(env).wf(),
    ensures
        final(env).wf(),
        env_extends(old(env)@, final(env)@),
        ({
            let (st1, rm) = builtin_s(ValueBuiltin::Lt, vals_view(args@), old(env)@);
            final(env)@ == st1 && res_matches(r, rm)
        }),
{
    broadcast use lemma_vals_view_len, lemma_vals_view_index;

    match assert_args_length(&args, 2) {
        Err(e) => Err(e),
        Ok(_) => match (&args[0], &args[1]) {
            (Value::Integer(a), Value::Integer(b)) => Ok(Value::Boolean(*a < *b)),
            _ => Err(RuntimeError::IncorrectType(TypeError::Misc)),
        },
    }
}

/// The `<=` builtin on two integers.
pub fn lte(env: &mut Env, args: Vec<Value>) -> (r: Result<Value, RuntimeError>)
    requires
        old(env).wf(),
    ensures
        final(env).wf(),
        env_extends(old(env)@, final(env)@),
        ({
            let (st1, rm) = builtin_s(ValueBuiltin::Lte, vals_view(args@), old(env)@);
            final(env)@ == st1 && res_matches(r, rm)
        }),
{
    broadcast use lemma_vals_view_len, lemma_vals_view_index;

    match assert_args_length(&args, 2) {
        Err(e) => Err(e),
        Ok(_) => match (&args[0], &args[1]) {
            (Value::Integer(a), Value::Integer(b)) => Ok(Value::Boolean(*a <= *b)),
            _ => Err(RuntimeError::IncorrectType(TypeError::Misc)),
        },
    }
}

/// The `>` builtin on two integers.
pub fn gt(env: &mut Env, args: Vec<Value>) -> (r: Result<Value, RuntimeError>)
    requires
        old(env).wf(),
    ensures
        final(env).wf(),
        env_extends(old(env)@, final(env)@),
        ({
            let (st1, rm) = builtin_s(ValueBuiltin::Gt, vals_view(args@), old(env)@);
            final(env)@ == st1 && res_matches(r, rm)
        }),
{
    broadcast use lemma_vals_view_len, lemma_vals_view_index;

    match assert_args_length(&args, 2) {
        Err(e) => Err(e),
        Ok(_) => match (&args[0], &args[1]) {
            (Value::Integer(a), Value::Integer(b)) => Ok(Value::Boolean(*a > *b)),
            _ => Err(RuntimeError::IncorrectType(TypeError::Misc)),
        },
    }
}

/// The `>=` builtin on two integers.
pub fn gte(env: &mut Env, args: Vec<Value>) -> (r: Result<Value, RuntimeError>)
    requires
        old(env).wf(),
    ensures
        final(env).wf(),
        env_extends(old(env)@, final(env)@),
        ({
            let (st1, rm) = builtin_s(ValueBuiltin::Gte, vals_view(args@), old(env)@);
            final(env)@ == st1 && res_matches(r, rm)
        }),
{
    broadcast use lemma_vals_view_len, lemma_vals_view_index;

    match assert_args_length(&args, 2) {
        Err(e) => Err(e),
        Ok(_) => match (&args[0], &args[1]) {
            (Value::Integer(a), Value::Integer(b)) => Ok(Value::Boolean(*a >= *b)),
            _ => Err(RuntimeError::IncorrectType(TypeError::Misc)),
        },
    }
}

} // verus!
