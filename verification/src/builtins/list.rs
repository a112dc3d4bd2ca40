//! The sequence builtins: `list`, `list?`, `empty?` and `count`. The last
//! two accept anything that coerces to a sequence, `nil` included.

use vstd::prelude::*;

use crate::builtins::assert_args_length;
use crate::env::{env_extends, Env};
use crate::evaluator::{res_matches, RuntimeError};
use crate::semantics::builtin_s;
use crate::types::{vals_view, FnM, FunctionBody, ValM, Value, ValueBuiltin};
use crate::types::{lemma_vals_view_index, lemma_vals_view_len};

verus! {

/// The bindings this module installs.
pub open spec fn bindings(m: Map<Seq<char>, ValM>) -> Map<Seq<char>, ValM> {
    m.insert("list"@, ValM::Function(FnM::BuiltinValues(ValueBuiltin::ListFn))).insert(
        "list?"@,
        ValM::Function(FnM::BuiltinValues(ValueBuiltin::ListP)),
    ).insert("empty?"@, ValM::Function(FnM::BuiltinValues(ValueBuiltin::EmptyP))).insert(
        "count"@,
        ValM::Function(FnM::BuiltinValues(ValueBuiltin::Count)),
    )
}

/// Installs the sequence builtins into frame `fr`.
pub fn insert_functions(env: &mut Env, fr: usize)
    requires
        old(env).wf(),
        fr < old(env)@.frames.len(),
    ensures
        final(env).wf(),
        env_extends(old(env)@, final(env)@),
        final(env)@.frames.len() == old(env)@.frames.len(),
        final(env)@.cells == old(env)@.cells,
        final(env)@.output == old(env)@.output,
        forall|i: int|
            0 <= i < final(env)@.frames.len() && i != fr ==> final(env)@.frames[i]
                == old(env)@.frames[i],
        final(env)@.frames[fr as int].parent == old(env)@.frames[fr as int].parent,
        final(env)@.frames[fr as int].map == bindings(old(env)@.frames[fr as int].map),
{
    env.insert(
        fr,
        "list".to_owned(),
        Value::Function(FunctionBody::BuiltinValues(ValueBuiltin::ListFn)),
    );
    env.insert(
        fr,
        "list?".to_owned(),
        Value::Function(FunctionBody::BuiltinValues(ValueBuiltin::ListP)),
    );
    env.insert(
        fr,
        "empty?".to_owned(),
        Value::Function(FunctionBody::BuiltinValues(ValueBuiltin::EmptyP)),
    );
    env.insert(
        fr,
        "count".to_owned(),
        Value::Function(FunctionBody::BuiltinValues(ValueBuiltin::Count)),
    );
    proof {
        assert(final(env)@.frames =~= old(env)@.frames.update(
            fr as int,
            final(env)@.frames[fr as int],
        ));
    }
}

/// The `list` builtin: its arguments as a list, in order.
pub fn list_f(env: &mut Env, args: Vec<Value>) -> (r: Result<Value, RuntimeError>)
    requires
        old(env).wf(),
    ensures
        final(env).wf(),
        env_extends(old(env)@, final(env)@),
        ({
            let (st1, rm) = builtin_s(ValueBuiltin::ListFn, vals_view(args@), old(env)@);
            final(env)@ == st1 && res_matches(r, rm)
        }),
{
    Ok(Value::List(args))
}

/// The `list?` builtin: whether its one argument is a list. A vector or
/// `nil` is not.
pub fn list_p(env: &mut Env, args: Vec<Value>) -> (r: Result<Value, RuntimeError>)
    requires
        old(env).wf(),
    ensures
        final(env).wf(),
        env_extends(old(env)@, final(env)@),
        ({
            let (st1, rm) = builtin_s(ValueBuiltin::ListP, vals_view(args@), old(env)@);
            final(env)@ == st1 && res_matches(r, rm)
        }),
{
    broadcast use lemma_vals_view_len, lemma_vals_view_index;

    match assert_args_length(&args, 1) {
        Err(e) => Err(e),
        Ok(_) => match &args[0] {
            Value::List(v) => Ok(Value::Boolean(true)),
            _ => Ok(Value::Boolean(false)),
        },
    }
}

/// The `empty?` builtin: whether its one sequence-coercible argument has no
/// elements; `nil` counts as empty.
pub fn empty_p(env: &mut Env, mut args: Vec<Value>) -> (r: Result<Value, RuntimeError>)
    requires
        old(env).wf(),
    ensures
        final(env).wf(),
        env_extends(old(env)@, final(env)@),
        ({
            let (st1, rm) = builtin_s(ValueBuiltin::EmptyP, vals_view(args@), old(env)@);
            final(env)@ == st1 && res_matches(r, rm)
        }),
{
    broadcast use lemma_vals_view_len, lemma_vals_view_index;

    match assert_args_length(&args, 1) {
        Err(e) => Err(e),
        Ok(_) => {
            let ghost args0 = args@;
            let arg = args.pop().unwrap();
            proof {
                assert(arg == args0[0]);
            }
            match arg.to_seq() {
                Err(e) => Err(e),
                Ok(s) => {
                    proof {
                        lemma_vals_view_len(s@);
                    }
                    Ok(Value::Boolean(s.len() == 0))
                },
            }
        },
    }
}

/// The `count` builtin: how many elements its one sequence-coercible
/// argument has; zero for `nil`.
pub fn count(env: &mut Env, mut args: Vec<Value>) -> (r: Result<Value, RuntimeError>)
    requires
        old(env).wf(),
    ensures
        final(env).wf(),
        env_extends(old(env)@, final(env)@),
        ({
            let (st1, rm) = builtin_s(ValueBuiltin::Count, vals_view(args@), old(env)@);
            final(env)@ == st1 && res_matches(r, rm)
        }),
{
    broadcast use lemma_vals_view_len, lemma_vals_view_index;

    match assert_args_length(&args, 1) {
        Err(e) => Err(e),
        Ok(_) => {
            let ghost args0 = args@;
            let arg = args.pop().unwrap();
            proof {
                assert(arg == args0[0]);
            }
            match arg.to_seq() {
                Err(e) => Err(e),
                Ok(s) => {
                    proof {
                        lemma_vals_view_len(s@);
                    }
                    let n = #[verifier::truncate] (s.len() as i64);
                    Ok(Value::Integer(n))
                },
            }
        },
    }
}

} // verus!
