//! The atom builtins: `atom` wraps a value in a fresh shared cell of the
//! environment arena, and `deref` reads a cell.

use vstd::prelude::*;

use crate::builtins::assert_args_length;
use crate::env::{env_extends, Env};
use crate::evaluator::{res_matches, RuntimeError, TypeError};
use crate::semantics::builtin_s;
use crate::types::{val_view, val_wf, vals_view, FnM, FunctionBody, ValM, Value, ValueBuiltin};
use crate::types::{lemma_vals_view_index, lemma_vals_view_len};

verus! {

/// The bindings this module installs.
pub open spec fn bindings(m: Map<Seq<char>, ValM>) -> Map<Seq<char>, ValM> {
    m.insert("atom"@, ValM::Function(FnM::BuiltinValues(ValueBuiltin::AtomFn))).insert(
        "deref"@,
        ValM::Function(FnM::BuiltinValues(ValueBuiltin::Deref)),
    )
}

/// Installs the atom builtins into frame `fr`.
pub fn insert_functions(env: &mut Env, fr: usize)
    requires
        old(env).wf(),
        fr < old(env)@.frames.len(),
    ensures
        final(env).wf(),
        env_extends(old(env)@, final(env)@),
        final(env)@.frames.len() == old(env)@.frames.len(),
        final(env)@.cells == old(env)@.cells,
        final(env)@.output == old(env)@.output,
        forall|i: int|
            0 <= i < final(env)@.frames.len() && i != fr ==> final(env)@.frames[i]
                == old(env)@.frames[i],
        final(env)@.frames[fr as int].parent == old(env)@.frames[fr as int].parent,
        final(env)@.frames[fr as int].map == bindings(old(env)@.frames[fr as int].map),
{
    env.insert(
        fr,
        "atom".to_owned(),
        Value::Function(FunctionBody::BuiltinValues(ValueBuiltin::AtomFn)),
    );
    env.insert(
        fr,
        "deref".to_owned(),
        Value::Function(FunctionBody::BuiltinValues(ValueBuiltin::Deref)),
    );
    proof {
        assert(final(env)@.frames =~= old(env)@.frames.update(
            fr as int,
            final(env)@.frames[fr as int],
        ));
    }
}

/// The `atom` builtin: a fresh mutable cell holding the one argument.
pub fn atom(env: &mut Env, mut args: Vec<Value>) -> (r: Result<Value, RuntimeError>)
    requires
        old(env).wf(),
        forall|i: int|
            0 <= i < args@.len() ==> val_wf(
                val_view(#[trigger] args@[i]),
                old(env)@.frames.len() as int,
                old(env)@.cells.len() as int,
            ),
    ensures
        final(env).wf(),
        env_extends(old(env)@, final(env)@),
        ({
            let (st1, rm) = builtin_s(ValueBuiltin::AtomFn, vals_view(args@), old(env)@);
            final(env)@ == st1 && res_matches(r, rm)
        }),
{
    broadcast use lemma_vals_view_len, lemma_vals_view_index;

    match assert_args_length(&args, 1) {
        Err(e) => Err(e),
        Ok(_) => {
            let ghost args0 = args@;
            let arg = args.pop().unwrap();
            proof {
                assert(arg == args0[0]);
            }
            let idx = env.new_cell(arg);
            Ok(Value::Atom(idx))
        },
    }
}

/// The `deref` builtin: the value currently held by the one atom argument.
pub fn deref(env: &mut Env, mut args: Vec<Value>) -> (r: Result<Value, RuntimeError>)
    requires
        old(env).wf(),
        forall|i: int|
            0 <= i < args@.len() ==> val_wf(
                val_view(#[trigger] args@[i]),
                old(env)@.frames.len() as int,
                old(env)@.cells.len() as int,
            ),
    ensures
        final(env).wf(),
        env_extends(old(env)@, final(env)@),
        ({
            let (st1, rm) = builtin_s(ValueBuiltin::Deref, vals_view(args@), old(env)@);
            final(env)@ == st1 && res_matches(r, rm)
        }),
{
    broadcast use lemma_vals_view_len, lemma_vals_view_index;

    match assert_args_length(&args, 1) {
        Err(e) => Err(e),
        Ok(_) => {
            let ghost args0 = args@;
            let arg = args.pop().unwrap();
            proof {
                assert(arg == args0[0]);
            }
            match arg {
                Value::Atom(i) => Ok(env.read_cell(i)),
                _ => Err(RuntimeError::IncorrectType(TypeError::Misc)),
            }
        },
    }
}

} // verus!
