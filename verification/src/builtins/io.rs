//! The printing builtins: `prn` and `println` render their arguments,
//! append the line to the environment's output buffer, and return `nil`.
//! The caller outside the library drains the buffer and performs the
//! actual writing.

use vstd::prelude::*;

use crate::env::{env_extends, Env};
use crate::evaluator::{res_matches, RuntimeError};
use crate::printer::{lemma_print_specs_vals, write_delimiter_separated_printables};
use crate::semantics::builtin_s;
use crate::types::{vals_view, FnM, FunctionBody, ValM, Value, ValueBuiltin};

verus! {

/// The bindings this module installs.
pub open spec fn bindings(m: Map<Seq<char>, ValM>) -> Map<Seq<char>, ValM> {
    m.insert("prn"@, ValM::Function(FnM::BuiltinValues(ValueBuiltin::Prn))).insert(
        "println"@,
        ValM::Function(FnM::BuiltinValues(ValueBuiltin::PrintLine)),
    )
}

/// Installs the printing builtins into frame `fr`.
pub fn insert_functions(env: &mut Env, fr: usize)
    requires
        old(env).wf(),
        fr < old(env)@.frames.len(),
    ensures
        final(env).wf(),
        env_extends(old(env)@, final(env)@),
        final(env)@.frames.len() == old(env)@.frames.len(),
        final(env)@.cells == old(env)@.cells,
        final(env)@.output == old(env)@.output,
        forall|i: int|
            0 <= i < final(env)@.frames.len() && i != fr ==> final(env)@.frames[i]
                == old(env)@.frames[i],
        final(env)@.frames[fr as int].parent == old(env)@.frames[fr as int].parent,
        final(env)@.frames[fr as int].map == bindings(old(env)@.frames[fr as int].map),
{
    env.insert(
        fr,
        "prn".to_owned(),
        Value::Function(FunctionBody::BuiltinValues(ValueBuiltin::Prn)),
    );
    env.insert(
        fr,
        "println".to_owned(),
        Value::Function(FunctionBody::BuiltinValues(ValueBuiltin::PrintLine)),
    );
    proof {
        assert(final(env)@.frames =~= old(env)@.frames.update(
            fr as int,
            final(env)@.frames[fr as int],
        ));
    }
}

/// The `prn` builtin: the readable renderings joined with spaces, buffered
/// as one output line; returns `nil`.
pub fn prn(env: &mut Env, args: Vec<Value>) -> (r: Result<Value, RuntimeError>)
    requires
        old(env).wf(),
    ensures
        final(env).wf(),
        env_extends(old(env)@, final(env)@),
        ({
            let (st1, rm) = builtin_s(ValueBuiltin::Prn, vals_view(args@), old(env)@);
            final(env)@ == st1 && res_matches(r, rm)
        }),
{
    let line = write_delimiter_separated_printables(&args, " ", true);
    proof {
        lemma_print_specs_vals(args@, true);
        reveal_strlit(" ");
        assert(" "@ =~= seq![' ']);
    }
    env.push_output(line);
    Ok(Value::Nil)
}

/// The `println` builtin: the raw renderings joined with spaces, buffered
/// as one output line; returns `nil`.
pub fn println(env: &mut Env, args: Vec<Value>) -> (r: Result<Value, RuntimeError>)
    requires
        old(env).wf(),
    ensures
        final(env).wf(),
        env_extends(old(env)@, final(env)@),
        ({
            let (st1, rm) = builtin_s(ValueBuiltin::PrintLine, vals_view(args@), old(env)@);
            final(env)@ == st1 && res_matches(r, rm)
        }),
{
    let line = write_delimiter_separated_printables(&args, " ", false);
    proof {
        lemma_print_specs_vals(args@, false);
        reveal_strlit(" ");
        assert(" "@ =~= seq![' ']);
    }
    env.push_output(line);
    Ok(Value::Nil)
}

} // verus!
