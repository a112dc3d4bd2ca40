//! The string builtins: `pr-str` joins readable renderings with spaces;
//! `str` concatenates raw renderings.

use vstd::prelude::*;

use crate::env::{env_extends, Env};
use crate::evaluator::{res_matches, RuntimeError};
use crate::printer::{lemma_print_specs_vals, write_delimiter_separated_printables};
use crate::semantics::builtin_s;
use crate::types::{vals_view, FnM, FunctionBody, ValM, Value, ValueBuiltin};

verus! {

/// The bindings this module installs.
pub open spec fn bindings(m: Map<Seq<char>, ValM>) -> Map<Seq<char>, ValM> {
    m.insert("pr-str"@, ValM::Function(FnM::BuiltinValues(ValueBuiltin::PrStr))).insert(
        "str"@,
        ValM::Function(FnM::BuiltinValues(ValueBuiltin::StrFn)),
    )
}

/// Installs the string builtins into frame `fr`.
pub fn insert_functions(env: &mut Env, fr: usize)
    requires
        old(env).wf(),
        fr < old(env)@.frames.len(),
    ensures
        final(env).wf(),
        env_extends(old(env)@, final(env)@),
        final(env)@.frames.len() == old(env)@.frames.len(),
        final(env)@.cells == old(env)@.cells,
        final(env)@.output == old(env)@.output,
        forall|i: int|
            0 <= i < final(env)@.frames.len() && i != fr ==> final(env)@.frames[i]
                == old(env)@.frames[i],
        final(env)@.frames[fr as int].parent == old(env)@.frames[fr as int].parent,
        final(env)@.frames[fr as int].map == bindings(old(env)@.frames[fr as int].map),
{
    env.insert(
        fr,
        "pr-str".to_owned(),
        Value::Function(FunctionBody::BuiltinValues(ValueBuiltin::PrStr)),
    );
    env.insert(
        fr,
        "str".to_owned(),
        Value::Function(FunctionBody::BuiltinValues(ValueBuiltin::StrFn)),
    );
    proof {
        assert(final(env)@.frames =~= old(env)@.frames.update(
            fr as int,
            final(env)@.frames[fr as int],
        ));
    }
}

/// The `pr-str` builtin: the readable renderings of the arguments joined
/// with single spaces, as a string value.
pub fn pr_str(env: &mut Env, args: Vec<Value>) -> (r: Result<Value, RuntimeError>)
    requires
        old(env).wf(),
    ensures
        final(env).wf(),
        env_extends(old(env)@, final(env)@),
        ({
            let (st1, rm) = builtin_s(ValueBuiltin::PrStr, vals_view(args@), old(env)@);
            final(env)@ == st1 && res_matches(r, rm)
        }),
{
    let joined = write_delimiter_separated_printables(&args, " ", true);
    proof {
        lemma_print_specs_vals(args@, true);
        reveal_strlit(" ");
        assert(" "@ =~= seq![' ']);
    }
    Ok(Value::String(joined))
}

/// The `str` builtin: the raw renderings of the arguments concatenated, as
/// a string value.
pub fn str(env: &mut Env, args: Vec<Value>) -> (r: Result<Value, RuntimeError>)
    requires
        old(env).wf(),
    ensures
        final(env).wf(),
        env_extends(old(env)@, final(env)@),
        ({
            let (st1, rm) = builtin_s(ValueBuiltin::StrFn, vals_view(args@), old(env)@);
            final(env)@ == st1 && res_matches(r, rm)
        }),
{
    let joined = write_delimiter_separated_printables(&args, "", false);
    proof {
        lemma_print_specs_vals(args@, false);
        reveal_strlit("");
        assert(""@ =~= Seq::<char>::empty());
    }
    Ok(Value::String(joined))
}

} // verus!
