//! The builtin registry: the fixed table of primitive operations installed
//! into a fresh root frame, and the helpers they share.

use vstd::prelude::*;

use crate::env::{env_extends, Env};
use crate::evaluator::{ErrM, RuntimeError};
use crate::semantics::eval_s;
use crate::types::{val_wf, ValM, Value};

pub mod arithmetic;
pub mod comparison;
pub mod list;
pub mod sequencing;
pub mod special_forms;
pub mod string;
pub mod io;
pub mod atoms;

verus! {

/// Exactly `expected_num_args` arguments, or the arity error naming both
/// counts.
pub fn assert_args_length<T>(args: &Vec<T>, expected_num_args: usize) -> (r: Result<
    (),
    RuntimeError,
>)
    ensures
        r is Ok <==> args@.len() == expected_num_args,
        r matches Err(e) ==> e@ == (ErrM::WrongNumberOfArgs {
            given: args@.len() as int,
            expected: expected_num_args as int,
        }),
{
    if args.len() != expected_num_args {
        return Err(
            RuntimeError::FunctionApplicationWrongNumberOfArgs {
                given: args.len(),
                expected: expected_num_args,
            },
        );
    }
    Ok(())
}

/// At least `expected_min_num_args` arguments, or the arity error naming
/// the minimum.
pub fn assert_args_length_at_least<T>(args: &Vec<T>, expected_min_num_args: usize) -> (r: Result<
    (),
    RuntimeError,
>)
    ensures
        r is Ok <==> args@.len() >= expected_min_num_args,
        r matches Err(e) ==> e@ == (ErrM::WrongNumberOfArgs {
            given: args@.len() as int,
            expected: expected_min_num_args as int,
        }),
{
    if args.len() < expected_min_num_args {
        return Err(
            RuntimeError::FunctionApplicationWrongNumberOfArgs {
                given: args.len(),
                expected: expected_min_num_args,
            },
        );
    }
    Ok(())
}

/// Between `min_num_args` and `max_num_args` arguments, or the arity error
/// naming the minimum.
pub fn assert_args_length_between<T>(args: &Vec<T>, min_num_args: usize, max_num_args: usize) -> (r:
    Result<(), RuntimeError>)
    ensures
        r is Ok <==> min_num_args <= args@.len() <= max_num_args,
        r matches Err(e) ==> e@ == (ErrM::WrongNumberOfArgs {
            given: args@.len() as int,
            expected: min_num_args as int,
        }),
{
    if args.len() < min_num_args || args.len() > max_num_args {
        return Err(
            RuntimeError::FunctionApplicationWrongNumberOfArgs {
                given: args.len(),
                expected: min_num_args,
            },
        );
    }
    Ok(())
}

/// Installs every builtin into frame `fr`.
pub fn insert_core_functions(env: &mut Env, fr: usize)
    requires
        old(env).wf(),
        fr < old(env)@.frames.len(),
    ensures
        final(env).wf(),
        env_extends(old(env)@, final(env)@),
        final(env)@.frames.len() == old(env)@.frames.len(),
        final(env)@.cells == old(env)@.cells,
        final(env)@.output == old(env)@.output,
        forall|i: int|
            0 <= i < final(env)@.frames.len() && i != fr ==> final(env)@.frames[i]
                == old(env)@.frames[i],
        final(env)@.frames[fr as int].parent == old(env)@.frames[fr as int].parent,
        final(env)@.frames[fr as int].map == core_bindings(old(env)@.frames[fr as int].map),
{
    arithmetic::insert_functions(env, fr);
    special_forms::insert_functions(env, fr);
    list::insert_functions(env, fr);
    io::insert_functions(env, fr);
    comparison::insert_functions(env, fr);
    sequencing::insert_functions(env, fr);
    string::insert_functions(env, fr);
    atoms::insert_functions(env, fr);
}

/// The bindings `insert_core_functions` adds on top of a frame's map, in
/// registration order.
pub open spec fn core_bindings(m: Map<Seq<char>, ValM>) -> Map<Seq<char>, ValM> {
    atoms::bindings(
        string::bindings(
            sequencing::bindings(
                comparison::bindings(
                    io::bindings(list::bindings(special_forms::bindings(arithmetic::bindings(m)))),
                ),
            ),
        ),
    )
}

/// Installs the builtins written in the language itself: `not`, a closure
/// over `closure_fr`.
pub fn insert_core_closures(env: &mut Env, into_fr: usize, closure_fr: usize)
    requires
        old(env).wf(),
        into_fr < old(env)@.frames.len(),
        closure_fr < old(env)@.frames.len(),
    ensures
        final(env).wf(),
        env_extends(old(env)@, final(env)@),
        final(env)@.frames.len() == old(env)@.frames.len(),
        final(env)@.cells == old(env)@.cells,
        final(env)@.output == old(env)@.output,
        forall|i: int|
            0 <= i < final(env)@.frames.len() && i != into_fr ==> final(env)@.frames[i]
                == old(env)@.frames[i],
        final(env)@.frames[into_fr as int].parent == old(env)@.frames[into_fr as int].parent,
        final(env)@.frames[into_fr as int].map == old(env)@.frames[into_fr as int].map.insert(
            "not"@,
            comparison::not_closure(closure_fr as int),
        ),
{
    comparison::insert_core_closures(env, into_fr, closure_fr);
}

/// Parses and evaluates one expression that must denote a function, as
/// startup code for builtins written in the language itself would: a parse
/// error is carried through with the environment untouched, evaluation
/// proceeds exactly as `eval_s` says, and a value that is not a function
/// is refused.
pub fn run_to_closure(expr_src: &str, env: &mut Env, fr: usize, fuel: u64) -> (r: Result<
    Value,
    RuntimeError,
>)
    requires
        old(env).wf(),
        fr < old(env)@.frames.len(),
    ensures
        final(env).wf(),
        env_extends(old(env)@, final(env)@),
        r matches Ok(v) ==> (v@ is Function && val_wf(
            v@,
            final(env)@.frames.len() as int,
            final(env)@.cells.len() as int,
        )),
        ({
            match crate::parser::parse_chars_s(expr_src@, 0).0 {
                Err(pe) => final(env)@ == old(env)@ && (r matches Err(e) && e@
                    == ErrM::ParseError(pe)),
                Ok(em) => ({
                    let (st1, rm) = eval_s(em, old(env)@, fr as int, fuel as nat);
                    &&& final(env)@ == st1
                    &&& match rm {
                        Err(erm) => (r matches Err(e) && e@ == erm),
                        Ok(vm) => if vm is Function {
                            (r matches Ok(v) && v@ == vm)
                        } else {
                            (r matches Err(e) && e@ == ErrM::Misc)
                        },
                    }
                }),
            }
        }),
{
    let parsed = match crate::parser::parse_text_to_expression(expr_src) {
        Ok(e) => e,
        Err(pe) => {
            return Err(RuntimeError::ParseError(pe));
        },
    };
    let v = match crate::evaluator::evaluate_expr(&parsed, env, fr, fuel) {
        Ok(v) => v,
        Err(e) => {
            return Err(e);
        },
    };
    match v {
        Value::Function(fb) => Ok(Value::Function(fb)),
        _ => Err(RuntimeError::Misc),
    }
}

} // verus!
