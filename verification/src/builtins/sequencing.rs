//! The control-flow special forms: `if` and `do`. Both receive their
//! argument expressions unevaluated and decide what to evaluate.

use vstd::prelude::*;

use crate::builtins::{assert_args_length_at_least, assert_args_length_between};
use crate::env::{env_extends, Env};
use crate::evaluator::{evaluate_expr, res_matches, RuntimeError};
use crate::semantics::{do_s, special_s, sub1};
use crate::types::{exprs_view, val_wf, Expr, ExprBuiltin, FnM, FunctionBody, ValM, Value};
use crate::types::{lemma_exprs_view_index, lemma_exprs_view_len};

verus! {

/// The bindings this module installs.
pub open spec fn bindings(m: Map<Seq<char>, ValM>) -> Map<Seq<char>, ValM> {
    m.insert("if"@, ValM::Function(FnM::BuiltinExpressions(ExprBuiltin::If))).insert(
        "do"@,
        ValM::Function(FnM::BuiltinExpressions(ExprBuiltin::Do)),
    )
}

/// Installs `if` and `do` into frame `fr`.
pub fn insert_functions(env: &mut Env, fr: usize)
    requires
        old(env).wf(),
        fr < old(env)@.frames.len(),
    ensures
        final(env).wf(),
        env_extends(old(env)@, final(env)@),
        final(env)@.frames.len() == old(env)@.frames.len(),
        final(env)@.cells == old(env)@.cells,
        final(env)@.output == old(env)@.output,
        forall|i: int|
            0 <= i < final(env)@.frames.len() && i != fr ==> final(env)@.frames[i]
                == old(env)@.frames[i],
        final(env)@.frames[fr as int].parent == old(env)@.frames[fr as int].parent,
        final(env)@.frames[fr as int].map == bindings(old(env)@.frames[fr as int].map),
{
    env.insert(
        fr,
        "if".to_owned(),
        Value::Function(FunctionBody::BuiltinExpressions(ExprBuiltin::If)),
    );
    env.insert(
        fr,
        "do".to_owned(),
        Value::Function(FunctionBody::BuiltinExpressions(ExprBuiltin::Do)),
    );
    proof {
        assert(final(env)@.frames =~= old(env)@.frames.update(
            fr as int,
            final(env)@.frames[fr as int],
        ));
    }
}

/// The `if` form: evaluates the guard; `false` and `nil` take the else
/// branch, everything else the then branch; a missing else branch yields
/// `nil`.
pub fn if_f(env: &mut Env, fr: usize, args: Vec<Expr>, fuel: u64) -> (r: Result<
    Value,
    RuntimeError,
>)
    requires
        old(env).wf(),
        fr < old(env)@.frames.len(),
    ensures
        final(env).wf(),
        env_extends(old(env)@, final(env)@),
        ({
            let (st1, rm) = special_s(
                ExprBuiltin::If,
                exprs_view(args@),
                old(env)@,
                fr as int,
                fuel as nat,
            );
            final(env)@ == st1 && res_matches(r, rm)
        }),
        r matches Ok(v) ==> val_wf(
            v@,
            final(env)@.frames.len() as int,
            final(env)@.cells.len() as int,
        ),
    decreases fuel, 7int, 0int,
{
    broadcast use lemma_exprs_view_len, lemma_exprs_view_index;

    if fuel == 0 {
        return Err(RuntimeError::RecursionDepthExceeded);
    }
    match assert_args_length_between(&args, 2, 3) {
        Err(e) => {
            return Err(e);
        },
        Ok(_) => {},
    }
    proof {
        assert(sub1(fuel as nat) == (fuel - 1) as nat);
    }
    let guard = match evaluate_expr(&args[0], env, fr, fuel - 1) {
        Err(e) => {
            return Err(e);
        },
        Ok(g) => g,
    };
    let truthy_guard = match guard {
        Value::Boolean(b) => b,
        Value::Nil => false,
        _ => true,
    };
    if truthy_guard {
        evaluate_expr(&args[1], env, fr, fuel - 1)
    } else if args.len() == 3 {
        evaluate_expr(&args[2], env, fr, fuel - 1)
    } else {
        Ok(Value::Nil)
    }
}

/// The `do` form: evaluates every expression in order and returns the last
/// result.
#[verifier::loop_isolation(false)]
pub fn do_f(env: &mut Env, fr: usize, args: Vec<Expr>, fuel: u64) -> (r: Result<
    Value,
    RuntimeError,
>)
    requires
        old(env).wf(),
        fr < old(env)@.frames.len(),
    ensures
        final(env).wf(),
        env_extends(old(env)@, final(env)@),
        ({
            let (st1, rm) = special_s(
                ExprBuiltin::Do,
                exprs_view(args@),
                old(env)@,
                fr as int,
                fuel as nat,
            );
            final(env)@ == st1 && res_matches(r, rm)
        }),
        r matches Ok(v) ==> val_wf(
            v@,
            final(env)@.frames.len() as int,
            final(env)@.cells.len() as int,
        ),
    decreases fuel, 7int, 0int,
{
    broadcast use lemma_exprs_view_len, lemma_exprs_view_index;

    if fuel == 0 {
        return Err(RuntimeError::RecursionDepthExceeded);
    }
    match assert_args_length_at_least(&args, 1) {
        Err(e) => {
            return Err(e);
        },
        Ok(_) => {},
    }
    let ghost st0 = old(env)@;
    let ghost spec_args = exprs_view(args@);
    proof {
        assert(spec_args.skip(0int) =~= spec_args);
        assert(sub1(fuel as nat) == (fuel - 1) as nat);
    }
    let mut i: usize = 0;
    loop
        invariant
            0 <= i < args@.len(),
            env.wf(),
            fr < env@.frames.len(),
            env_extends(st0, env@),
            fuel >= 1,
            do_s(spec_args, st0, fr as int, fuel as nat) == do_s(
                spec_args.skip(i as int),
                env@,
                fr as int,
                fuel as nat,
            ),
        decreases args@.len() - i,
    {
        proof {
            assert(spec_args.skip(i as int)[0] == spec_args[i as int]);
            assert(spec_args.skip(i as int).drop_first() =~= spec_args.skip(i + 1));
        }
        let v = match evaluate_expr(&args[i], env, fr, fuel - 1) {
            Err(e) => {
                return Err(e);
            },
            Ok(v) => v,
        };
        if i == args.len() - 1 {
            return Ok(v);
        }
        i = i + 1;
    }
}

} // verus!
