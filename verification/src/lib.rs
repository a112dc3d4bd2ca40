//! A tree-walking evaluator for a small Lisp-family language.
//!
//! The library turns source text into an `Expr` syntax tree, evaluates it
//! against a chain of lexical environment frames, and renders the resulting
//! `Value` back to text. Every public operation carries a contract stated
//! over mathematical views of the data types, and the evaluator itself is
//! specified by a ghost interpreter (`semantics::eval_s`).

use vstd::prelude::*;

pub mod builtins;
pub mod env;
pub mod evaluator;
pub mod laws;
pub mod parser;
pub mod printer;
pub mod semantics;
pub mod text;
pub mod types;

use crate::env::{env_extends, Env};
use crate::evaluator::{evaluate_expr, RuntimeError};
use crate::parser::parse_text_to_expressions;
use crate::printer::{print_val, Printable};
use crate::semantics::rep_s;
use crate::text::{chars_to_string, push_str_chars};
use crate::types::{exprs_view, Expr};
use crate::types::{lemma_exprs_view_index, lemma_exprs_view_len};

verus! {

/// Evaluation depth available to one program: deep enough for any program
/// that the host's own call stack could carry.
pub const DEFAULT_FUEL: u64 = 1000000;

/// Evaluates the expressions in order against frame `fr` and renders each
/// resulting value readably, one per line.
#[verifier::loop_isolation(false)]
pub fn eval_program(exprs: &Vec<Expr>, env: &mut Env, fr: usize, fuel: u64) -> (r: Result<
    String,
    RuntimeError,
>)
    requires
        old(env).wf(),
        fr < old(env)@.frames.len(),
    ensures
        final(env).wf(),
        env_extends(old(env)@, final(env)@),
        ({
            let (st1, rm) = rep_s(
                exprs_view(exprs@),
                old(env)@,
                fr as int,
                fuel as nat,
                Seq::empty(),
            );
            &&& final(env)@ == st1
            &&& match (r, rm) {
                (Ok(s), Ok(sm)) => s@ == sm,
                (Err(e), Err(em)) => e@ == em,
                _ => false,
            }
        }),
{
    broadcast use lemma_exprs_view_len, lemma_exprs_view_index;

    let ghost st0 = old(env)@;
    let ghost spec_exprs = exprs_view(exprs@);
    let mut out: Vec<char> = Vec::new();
    let mut i: usize = 0;
    proof {
        assert(spec_exprs.skip(0int) =~= spec_exprs);
        assert(out@ =~= Seq::<char>::empty());
    }
    while i < exprs.len()
        invariant
            0 <= i <= exprs@.len(),
            env.wf(),
            fr < env@.frames.len(),
            env_extends(st0, env@),
            rep_s(spec_exprs, st0, fr as int, fuel as nat, Seq::empty()) == rep_s(
                spec_exprs.skip(i as int),
                env@,
                fr as int,
                fuel as nat,
                out@,
            ),
        decreases exprs@.len() - i,
    {
        proof {
            assert(spec_exprs.skip(i as int)[0] == spec_exprs[i as int]);
            assert(spec_exprs.skip(i as int).drop_first() =~= spec_exprs.skip(i + 1));
        }
        let v = match evaluate_expr(&exprs[i], env, fr, fuel) {
            Err(e) => {
                return Err(e);
            },
            Ok(v) => v,
        };
        let ghost out_pre = out@;
        let printed = v.print_value(true);
        push_str_chars(&mut out, printed.as_str());
        out.push('\n');
        proof {
            assert(out@ =~= out_pre + print_val(v@, true) + seq!['\n']);
        }
        i = i + 1;
    }
    proof {
        assert(spec_exprs.skip(exprs@.len() as int) =~= Seq::<crate::types::ExprM>::empty());
    }
    Ok(chars_to_string(&out))
}

/// What reading and evaluating a whole source text does: a parse error is
/// returned as it is, with the environment untouched; otherwise every
/// top-level expression is evaluated in order against frame `fr`, the
/// first runtime error is returned with all earlier bindings kept, and on
/// success the result is each value's readable rendering followed by a
/// newline, in order.
pub open spec fn rep_result(input: Seq<char>, st: crate::env::EnvM, fr: int, fuel: nat) -> (
    crate::env::EnvM,
    Result<Seq<char>, crate::evaluator::ErrM>,
) {
    match crate::parser::parse_program_s(input) {
        Err(pe) => (st, Err(crate::evaluator::ErrM::ParseError(pe))),
        Ok(exprs) => rep_s(exprs, st, fr, fuel, Seq::empty()),
    }
}

/// Reads a whole program, evaluates each top-level expression in order
/// against the root frame, and returns their printed values, one per line:
/// exactly what `rep_result` says.
pub fn rep(input: &str, env: &mut Env) -> (r: Result<String, RuntimeError>)
    requires
        old(env).wf(),
        old(env)@.frames.len() >= 1,
    ensures
        final(env).wf(),
        env_extends(old(env)@, final(env)@),
        ({
            let (st1, rm) = rep_result(input@, old(env)@, 0, DEFAULT_FUEL as nat);
            &&& final(env)@ == st1
            &&& match (r, rm) {
                (Ok(out), Ok(om)) => out@ == om,
                (Err(e), Err(em)) => e@ == em,
                _ => false,
            }
        }),
{
    match parse_text_to_expressions(input) {
        Err(pe) => Err(RuntimeError::ParseError(pe)),
        Ok(exprs) => eval_program(&exprs, env, 0, DEFAULT_FUEL),
    }
}

} // verus!
