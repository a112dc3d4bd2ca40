//! The binding special forms: `def!`, `let*` and `fn*`. Each receives its
//! argument expressions unevaluated.

use vstd::prelude::*;

use crate::builtins::assert_args_length;
use crate::env::{env_extends, Env};
use crate::evaluator::{evaluate_expr, res_matches, RuntimeError, TypeError};
use crate::semantics::{bindings_s, special_s, st_insert, st_push_frame, sub1, parse_params_s};
use crate::types::{exprs_view, strings_view, val_wf, Expr, ExprBuiltin, ExprM, FnM, FunctionBody,
    ValM, Value};
use crate::types::{lemma_exprs_view_index, lemma_exprs_view_len, lemma_strings_view_index,
    lemma_strings_view_len};

verus! {

/// The bindings this module installs.
pub open spec fn bindings(m: Map<Seq<char>, ValM>) -> Map<Seq<char>, ValM> {
    m.insert("def!"@, ValM::Function(FnM::BuiltinExpressions(ExprBuiltin::Def))).insert(
        "let*"@,
        ValM::Function(FnM::BuiltinExpressions(ExprBuiltin::LetStar)),
    ).insert("fn*"@, ValM::Function(FnM::BuiltinExpressions(ExprBuiltin::FnStar)))
}

/// Installs `def!`, `let*` and `fn*` into frame `fr`.
pub fn insert_functions(env: &mut Env, fr: usize)
    requires
        old(env).wf(),
        fr < old(env)@.frames.len(),
    ensures
        final(env).wf(),
        env_extends(old(env)@, final(env)@),
        final(env)@.frames.len() == old(env)@.frames.len(),
        final(env)@.cells == old(env)@.cells,
        final(env)@.output == old(env)@.output,
        forall|i: int|
            0 <= i < final(env)@.frames.len() && i != fr ==> final(env)@.frames[i]
                == old(env)@.frames[i],
        final(env)@.frames[fr as int].parent == old(env)@.frames[fr as int].parent,
        final(env)@.frames[fr as int].map == bindings(old(env)@.frames[fr as int].map),
{
    env.insert(
        fr,
        "def!".to_owned(),
        Value::Function(FunctionBody::BuiltinExpressions(ExprBuiltin::Def)),
    );
    env.insert(
        fr,
        "let*".to_owned(),
        Value::Function(FunctionBody::BuiltinExpressions(ExprBuiltin::LetStar)),
    );
    env.insert(
        fr,
        "fn*".to_owned(),
        Value::Function(FunctionBody::BuiltinExpressions(ExprBuiltin::FnStar)),
    );
    proof {
        assert(final(env)@.frames =~= old(env)@.frames.update(
            fr as int,
            final(env)@.frames[fr as int],
        ));
    }
}

/// The `def!` form: evaluates the value expression and binds the result to
/// the symbol in the caller's own frame; the bound value is returned.
pub fn def(env: &mut Env, fr: usize, args: Vec<Expr>, fuel: u64) -> (r: Result<
    Value,
    RuntimeError,
>)
    requires
        old(env).wf(),
        fr < old(env)@.frames.len(),
    ensures
        final(env).wf(),
        env_extends(old(env)@, final(env)@),
        ({
            let (st1, rm) = special_s(
                ExprBuiltin::Def,
                exprs_view(args@),
                old(env)@,
                fr as int,
                fuel as nat,
            );
            final(env)@ == st1 && res_matches(r, rm)
        }),
        r matches Ok(v) ==> val_wf(
            v@,
            final(env)@.frames.len() as int,
            final(env)@.cells.len() as int,
        ),
    decreases fuel, 7int, 0int,
{
    broadcast use lemma_exprs_view_len, lemma_exprs_view_index;

    if fuel == 0 {
        return Err(RuntimeError::RecursionDepthExceeded);
    }
    match assert_args_length(&args, 2) {
        Err(e) => {
            return Err(e);
        },
        Ok(_) => {},
    }
    match &args[0] {
        Expr::Symbol(id) => {
            proof {
                assert(sub1(fuel as nat) == (fuel - 1) as nat);
            }
            let v = match evaluate_expr(&args[1], env, fr, fuel - 1) {
                Err(e) => {
                    return Err(e);
                },
                Ok(v) => v,
            };
            let ghost st1 = env@;
            let bound = v.clone();
            env.insert(fr, id.clone(), bound);
            proof {
                assert(env@ == st_insert(st1, fr as int, id@, v@));
            }
            Ok(v)
        },
        _ => Err(RuntimeError::ExpectedToBindSymbol),
    }
}

/// Establishes the bindings of a `let*` in a fresh child frame of
/// `base_fr`: each value expression is evaluated against the new frame, so
/// a later binding sees the earlier ones. Returns the new frame.
#[verifier::loop_isolation(false)]
pub fn create_environment_for_bindings(
    env: &mut Env,
    base_fr: usize,
    binding_exprs: &Vec<Expr>,
    fuel: u64,
) -> (r: Result<usize, RuntimeError>)
    requires
        old(env).wf(),
        base_fr < old(env)@.frames.len(),
        fuel >= 1,
    ensures
        final(env).wf(),
        env_extends(old(env)@, final(env)@),
        ({
            let st1 = st_push_frame(old(env)@, base_fr as int);
            let nfr = old(env)@.frames.len() as int;
            let (st2, rm) = bindings_s(
                exprs_view(binding_exprs@),
                st1,
                nfr,
                fuel as nat,
            );
            &&& final(env)@ == st2
            &&& match (r, rm) {
                (Ok(id), Ok(u)) => id == nfr && id < final(env)@.frames.len(),
                (Err(e), Err(em)) => e@ == em,
                _ => false,
            }
        }),
    decreases fuel, 7int, 0int,
{
    broadcast use lemma_exprs_view_len, lemma_exprs_view_index;

    let ghost spec_b = exprs_view(binding_exprs@);
    let new_fr = env.create_child_env(base_fr);
    proof {
        assert(env@ == st_push_frame(old(env)@, base_fr as int));
        assert(spec_b.skip(0int) =~= spec_b);
        assert(sub1(fuel as nat) == (fuel - 1) as nat);
    }
    let ghost st1 = env@;
    let mut i: usize = 0;
    while i < binding_exprs.len() && i + 1 < binding_exprs.len()
        invariant
            0 <= i <= binding_exprs@.len(),
            env.wf(),
            new_fr < env@.frames.len(),
            env_extends(st1, env@),
            bindings_s(spec_b, st1, new_fr as int, fuel as nat) == bindings_s(
                spec_b.skip(i as int),
                env@,
                new_fr as int,
                fuel as nat,
            ),
        decreases binding_exprs@.len() - i,
    {
        proof {
            assert(spec_b.skip(i as int)[0] == spec_b[i as int]);
            assert(spec_b.skip(i as int)[1] == spec_b[i + 1]);
            assert(spec_b.skip(i as int).skip(2) =~= spec_b.skip(i + 2));
        }
        let v = match evaluate_expr(&binding_exprs[i + 1], env, new_fr, fuel - 1) {
            Err(e) => {
                return Err(e);
            },
            Ok(v) => v,
        };
        match &binding_exprs[i] {
            Expr::Symbol(name) => {
                let ghost st_mid = env@;
                env.insert(new_fr, name.clone(), v);
                proof {
                    assert(env@ == st_insert(st_mid, new_fr as int, name@, v@));
                }
            },
            _ => {
                return Err(RuntimeError::ExpectedToBindSymbol);
            },
        }
        i = i + 2;
    }
    Ok(new_fr)
}

/// The `let*` form: an even list or vector of alternating names and value
/// expressions, bound in a fresh child frame; the body is evaluated there.
pub fn let_f(env: &mut Env, fr: usize, args: Vec<Expr>, fuel: u64) -> (r: Result<
    Value,
    RuntimeError,
>)
    requires
        old(env).wf(),
        fr < old(env)@.frames.len(),
    ensures
        final(env).wf(),
        env_extends(old(env)@, final(env)@),
        ({
            let (st1, rm) = special_s(
                ExprBuiltin::LetStar,
                exprs_view(args@),
                old(env)@,
                fr as int,
                fuel as nat,
            );
            final(env)@ == st1 && res_matches(r, rm)
        }),
        r matches Ok(v) ==> val_wf(
            v@,
            final(env)@.frames.len() as int,
            final(env)@.cells.len() as int,
        ),
    decreases fuel, 7int, 1int,
{
    broadcast use lemma_exprs_view_len, lemma_exprs_view_index;

    if fuel == 0 {
        return Err(RuntimeError::RecursionDepthExceeded);
    }
    match assert_args_length(&args, 2) {
        Err(e) => {
            return Err(e);
        },
        Ok(_) => {},
    }
    let new_fr = match &args[0] {
        Expr::List(b) => {
            proof {
                lemma_exprs_view_index(args@, 0);
                lemma_exprs_view_len(b@);
            }
            if b.len() % 2 != 0 {
                return Err(RuntimeError::UnmatchedLetBindingID);
            }
            match create_environment_for_bindings(env, fr, b, fuel) {
                Err(e) => {
                    return Err(e);
                },
                Ok(id) => id,
            }
        },
        Expr::Vector(b) => {
            proof {
                lemma_exprs_view_index(args@, 0);
                lemma_exprs_view_len(b@);
            }
            if b.len() % 2 != 0 {
                return Err(RuntimeError::UnmatchedLetBindingID);
            }
            match create_environment_for_bindings(env, fr, b, fuel) {
                Err(e) => {
                    return Err(e);
                },
                Ok(id) => id,
            }
        },
        _ => {
            return Err(RuntimeError::IncorrectType(TypeError::Misc));
        },
    };
    proof {
        assert(sub1(fuel as nat) == (fuel - 1) as nat);
    }
    evaluate_expr(&args[1], env, new_fr, fuel - 1)
}

/// The view of an optional parameter name.
pub open spec fn opt_str_view(o: Option<String>) -> Option<Seq<char>> {
    match o {
        Some(s) => Some(s@),
        None => None,
    }
}

/// The `fn*` form: a parameter list (symbols, with an optional `&` before
/// the final variadic name) and a body make a closure capturing the
/// caller's frame. Nothing is evaluated yet.
#[verifier::loop_isolation(false)]
pub fn fn_f(env: &mut Env, fr: usize, args: Vec<Expr>, fuel: u64) -> (r: Result<
    Value,
    RuntimeError,
>)
    requires
        old(env).wf(),
        fr < old(env)@.frames.len(),
    ensures
        final(env).wf(),
        env_extends(old(env)@, final(env)@),
        ({
            let (st1, rm) = special_s(
                ExprBuiltin::FnStar,
                exprs_view(args@),
                old(env)@,
                fr as int,
                fuel as nat,
            );
            final(env)@ == st1 && res_matches(r, rm)
        }),
        r matches Ok(v) ==> val_wf(
            v@,
            final(env)@.frames.len() as int,
            final(env)@.cells.len() as int,
        ),
    decreases fuel, 7int, 0int,
{
    broadcast use lemma_exprs_view_len, lemma_exprs_view_index, lemma_strings_view_len, lemma_strings_view_index;

    if fuel == 0 {
        return Err(RuntimeError::RecursionDepthExceeded);
    }
    match assert_args_length(&args, 2) {
        Err(e) => {
            return Err(e);
        },
        Ok(_) => {},
    }
    let param_exprs: &Vec<Expr> = match &args[0] {
        Expr::List(p) => p,
        Expr::Vector(p) => p,
        _ => {
            return Err(RuntimeError::ExpectedToBindSymbol);
        },
    };
    let ghost spec_ps = exprs_view(param_exprs@);
    let amp: String = "&".to_owned();
    proof {
        reveal_strlit("&");
        assert("&"@ =~= seq!['&']);
        assert(spec_ps.skip(0int) =~= spec_ps);
        assert(strings_view(Seq::<String>::empty()) =~= Seq::<Seq<char>>::empty());
    }
    let mut param_names: Vec<String> = Vec::new();
    let mut expecting_variadic = false;
    let mut variadic_param: Option<String> = None;
    let mut i: usize = 0;
    while i < param_exprs.len()
        invariant
            0 <= i <= param_exprs@.len(),
            amp@ == seq!['&'],
            parse_params_s(spec_ps, Seq::empty(), false, None) == parse_params_s(
                spec_ps.skip(i as int),
                strings_view(param_names@),
                expecting_variadic,
                opt_str_view(variadic_param),
            ),
        decreases param_exprs@.len() - i,
    {
        proof {
            assert(spec_ps.skip(i as int)[0] == spec_ps[i as int]);
            assert(spec_ps.skip(i as int).drop_first() =~= spec_ps.skip(i + 1));
        }
        match &param_exprs[i] {
            Expr::Symbol(param_name) => {
                if *param_name == amp {
                    if expecting_variadic {
                        return Err(RuntimeError::Misc);
                    }
                    expecting_variadic = true;
                } else if expecting_variadic && variadic_param.is_some() {
                    return Err(RuntimeError::Misc);
                } else if expecting_variadic {
                    variadic_param = Some(param_name.clone());
                } else {
                    let ghost names_old = param_names@;
                    param_names.push(param_name.clone());
                    proof {
                        assert(param_names@.drop_last() =~= names_old);
                        assert(strings_view(param_names@) =~= strings_view(names_old).push(
                            param_name@,
                        ));
                    }
                }
            },
            _ => {
                return Err(RuntimeError::ExpectedToBindSymbol);
            },
        }
        i = i + 1;
    }
    proof {
        assert(spec_ps.skip(param_exprs@.len() as int) =~= Seq::<ExprM>::empty());
    }
    if expecting_variadic && variadic_param.is_none() {
        return Err(RuntimeError::Misc);
    }
    let body = args[1].clone();
    Ok(
        Value::Function(
            FunctionBody::Closure {
                closed_env: fr,
                params: param_names,
                variadic_param,
                body,
            },
        ),
    )
}

} // verus!
