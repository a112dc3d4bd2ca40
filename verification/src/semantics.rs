//! The ghost interpreter: a mathematical account of evaluation.
//!
//! `eval_s` maps an expression, an environment state and a starting frame
//! to the state and outcome that evaluating it produces. The executable
//! evaluator's contract says that it returns exactly what `eval_s` says,
//! so every rule of the language — lexical scoping, closure capture,
//! variadic binding, argument order, the effect of every builtin — is
//! written down here once and proved of the code.
//!
//! Evaluation depth is bounded by a fuel parameter; a program that nests
//! deeper than its fuel stops with `RecursionDepthExceeded`. The host
//! language would instead grow the call stack without bound.

use vstd::prelude::*;

use crate::env::{lookup_chain, EnvM, FrameM};
use crate::evaluator::{ErrM, TypeError};
use crate::printer::{print_parts, print_val};
use crate::text::join_seqs;
use crate::env::env_wf;
use crate::types::{to_hashable_m, to_seq_m, val_eq, val_wf, ExprBuiltin, ExprM, FnM, HvM, ValM,
    ValueBuiltin};

verus! {

/// One unit of fuel spent; zero fuel stays zero.
pub open spec fn sub1(fuel: nat) -> nat {
    if fuel == 0 {
        0
    } else {
        (fuel - 1) as nat
    }
}

/// Everything but `false` and `nil` is true.
pub open spec fn truthy(v: ValM) -> bool {
    match v {
        ValM::Boolean(b) => b,
        ValM::Nil => false,
        _ => true,
    }
}

/// Inserting into a hash map: the first entry with the same key is
/// replaced, else the new entry goes to the end.
pub open spec fn hmap_insert_m(m: Seq<(HvM, ValM)>, k: HvM, v: ValM) -> Seq<(HvM, ValM)>
    decreases m,
{
    if m.len() == 0 {
        seq![(k, v)]
    } else if m[0].0 == k {
        seq![(k, v)] + m.drop_first()
    } else {
        seq![m[0]] + hmap_insert_m(m.drop_first(), k, v)
    }
}

/// A new frame with the given parent, appended to the arena.
pub open spec fn st_push_frame(st: EnvM, parent: int) -> EnvM {
    EnvM { frames: st.frames.push(FrameM { map: Map::empty(), parent: Some(parent) }), ..st }
}

/// One binding added to frame `fr`.
pub open spec fn st_insert(st: EnvM, fr: int, name: Seq<char>, v: ValM) -> EnvM {
    EnvM {
        frames: st.frames.update(
            fr,
            FrameM { map: st.frames[fr].map.insert(name, v), parent: st.frames[fr].parent },
        ),
        ..st
    }
}

/// Positional parameters bound to their argument values, in order; a later
/// duplicate name shadows an earlier one.
pub open spec fn bind_map(
    m: Map<Seq<char>, ValM>,
    params: Seq<Seq<char>>,
    vals: Seq<ValM>,
) -> Map<Seq<char>, ValM>
    decreases params,
{
    if params.len() == 0 || vals.len() == 0 {
        m
    } else {
        bind_map(m.insert(params[0], vals[0]), params.drop_first(), vals.drop_first())
    }
}

/// Wrapping 64-bit addition over the mathematical integers.
pub open spec fn add_wrap(a: int, b: int) -> int {
    vstd::wrapping::i64_specs::wrapping_add(a as i64, b as i64) as int
}

/// Wrapping 64-bit subtraction over the mathematical integers.
pub open spec fn sub_wrap(a: int, b: int) -> int {
    vstd::wrapping::i64_specs::wrapping_sub(a as i64, b as i64) as int
}

/// Wrapping 64-bit multiplication over the mathematical integers.
pub open spec fn mul_wrap(a: int, b: int) -> int {
    vstd::wrapping::i64_specs::wrapping_mul(a as i64, b as i64) as int
}

/// Truncating 64-bit division; the one overflowing case wraps.
pub open spec fn div_wrap(a: int, b: int) -> int {
    match (a as i64).checked_div(b as i64) {
        Some(q) => q as int,
        None => i64::MIN as int,
    }
}

/// The length of a sequence clipped to the 64-bit integer domain, as the
/// `count` builtin reports it.
pub open spec fn len_val(n: nat) -> int {
    n as u64 as i64 as int
}

/// What one value-receiving builtin returns, and how it changes the state:
/// only `atom` (a new cell), `prn` and `println` (a new output line) touch
/// the state.
pub open spec fn builtin_s(b: ValueBuiltin, vals: Seq<ValM>, st: EnvM) -> (EnvM, Result<
    ValM,
    ErrM,
>) {
    match b {
        ValueBuiltin::Add => if vals.len() != 2 {
            (st, Err(ErrM::WrongNumberOfArgs { given: vals.len() as int, expected: 2 }))
        } else {
            match (vals[0], vals[1]) {
                (ValM::Integer(a), ValM::Integer(c)) => (st, Ok(ValM::Integer(add_wrap(a, c)))),
                _ => (st, Err(ErrM::IncorrectType(TypeError::Misc))),
            }
        },
        ValueBuiltin::Sub => if vals.len() != 2 {
            (st, Err(ErrM::WrongNumberOfArgs { given: vals.len() as int, expected: 2 }))
        } else {
            match (vals[0], vals[1]) {
                (ValM::Integer(a), ValM::Integer(c)) => (st, Ok(ValM::Integer(sub_wrap(a, c)))),
                _ => (st, Err(ErrM::IncorrectType(TypeError::Misc))),
            }
        },
        ValueBuiltin::Mul => if vals.len() != 2 {
            (st, Err(ErrM::WrongNumberOfArgs { given: vals.len() as int, expected: 2 }))
        } else {
            match (vals[0], vals[1]) {
                (ValM::Integer(a), ValM::Integer(c)) => (st, Ok(ValM::Integer(mul_wrap(a, c)))),
                _ => (st, Err(ErrM::IncorrectType(TypeError::Misc))),
            }
        },
        ValueBuiltin::Div => if vals.len() != 2 {
            (st, Err(ErrM::WrongNumberOfArgs { given: vals.len() as int, expected: 2 }))
        } else {
            match (vals[0], vals[1]) {
                (ValM::Integer(a), ValM::Integer(c)) => if c == 0 {
                    (st, Err(ErrM::DivisionByZero))
                } else {
                    (st, Ok(ValM::Integer(div_wrap(a, c))))
                },
                _ => (st, Err(ErrM::IncorrectType(TypeError::Misc))),
            }
        },
        ValueBuiltin::Eq => if vals.len() != 2 {
            (st, Err(ErrM::WrongNumberOfArgs { given: vals.len() as int, expected: 2 }))
        } else {
            (st, Ok(ValM::Boolean(val_eq(vals[0], vals[1]))))
        },
        ValueBuiltin::Lt => if vals.len() != 2 {
            (st, Err(ErrM::WrongNumberOfArgs { given: vals.len() as int, expected: 2 }))
        } else {
            match (vals[0], vals[1]) {
                (ValM::Integer(a), ValM::Integer(c)) => (st, Ok(ValM::Boolean(a < c))),
                _ => (st, Err(ErrM::IncorrectType(TypeError::Misc))),
            }
        },
        ValueBuiltin::Lte => if vals.len() != 2 {
            (st, Err(ErrM::WrongNumberOfArgs { given: vals.len() as int, expected: 2 }))
        } else {
            match (vals[0], vals[1]) {
                (ValM::Integer(a), ValM::Integer(c)) => (st, Ok(ValM::Boolean(a <= c))),
                _ => (st, Err(ErrM::IncorrectType(TypeError::Misc))),
            }
        },
        ValueBuiltin::Gt => if vals.len() != 2 {
            (st, Err(ErrM::WrongNumberOfArgs { given: vals.len() as int, expected: 2 }))
        } else {
            match (vals[0], vals[1]) {
                (ValM::Integer(a), ValM::Integer(c)) => (st, Ok(ValM::Boolean(a > c))),
                _ => (st, Err(ErrM::IncorrectType(TypeError::Misc))),
            }
        },
        ValueBuiltin::Gte => if vals.len() != 2 {
            (st, Err(ErrM::WrongNumberOfArgs { given: vals.len() as int, expected: 2 }))
        } else {
            match (vals[0], vals[1]) {
                (ValM::Integer(a), ValM::Integer(c)) => (st, Ok(ValM::Boolean(a >= c))),
                _ => (st, Err(ErrM::IncorrectType(TypeError::Misc))),
            }
        },
        ValueBuiltin::ListFn => (st, Ok(ValM::List(vals))),
        ValueBuiltin::ListP => if vals.len() != 1 {
            (st, Err(ErrM::WrongNumberOfArgs { given: vals.len() as int, expected: 1 }))
        } else {
            (st, Ok(ValM::Boolean(vals[0] is List)))
        },
        ValueBuiltin::EmptyP => if vals.len() != 1 {
            (st, Err(ErrM::WrongNumberOfArgs { given: vals.len() as int, expected: 1 }))
        } else {
            match to_seq_m(vals[0]) {
                Some(s) => (st, Ok(ValM::Boolean(s.len() == 0))),
                None => (st, Err(ErrM::IncorrectType(TypeError::NotASeq))),
            }
        },
        ValueBuiltin::Count => if vals.len() != 1 {
            (st, Err(ErrM::WrongNumberOfArgs { given: vals.len() as int, expected: 1 }))
        } else {
            match to_seq_m(vals[0]) {
                Some(s) => (st, Ok(ValM::Integer(len_val(s.len())))),
                None => (st, Err(ErrM::IncorrectType(TypeError::NotASeq))),
            }
        },
        ValueBuiltin::Prn => (
            EnvM { output: st.output.push(join_seqs(print_parts(vals, true), seq![' '])), ..st },
            Ok(ValM::Nil),
        ),
        ValueBuiltin::PrintLine => (
            EnvM { output: st.output.push(join_seqs(print_parts(vals, false), seq![' '])), ..st },
            Ok(ValM::Nil),
        ),
        ValueBuiltin::PrStr => (
            st,
            Ok(ValM::String(join_seqs(print_parts(vals, true), seq![' ']))),
        ),
        ValueBuiltin::StrFn => (
            st,
            Ok(ValM::String(join_seqs(print_parts(vals, false), Seq::empty()))),
        ),
        ValueBuiltin::AtomFn => if vals.len() != 1 {
            (st, Err(ErrM::WrongNumberOfArgs { given: vals.len() as int, expected: 1 }))
        } else {
            (
                EnvM { cells: st.cells.push(vals[0]), ..st },
                Ok(ValM::Atom(st.cells.len() as int)),
            )
        },
        ValueBuiltin::Deref => if vals.len() != 1 {
            (st, Err(ErrM::WrongNumberOfArgs { given: vals.len() as int, expected: 1 }))
        } else {
            match vals[0] {
                ValM::Atom(i) => if 0 <= i < st.cells.len() {
                    (st, Ok(st.cells[i]))
                } else {
                    (st, Err(ErrM::IncorrectType(TypeError::Misc)))
                },
                _ => (st, Err(ErrM::IncorrectType(TypeError::Misc))),
            }
        },
    }
}

/// The positional names and optional variadic name a parameter list
/// denotes: symbols, with one `&` followed by exactly one more symbol
/// allowed.
pub open spec fn parse_params_s(
    ps: Seq<ExprM>,
    names: Seq<Seq<char>>,
    expecting: bool,
    variadic: Option<Seq<char>>,
) -> Result<(Seq<Seq<char>>, Option<Seq<char>>), ErrM>
    decreases ps,
{
    if ps.len() == 0 {
        if expecting && variadic is None {
            Err(ErrM::Misc)
        } else {
            Ok((names, variadic))
        }
    } else {
        match ps[0] {
            ExprM::Symbol(name) => if name == seq!['&'] {
                if expecting {
                    Err(ErrM::Misc)
                } else {
                    parse_params_s(ps.drop_first(), names, true, variadic)
                }
            } else if expecting && variadic is Some {
                Err(ErrM::Misc)
            } else if expecting {
                parse_params_s(ps.drop_first(), names, true, Some(name))
            } else {
                parse_params_s(ps.drop_first(), names.push(name), false, variadic)
            },
            _ => Err(ErrM::ExpectedToBindSymbol),
        }
    }
}

/// Evaluation of one expression. Literals stand for themselves, a symbol
/// resolves through the frame chain, a vector or hash map evaluates its
/// parts left to right, and a non-empty list evaluates its head and applies
/// it to the remaining expressions.
pub open spec fn eval_s(e: ExprM, st: EnvM, fr: int, fuel: nat) -> (EnvM, Result<ValM, ErrM>)
    decreases fuel, 9int, 0int,
{
    if fuel == 0 {
        (st, Err(ErrM::RecursionDepthExceeded))
    } else {
        match e {
            ExprM::Integer(n) => (st, Ok(ValM::Integer(n))),
            ExprM::String(s) => (st, Ok(ValM::String(s))),
            ExprM::Keyword(s) => (st, Ok(ValM::Keyword(s))),
            ExprM::Symbol(s) => match lookup_chain(st.frames, fr, s) {
                Some(v) => (st, Ok(v)),
                None => (st, Err(ErrM::UnboundSymbol(s))),
            },
            ExprM::Nil => (st, Ok(ValM::Nil)),
            ExprM::Boolean(b) => (st, Ok(ValM::Boolean(b))),
            ExprM::Quote(_) => (st, Err(ErrM::Misc)),
            ExprM::Quasiquote(_) => (st, Err(ErrM::Misc)),
            ExprM::Unquote(_) => (st, Err(ErrM::Misc)),
            ExprM::SpliceUnquote(_) => (st, Err(ErrM::Misc)),
            ExprM::List(elems) => if elems.len() == 0 {
                (st, Ok(ValM::List(Seq::empty())))
            } else {
                let (st1, h) = eval_s(elems[0], st, fr, sub1(fuel));
                match h {
                    Err(er) => (st1, Err(er)),
                    Ok(hv) => match hv {
                        ValM::Function(fb) => apply_s(fb, elems.drop_first(), st1, fr, fuel),
                        _ => (st1, Err(ErrM::CannotApplyNonFunction)),
                    },
                }
            },
            ExprM::Vector(elems) => {
                let (st1, r) = eval_elems_s(elems, st, fr, fuel, Seq::empty());
                match r {
                    Ok(vs) => (st1, Ok(ValM::Vector(vs))),
                    Err(er) => (st1, Err(er)),
                }
            },
            ExprM::HashMap(pairs) => {
                let (st1, r) = eval_pairs_s(pairs, st, fr, fuel, Seq::empty());
                match r {
                    Ok(m) => (st1, Ok(ValM::HashMap(m))),
                    Err(er) => (st1, Err(er)),
                }
            },
        }
    }
}

/// Left-to-right evaluation of argument expressions, threading the state;
/// the first error wins.
pub open spec fn eval_elems_s(
    elems: Seq<ExprM>,
    st: EnvM,
    fr: int,
    fuel: nat,
    acc: Seq<ValM>,
) -> (EnvM, Result<Seq<ValM>, ErrM>)
    decreases fuel, 6int, elems.len(),
{
    if elems.len() == 0 {
        (st, Ok(acc))
    } else if fuel == 0 {
        (st, Err(ErrM::RecursionDepthExceeded))
    } else {
        let (st1, r) = eval_s(elems[0], st, fr, sub1(fuel));
        match r {
            Err(er) => (st1, Err(er)),
            Ok(v) => eval_elems_s(elems.drop_first(), st1, fr, fuel, acc.push(v)),
        }
    }
}

/// Left-to-right evaluation of the key and value expressions of a hash-map
/// literal; a key must be hashable.
pub open spec fn eval_pairs_s(
    pairs: Seq<(ExprM, ExprM)>,
    st: EnvM,
    fr: int,
    fuel: nat,
    acc: Seq<(HvM, ValM)>,
) -> (EnvM, Result<Seq<(HvM, ValM)>, ErrM>)
    decreases fuel, 6int, pairs.len(),
{
    if pairs.len() == 0 {
        (st, Ok(acc))
    } else if fuel == 0 {
        (st, Err(ErrM::RecursionDepthExceeded))
    } else {
        let (st1, rk) = eval_s(pairs[0].0, st, fr, sub1(fuel));
        match rk {
            Err(er) => (st1, Err(er)),
            Ok(kv) => {
                let (st2, rv) = eval_s(pairs[0].1, st1, fr, sub1(fuel));
                match rv {
                    Err(er) => (st2, Err(er)),
                    Ok(vv) => match to_hashable_m(kv) {
                        None => (st2, Err(ErrM::HashError(kv))),
                        Some(h) => eval_pairs_s(
                            pairs.drop_first(),
                            st2,
                            fr,
                            fuel,
                            hmap_insert_m(acc, h, vv),
                        ),
                    },
                }
            },
        }
    }
}

/// Application of a function value to unevaluated argument expressions. A
/// special form receives them as they are; a value builtin receives their
/// values; a closure checks its arity, evaluates the arguments in the
/// caller's frame, binds them in a new child of its captured frame, and
/// evaluates its body there.
pub open spec fn apply_s(fb: FnM, args: Seq<ExprM>, st: EnvM, fr: int, fuel: nat) -> (EnvM, Result<
    ValM,
    ErrM,
>)
    decreases fuel, 8int, 0int,
{
    if fuel == 0 {
        (st, Err(ErrM::RecursionDepthExceeded))
    } else {
        match fb {
            FnM::BuiltinExpressions(sf) => special_s(sf, args, st, fr, fuel),
            FnM::BuiltinValues(b) => {
                let (st1, r) = eval_elems_s(args, st, fr, fuel, Seq::empty());
                match r {
                    Err(er) => (st1, Err(er)),
                    Ok(vals) => builtin_s(b, vals, st1),
                }
            },
            FnM::Closure { env, params, variadic, body } => {
                if args.len() < params.len() || (args.len() > params.len() && variadic is None) {
                    (
                        st,
                        Err(
                            ErrM::WrongNumberOfArgs {
                                given: args.len() as int,
                                expected: params.len() as int,
                            },
                        ),
                    )
                } else {
                    let (st1, r) = eval_elems_s(
                        args.take(params.len() as int),
                        st,
                        fr,
                        fuel,
                        Seq::empty(),
                    );
                    match r {
                        Err(er) => (st1, Err(er)),
                        Ok(vals) => {
                            let new_fr = st1.frames.len() as int;
                            let st2 = EnvM {
                                frames: st1.frames.push(
                                    FrameM { map: bind_map(Map::empty(), params, vals), parent: Some(env) },
                                ),
                                ..st1
                            };
                            match variadic {
                                Some(vname) => {
                                    let (st3, r2) = eval_elems_s(
                                        args.skip(params.len() as int),
                                        st2,
                                        fr,
                                        fuel,
                                        Seq::empty(),
                                    );
                                    match r2 {
                                        Err(er) => (st3, Err(er)),
                                        Ok(rest) => eval_s(
                                            body,
                                            st_insert(st3, new_fr, vname, ValM::List(rest)),
                                            new_fr,
                                            sub1(fuel),
                                        ),
                                    }
                                },
                                None => eval_s(body, st2, new_fr, sub1(fuel)),
                            }
                        },
                    }
                }
            },
        }
    }
}

/// Dispatch over the special forms.
pub open spec fn special_s(sf: ExprBuiltin, args: Seq<ExprM>, st: EnvM, fr: int, fuel: nat) -> (
    EnvM,
    Result<ValM, ErrM>,
)
    decreases fuel, 7int, 0int,
{
    if fuel == 0 {
        (st, Err(ErrM::RecursionDepthExceeded))
    } else {
        match sf {
            ExprBuiltin::If => if_s(args, st, fr, fuel),
            ExprBuiltin::Do => if args.len() < 1 {
                (st, Err(ErrM::WrongNumberOfArgs { given: args.len() as int, expected: 1 }))
            } else {
                do_s(args, st, fr, fuel)
            },
            ExprBuiltin::Def => def_s(args, st, fr, fuel),
            ExprBuiltin::LetStar => let_s(args, st, fr, fuel),
            ExprBuiltin::FnStar => fn_s(args, st, fr),
        }
    }
}

/// `if`: the guard decides which branch is evaluated; a missing else
/// branch yields `nil`.
pub open spec fn if_s(args: Seq<ExprM>, st: EnvM, fr: int, fuel: nat) -> (EnvM, Result<
    ValM,
    ErrM,
>)
    decreases fuel, 6int, 0int,
{
    if args.len() < 2 || args.len() > 3 {
        (st, Err(ErrM::WrongNumberOfArgs { given: args.len() as int, expected: 2 }))
    } else if fuel == 0 {
        (st, Err(ErrM::RecursionDepthExceeded))
    } else {
        let (st1, rg) = eval_s(args[0], st, fr, sub1(fuel));
        match rg {
            Err(er) => (st1, Err(er)),
            Ok(g) => if truthy(g) {
                eval_s(args[1], st1, fr, sub1(fuel))
            } else if args.len() == 3 {
                eval_s(args[2], st1, fr, sub1(fuel))
            } else {
                (st1, Ok(ValM::Nil))
            },
        }
    }
}

/// `do`: every expression is evaluated in order; the last value is the
/// result.
pub open spec fn do_s(args: Seq<ExprM>, st: EnvM, fr: int, fuel: nat) -> (EnvM, Result<
    ValM,
    ErrM,
>)
    decreases fuel, 6int, args.len(),
{
    if args.len() == 0 {
        (st, Ok(ValM::Nil))
    } else if fuel == 0 {
        (st, Err(ErrM::RecursionDepthExceeded))
    } else {
        let (st1, r) = eval_s(args[0], st, fr, sub1(fuel));
        match r {
            Err(er) => (st1, Err(er)),
            Ok(v) => if args.len() == 1 {
                (st1, Ok(v))
            } else {
                do_s(args.drop_first(), st1, fr, fuel)
            },
        }
    }
}

/// `def!`: the value expression, evaluated in the caller's frame, is bound
/// to the symbol in that same frame and returned.
pub open spec fn def_s(args: Seq<ExprM>, st: EnvM, fr: int, fuel: nat) -> (EnvM, Result<
    ValM,
    ErrM,
>)
    decreases fuel, 6int, 0int,
{
    if args.len() != 2 {
        (st, Err(ErrM::WrongNumberOfArgs { given: args.len() as int, expected: 2 }))
    } else if fuel == 0 {
        (st, Err(ErrM::RecursionDepthExceeded))
    } else {
        match args[0] {
            ExprM::Symbol(id) => {
                let (st1, r) = eval_s(args[1], st, fr, sub1(fuel));
                match r {
                    Err(er) => (st1, Err(er)),
                    Ok(v) => (st_insert(st1, fr, id, v), Ok(v)),
                }
            },
            _ => (st, Err(ErrM::ExpectedToBindSymbol)),
        }
    }
}

/// The bindings of a `let*`, established one after the other in the new
/// frame, so that a later binding sees the earlier ones.
pub open spec fn bindings_s(b: Seq<ExprM>, st: EnvM, fr: int, fuel: nat) -> (EnvM, Result<
    (),
    ErrM,
>)
    decreases fuel, 5int, b.len(),
{
    if b.len() < 2 {
        (st, Ok(()))
    } else if fuel == 0 {
        (st, Err(ErrM::RecursionDepthExceeded))
    } else {
        let (st1, r) = eval_s(b[1], st, fr, sub1(fuel));
        match r {
            Err(er) => (st1, Err(er)),
            Ok(v) => match b[0] {
                ExprM::Symbol(name) => bindings_s(b.skip(2), st_insert(st1, fr, name, v), fr, fuel),
                _ => (st1, Err(ErrM::ExpectedToBindSymbol)),
            },
        }
    }
}

/// `let*`: an even list or vector of alternating names and value
/// expressions, bound in a fresh child frame; the body is evaluated there.
pub open spec fn let_s(args: Seq<ExprM>, st: EnvM, fr: int, fuel: nat) -> (EnvM, Result<
    ValM,
    ErrM,
>)
    decreases fuel, 6int, 0int,
{
    if args.len() != 2 {
        (st, Err(ErrM::WrongNumberOfArgs { given: args.len() as int, expected: 2 }))
    } else if fuel == 0 {
        (st, Err(ErrM::RecursionDepthExceeded))
    } else {
        let bexprs = match args[0] {
            ExprM::List(b) => Some(b),
            ExprM::Vector(b) => Some(b),
            _ => None,
        };
        match bexprs {
            None => (st, Err(ErrM::IncorrectType(TypeError::Misc))),
            Some(b) => if b.len() % 2 != 0 {
                (st, Err(ErrM::UnmatchedLetBindingID))
            } else {
                let new_fr = st.frames.len() as int;
                let st1 = st_push_frame(st, fr);
                let (st2, r) = bindings_s(b, st1, new_fr, fuel);
                match r {
                    Err(er) => (st2, Err(er)),
                    Ok(_) => eval_s(args[1], st2, new_fr, sub1(fuel)),
                }
            },
        }
    }
}

/// `fn*`: a parameter list and a body make a closure that captures the
/// frame it was created in. Nothing is evaluated.
pub open spec fn fn_s(args: Seq<ExprM>, st: EnvM, fr: int) -> (EnvM, Result<ValM, ErrM>) {
    if args.len() != 2 {
        (st, Err(ErrM::WrongNumberOfArgs { given: args.len() as int, expected: 2 }))
    } else {
        let ps = match args[0] {
            ExprM::List(p) => Some(p),
            ExprM::Vector(p) => Some(p),
            _ => None,
        };
        match ps {
            None => (st, Err(ErrM::ExpectedToBindSymbol)),
            Some(p) => match parse_params_s(p, Seq::empty(), false, None) {
                Err(er) => (st, Err(er)),
                Ok((names, variadic)) => (
                    st,
                    Ok(
                        ValM::Function(
                            FnM::Closure { env: fr, params: names, variadic, body: args[1] },
                        ),
                    ),
                ),
            },
        }
    }
}

/// A whole program: each expression evaluated in order against frame `fr`,
/// its value rendered readably, one per line.
pub open spec fn rep_s(exprs: Seq<ExprM>, st: EnvM, fr: int, fuel: nat, acc: Seq<char>) -> (
    EnvM,
    Result<Seq<char>, ErrM>,
)
    decreases exprs,
{
    if exprs.len() == 0 {
        (st, Ok(acc))
    } else {
        let (st1, r) = eval_s(exprs[0], st, fr, fuel);
        match r {
            Err(er) => (st1, Err(er)),
            Ok(v) => rep_s(
                exprs.drop_first(),
                st1,
                fr,
                fuel,
                acc + print_val(v, true) + seq!['\n'],
            ),
        }
    }
}

/// A successful argument evaluation yields one value per expression, after
/// the accumulator.
pub proof fn lemma_eval_elems_s_len(elems: Seq<ExprM>, st: EnvM, fr: int, fuel: nat, acc: Seq<ValM>)
    ensures
        ({
            let (st1, rm) = eval_elems_s(elems, st, fr, fuel, acc);
            rm matches Ok(vs) ==> vs.len() == acc.len() + elems.len()
        }),
    decreases fuel, 6int, elems.len(),
{
    if elems.len() == 0 || fuel == 0 {
    } else {
        let (st1, r) = eval_s(elems[0], st, fr, sub1(fuel));
        match r {
            Err(er) => {},
            Ok(v) => {
                lemma_eval_elems_s_len(elems.drop_first(), st1, fr, fuel, acc.push(v));
            },
        }
    }
}

/// Binding one more parameter at the end is one more insertion.
pub proof fn lemma_bind_map_snoc(
    m: Map<Seq<char>, ValM>,
    params: Seq<Seq<char>>,
    vals: Seq<ValM>,
    p: Seq<char>,
    v: ValM,
)
    requires
        params.len() == vals.len(),
    ensures
        bind_map(m, params.push(p), vals.push(v)) == bind_map(m, params, vals).insert(p, v),
    decreases params,
{
    if params.len() == 0 {
        assert(params.push(p).drop_first() =~= Seq::<Seq<char>>::empty());
        assert(vals.push(v).drop_first() =~= Seq::<ValM>::empty());
        assert(params.push(p)[0] == p);
        assert(vals.push(v)[0] == v);
        assert(bind_map(m, params.push(p), vals.push(v)) == bind_map(
            m.insert(p, v),
            Seq::<Seq<char>>::empty(),
            Seq::<ValM>::empty(),
        ));
        assert(bind_map(
            m.insert(p, v),
            Seq::<Seq<char>>::empty(),
            Seq::<ValM>::empty(),
        ) == m.insert(p, v));
        assert(bind_map(m, params, vals) == m);
    } else {
        assert(params.push(p).drop_first() =~= params.drop_first().push(p));
        assert(vals.push(v).drop_first() =~= vals.drop_first().push(v));
        assert(params.push(p)[0] == params[0]);
        assert(vals.push(v)[0] == vals[0]);
        lemma_bind_map_snoc(
            m.insert(params[0], vals[0]),
            params.drop_first(),
            vals.drop_first(),
            p,
            v,
        );
        assert(bind_map(m, params.push(p), vals.push(v)) == bind_map(
            m.insert(params[0], vals[0]),
            params.drop_first().push(p),
            vals.drop_first().push(v),
        ));
        assert(bind_map(m, params, vals) == bind_map(
            m.insert(params[0], vals[0]),
            params.drop_first(),
            vals.drop_first(),
        ));
    }
}

/// When the key is found first at position `i`, inserting replaces that
/// entry in place.
pub proof fn lemma_hmap_insert_found(m: Seq<(HvM, ValM)>, k: HvM, v: ValM, i: int)
    requires
        0 <= i < m.len(),
        forall|j: int| 0 <= j < i ==> (#[trigger] m[j]).0 != k,
        m[i].0 == k,
    ensures
        hmap_insert_m(m, k, v) == m.update(i, (k, v)),
    decreases i,
{
    if i == 0 {
        assert(hmap_insert_m(m, k, v) =~= m.update(0, (k, v)));
    } else {
        lemma_hmap_insert_found(m.drop_first(), k, v, i - 1);
        assert(m.drop_first().update(i - 1, (k, v)) =~= m.update(i, (k, v)).drop_first());
        assert(hmap_insert_m(m, k, v) =~= m.update(i, (k, v)));
    }
}

/// When the key is absent, inserting appends the entry.
pub proof fn lemma_hmap_insert_absent(m: Seq<(HvM, ValM)>, k: HvM, v: ValM)
    requires
        forall|j: int| 0 <= j < m.len() ==> (#[trigger] m[j]).0 != k,
    ensures
        hmap_insert_m(m, k, v) == m.push((k, v)),
    decreases m,
{
    if m.len() == 0 {
        assert(hmap_insert_m(m, k, v) =~= m.push((k, v)));
    } else {
        lemma_hmap_insert_absent(m.drop_first(), k, v);
        assert(hmap_insert_m(m, k, v) =~= m.push((k, v)));
    }
}

/// A builtin's successful result is well formed when its arguments and the
/// state are.
pub proof fn lemma_builtin_s_wf(b: ValueBuiltin, vals: Seq<ValM>, st: EnvM)
    requires
        env_wf(st),
        forall|i: int|
            0 <= i < vals.len() ==> val_wf(
                #[trigger] vals[i],
                st.frames.len() as int,
                st.cells.len() as int,
            ),
    ensures
        ({
            let (st1, rm) = builtin_s(b, vals, st);
            &&& st1.frames.len() == st.frames.len()
            &&& st1.cells.len() >= st.cells.len()
            &&& (rm matches Ok(v) ==> val_wf(v, st1.frames.len() as int, st1.cells.len() as int))
        }),
{
    let (st1, rm) = builtin_s(b, vals, st);
    match b {
        ValueBuiltin::ListFn => {
        },
        ValueBuiltin::AtomFn => {
        },
        ValueBuiltin::Deref => {
            if vals.len() == 1 {
                match vals[0] {
                    ValM::Atom(i) => {
                        if 0 <= i < st.cells.len() {
                            assert(val_wf(st.cells[i], st.frames.len() as int, st.cells.len() as int));
                        }
                    },
                    _ => {},
                }
            }
        },
        _ => {},
    }
}

} // verus!
