//! Laws the evaluator obeys, stated once over the ghost interpreter and
//! proved for every input.

use vstd::prelude::*;

use crate::env::{lookup_chain, EnvM};
use crate::evaluator::ErrM;
use crate::semantics::{builtin_s, eval_s};
use crate::types::{seq_val_eq, val_eq, FnM, ValM, ValueBuiltin};

verus! {

/// The arithmetic builtins agree with integer arithmetic on two integers:
/// wherever the sum, difference or product fits the 64-bit domain it is
/// returned exactly, and a quotient of non-negative operands with a
/// positive divisor is the integer quotient. A zero divisor is exactly the
/// division error, and any operand that is not an integer is exactly the
/// type error.
pub proof fn law_arithmetic(a: i64, b: i64, st: EnvM)
    ensures
        i64::MIN <= a + b <= i64::MAX ==> builtin_s(
            ValueBuiltin::Add,
            seq![ValM::Integer(a as int), ValM::Integer(b as int)],
            st,
        ) == (st, Ok::<ValM, ErrM>(ValM::Integer(a + b))),
        i64::MIN <= a - b <= i64::MAX ==> builtin_s(
            ValueBuiltin::Sub,
            seq![ValM::Integer(a as int), ValM::Integer(b as int)],
            st,
        ) == (st, Ok::<ValM, ErrM>(ValM::Integer(a - b))),
        i64::MIN <= a * b <= i64::MAX ==> builtin_s(
            ValueBuiltin::Mul,
            seq![ValM::Integer(a as int), ValM::Integer(b as int)],
            st,
        ) == (st, Ok::<ValM, ErrM>(ValM::Integer(a * b))),
        a >= 0 && b > 0 ==> builtin_s(
            ValueBuiltin::Div,
            seq![ValM::Integer(a as int), ValM::Integer(b as int)],
            st,
        ) == (st, Ok::<ValM, ErrM>(ValM::Integer(a as int / b as int))),
        b == 0 ==> builtin_s(
            ValueBuiltin::Div,
            seq![ValM::Integer(a as int), ValM::Integer(b as int)],
            st,
        ) == (st, Err::<ValM, ErrM>(ErrM::DivisionByZero)),
{
    let args = seq![ValM::Integer(a as int), ValM::Integer(b as int)];
    assert(args.len() == 2);
    assert(args[0] == ValM::Integer(a as int));
    assert(args[1] == ValM::Integer(b as int));
}

/// A non-integer operand to an arithmetic builtin is exactly the type
/// error, and the state is untouched.
pub proof fn law_arithmetic_type_error(x: ValM, y: ValM, st: EnvM)
    requires
        !(x is Integer) || !(y is Integer),
    ensures
        builtin_s(ValueBuiltin::Add, seq![x, y], st) == (
            st,
            Err::<ValM, ErrM>(ErrM::IncorrectType(crate::evaluator::TypeError::Misc)),
        ),
{
    let args = seq![x, y];
    assert(args.len() == 2);
    assert(args[0] == x);
    assert(args[1] == y);
}

/// Sequence-coercion equality: a list and a vector with pairwise equal
/// elements are equal under `=`, whichever shape each side has, while `nil`
/// equals no empty sequence — only `nil` itself.
pub proof fn law_equality_coercion(l: Seq<ValM>, v: Seq<ValM>)
    requires
        seq_val_eq(l, v),
    ensures
        val_eq(ValM::List(l), ValM::Vector(v)),
        val_eq(ValM::Vector(l), ValM::List(v)),
        val_eq(ValM::List(l), ValM::List(v)),
        val_eq(ValM::Vector(l), ValM::Vector(v)),
        !val_eq(ValM::Nil, ValM::List(Seq::empty())),
        !val_eq(ValM::Nil, ValM::Vector(Seq::empty())),
        !val_eq(ValM::List(Seq::empty()), ValM::Nil),
{
}

/// The `=` builtin reports exactly the coercion equality of its two
/// arguments and leaves the state untouched.
pub proof fn law_eq_builtin(x: ValM, y: ValM, st: EnvM)
    ensures
        builtin_s(ValueBuiltin::Eq, seq![x, y], st) == (
            st,
            Ok::<ValM, ErrM>(ValM::Boolean(val_eq(x, y))),
        ),
{
    let args = seq![x, y];
    assert(args.len() == 2);
    assert(args[0] == x);
    assert(args[1] == y);
}

/// Applying a symbol that resolves to a value builtin to two integer
/// literals evaluates the literals and hands them to that builtin —
/// nothing else happens to the environment on the way.
pub proof fn law_builtin_application(
    op: Seq<char>,
    bi: ValueBuiltin,
    a: int,
    b: int,
    st: EnvM,
    fr: int,
    fuel: nat,
)
    requires
        fuel >= 2,
        lookup_chain(st.frames, fr, op) == Some(ValM::Function(FnM::BuiltinValues(bi))),
    ensures
        eval_s(
            crate::types::ExprM::List(
                seq![
                    crate::types::ExprM::Symbol(op),
                    crate::types::ExprM::Integer(a),
                    crate::types::ExprM::Integer(b),
                ],
            ),
            st,
            fr,
            fuel,
        ) == builtin_s(bi, seq![ValM::Integer(a), ValM::Integer(b)], st),
{
    let elems = seq![
        crate::types::ExprM::Symbol(op),
        crate::types::ExprM::Integer(a),
        crate::types::ExprM::Integer(b),
    ];
    assert(elems.len() == 3);
    assert(elems[0] == crate::types::ExprM::Symbol(op));
    let args = elems.drop_first();
    assert(args.len() == 2);
    assert(args[0] == crate::types::ExprM::Integer(a));
    assert(args[1] == crate::types::ExprM::Integer(b));
    let s1 = crate::semantics::sub1(fuel);
    assert(s1 >= 1);
    assert(eval_s(elems[0], st, fr, s1) == (st, Ok::<ValM, crate::evaluator::ErrM>(
        ValM::Function(FnM::BuiltinValues(bi)),
    )));
    assert(eval_s(args[0], st, fr, s1) == (st, Ok::<ValM, crate::evaluator::ErrM>(
        ValM::Integer(a),
    )));
    assert(eval_s(args[1], st, fr, s1) == (st, Ok::<ValM, crate::evaluator::ErrM>(
        ValM::Integer(b),
    )));
    let acc0 = Seq::<ValM>::empty();
    let acc1 = acc0.push(ValM::Integer(a));
    let acc2 = acc1.push(ValM::Integer(b));
    assert(args.drop_first().drop_first() =~= Seq::<crate::types::ExprM>::empty());
    assert(crate::semantics::eval_elems_s(args.drop_first().drop_first(), st, fr, fuel, acc2) == (
        st,
        Ok::<Seq<ValM>, crate::evaluator::ErrM>(acc2),
    ));
    assert(args.drop_first()[0] == crate::types::ExprM::Integer(b));
    assert(crate::semantics::eval_elems_s(args.drop_first(), st, fr, fuel, acc1) == (
        st,
        Ok::<Seq<ValM>, crate::evaluator::ErrM>(acc2),
    ));
    assert(crate::semantics::eval_elems_s(args, st, fr, fuel, acc0) == (
        st,
        Ok::<Seq<ValM>, crate::evaluator::ErrM>(acc2),
    ));
    assert(acc2 =~= seq![ValM::Integer(a), ValM::Integer(b)]);
    assert(crate::semantics::apply_s(FnM::BuiltinValues(bi), args, st, fr, fuel) == builtin_s(
        bi,
        acc2,
        st,
    ));
    assert(eval_s(crate::types::ExprM::List(elems), st, fr, fuel)
        == crate::semantics::apply_s(FnM::BuiltinValues(bi), args, st, fr, fuel));
}

/// Evaluating `(+ a b)` in any environment whose `+` is the addition
/// builtin yields exactly the integer sum, whenever that sum fits the
/// 64-bit domain, and leaves the environment untouched.
pub proof fn law_addition_expression(a: i64, b: i64, st: EnvM, fr: int, fuel: nat)
    requires
        fuel >= 2,
        lookup_chain(st.frames, fr, "+"@) == Some(
            ValM::Function(FnM::BuiltinValues(ValueBuiltin::Add)),
        ),
        i64::MIN <= a + b <= i64::MAX,
    ensures
        eval_s(
            crate::types::ExprM::List(
                seq![
                    crate::types::ExprM::Symbol("+"@),
                    crate::types::ExprM::Integer(a as int),
                    crate::types::ExprM::Integer(b as int),
                ],
            ),
            st,
            fr,
            fuel,
        ) == (st, Ok::<ValM, crate::evaluator::ErrM>(ValM::Integer(a + b))),
{
    law_builtin_application(
        "+"@,
        ValueBuiltin::Add,
        a as int,
        b as int,
        st,
        fr,
        fuel,
    );
    law_arithmetic(a, b, st);
}

/// Closures capture their definition site: applying a closure whose arity
/// matches evaluates the arguments against the caller's frame `fr`, but
/// evaluates the body in a brand-new frame whose parent is the frame `ce`
/// the closure captured — never the caller's. Free symbols in the body
/// therefore resolve through the definition-site chain.
pub proof fn law_closure_capture(
    ce: int,
    params: Seq<Seq<char>>,
    body: crate::types::ExprM,
    args: Seq<crate::types::ExprM>,
    st: EnvM,
    fr: int,
    fuel: nat,
)
    requires
        fuel >= 1,
        args.len() == params.len(),
    ensures
        ({
            let fb = FnM::Closure { env: ce, params, variadic: None, body };
            let (st1, rv) = crate::semantics::eval_elems_s(
                args.take(params.len() as int),
                st,
                fr,
                fuel,
                Seq::empty(),
            );
            rv matches Ok(vals) ==> crate::semantics::apply_s(fb, args, st, fr, fuel) == eval_s(
                body,
                crate::env::EnvM {
                    frames: st1.frames.push(
                        crate::env::FrameM {
                            map: crate::semantics::bind_map(Map::empty(), params, vals),
                            parent: Some(ce),
                        },
                    ),
                    ..st1
                },
                st1.frames.len() as int,
                crate::semantics::sub1(fuel),
            )
        }),
{
}

/// Variadic binding: the positional arguments are evaluated against the
/// caller's frame and bound in the new frame; the remaining arguments are
/// then evaluated, also against the caller's frame and left to right, and
/// bound under the variadic name as one list that keeps their order; the
/// body is evaluated in that frame.
pub proof fn law_variadic_binding(
    ce: int,
    params: Seq<Seq<char>>,
    vname: Seq<char>,
    body: crate::types::ExprM,
    args: Seq<crate::types::ExprM>,
    st: EnvM,
    fr: int,
    fuel: nat,
)
    requires
        fuel >= 1,
        args.len() >= params.len(),
    ensures
        ({
            let fb = FnM::Closure { env: ce, params, variadic: Some(vname), body };
            let (st1, rv) = crate::semantics::eval_elems_s(
                args.take(params.len() as int),
                st,
                fr,
                fuel,
                Seq::empty(),
            );
            rv matches Ok(vals) ==> ({
                let new_fr = st1.frames.len() as int;
                let st2 = crate::env::EnvM {
                    frames: st1.frames.push(
                        crate::env::FrameM {
                            map: crate::semantics::bind_map(Map::empty(), params, vals),
                            parent: Some(ce),
                        },
                    ),
                    ..st1
                };
                let (st3, rr) = crate::semantics::eval_elems_s(
                    args.skip(params.len() as int),
                    st2,
                    fr,
                    fuel,
                    Seq::empty(),
                );
                &&& (rr matches Err(em) ==> crate::semantics::apply_s(fb, args, st, fr, fuel) == (
                    st3,
                    Err::<ValM, ErrM>(em),
                ))
                &&& (rr matches Ok(rest) ==> crate::semantics::apply_s(fb, args, st, fr, fuel)
                    == eval_s(
                    body,
                    crate::semantics::st_insert(st3, new_fr, vname, ValM::List(rest)),
                    new_fr,
                    crate::semantics::sub1(fuel),
                ))
            })
        }),
{
}

/// A symbol evaluates to exactly what the frame chain resolves it to, and
/// evaluation of a symbol never changes the environment: what `let*` binds
/// in a child frame shadows, but never alters, the parent's binding.
pub proof fn law_symbol_lookup(name: Seq<char>, st: EnvM, fr: int, fuel: nat)
    requires
        fuel >= 1,
    ensures
        eval_s(crate::types::ExprM::Symbol(name), st, fr, fuel) == (
            match lookup_chain(st.frames, fr, name) {
                Some(v) => (st, Ok::<ValM, ErrM>(v)),
                None => (st, Err::<ValM, ErrM>(ErrM::UnboundSymbol(name))),
            }
        ),
{
}

} // verus!
