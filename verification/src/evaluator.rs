//! The evaluator: structural recursion over `Expr` against an `Env`.

use vstd::prelude::*;

use crate::env::{env_extends, Env};
use crate::parser::{PErrM, ParseError};
use crate::semantics::{apply_s, builtin_s, eval_elems_s, eval_pairs_s, eval_s, sub1,
    lemma_builtin_s_wf, lemma_hmap_insert_absent, lemma_hmap_insert_found, hmap_insert_m};
use crate::types::{exprs_view, expr_pairs_view, hv_pairs_view, val_view, val_wf,
    vals_view, Expr, ExprM, FunctionBody, HashableValue, ValM, Value, ValueBuiltin};
use crate::types::{lemma_exprs_view_index, lemma_exprs_view_len, lemma_expr_pairs_view_index,
    lemma_expr_pairs_view_len, lemma_hv_pairs_view_index, lemma_hv_pairs_view_len,
    lemma_vals_view_index, lemma_vals_view_len};

verus! {

/// A runtime type mismatch.
#[derive(Clone, Copy, Debug, PartialEq, Eq, Structural)]
pub enum TypeError {
    /// An operand had the wrong runtime type.
    Misc,
    /// A value that cannot be viewed as a sequence stood where one was
    /// needed.
    NotASeq,
}

/// Every way an evaluation can fail. Each failure is terminal for the
/// expression being evaluated and is surfaced to the caller unchanged.
#[derive(Debug)]
pub enum RuntimeError {
    /// The reader rejected the source text; carried through unchanged.
    ParseError(ParseError),
    /// A value that cannot key a hash map stood in key position.
    HashError(Value),
    /// Symbol lookup exhausted the whole frame chain.
    UnboundSymbol(String),
    /// The head of a list did not evaluate to a function.
    CannotApplyNonFunction,
    /// Arity mismatch for a builtin, special form, or closure.
    FunctionApplicationWrongNumberOfArgs { given: usize, expected: usize },
    /// A binding position held something other than a symbol.
    ExpectedToBindSymbol,
    /// An operand had the wrong runtime type.
    IncorrectType(TypeError),
    /// A `let*` binding list had odd length.
    UnmatchedLetBindingID,
    /// The divisor of an integer division was zero. The host language traps
    /// here; this library reports an error value instead.
    DivisionByZero,
    /// Evaluation nested deeper than the fuel given to it. The host
    /// language would grow the call stack without bound here.
    RecursionDepthExceeded,
    /// A miscellaneous error, e.g. a malformed parameter list.
    Misc,
}

/// Mathematical mirror of `RuntimeError`.
pub ghost enum ErrM {
    ParseError(PErrM),
    HashError(ValM),
    UnboundSymbol(Seq<char>),
    CannotApplyNonFunction,
    WrongNumberOfArgs { given: int, expected: int },
    ExpectedToBindSymbol,
    IncorrectType(TypeError),
    UnmatchedLetBindingID,
    DivisionByZero,
    RecursionDepthExceeded,
    Misc,
}

impl View for RuntimeError {
    type V = ErrM;

    open spec fn view(&self) -> ErrM {
        match self {
            RuntimeError::ParseError(e) => ErrM::ParseError(e@),
            RuntimeError::HashError(v) => ErrM::HashError(v@),
            RuntimeError::UnboundSymbol(s) => ErrM::UnboundSymbol(s@),
            RuntimeError::CannotApplyNonFunction => ErrM::CannotApplyNonFunction,
            RuntimeError::FunctionApplicationWrongNumberOfArgs { given, expected } => ErrM::WrongNumberOfArgs {
                given: *given as int,
                expected: *expected as int,
            },
            RuntimeError::ExpectedToBindSymbol => ErrM::ExpectedToBindSymbol,
            RuntimeError::IncorrectType(t) => ErrM::IncorrectType(*t),
            RuntimeError::UnmatchedLetBindingID => ErrM::UnmatchedLetBindingID,
            RuntimeError::DivisionByZero => ErrM::DivisionByZero,
            RuntimeError::RecursionDepthExceeded => ErrM::RecursionDepthExceeded,
            RuntimeError::Misc => ErrM::Misc,
        }
    }
}

impl RuntimeError {
    /// Equality of two errors: the same variant with equal payloads; the
    /// values of two `HashError`s compare under the coercion rule.
    pub fn err_eq(&self, other: &RuntimeError) -> (r: bool)
        ensures
            r == err_eq_m(self@, other@),
    {
        match (self, other) {
            (RuntimeError::ParseError(a), RuntimeError::ParseError(b)) => *a == *b,
            (RuntimeError::HashError(a), RuntimeError::HashError(b)) => a.value_eq(b),
            (RuntimeError::UnboundSymbol(a), RuntimeError::UnboundSymbol(b)) => *a == *b,
            (RuntimeError::CannotApplyNonFunction, RuntimeError::CannotApplyNonFunction) => true,
            (
                RuntimeError::FunctionApplicationWrongNumberOfArgs { given: g1, expected: e1 },
                RuntimeError::FunctionApplicationWrongNumberOfArgs { given: g2, expected: e2 },
            ) => g1 == g2 && e1 == e2,
            (RuntimeError::ExpectedToBindSymbol, RuntimeError::ExpectedToBindSymbol) => true,
            (RuntimeError::IncorrectType(a), RuntimeError::IncorrectType(b)) => *a == *b,
            (RuntimeError::UnmatchedLetBindingID, RuntimeError::UnmatchedLetBindingID) => true,
            (RuntimeError::DivisionByZero, RuntimeError::DivisionByZero) => true,
            (RuntimeError::RecursionDepthExceeded, RuntimeError::RecursionDepthExceeded) => true,
            (RuntimeError::Misc, RuntimeError::Misc) => true,
            _ => false,
        }
    }
}

/// Equality of error views: the same variant with equal payloads, the
/// values of two `HashError`s compared under the coercion rule.
pub open spec fn err_eq_m(a: ErrM, b: ErrM) -> bool {
    match (a, b) {
        (ErrM::ParseError(x), ErrM::ParseError(y)) => x == y,
        (ErrM::HashError(x), ErrM::HashError(y)) => crate::types::val_eq(x, y),
        (ErrM::UnboundSymbol(x), ErrM::UnboundSymbol(y)) => x == y,
        (ErrM::CannotApplyNonFunction, ErrM::CannotApplyNonFunction) => true,
        (
            ErrM::WrongNumberOfArgs { given: g1, expected: e1 },
            ErrM::WrongNumberOfArgs { given: g2, expected: e2 },
        ) => g1 == g2 && e1 == e2,
        (ErrM::ExpectedToBindSymbol, ErrM::ExpectedToBindSymbol) => true,
        (ErrM::IncorrectType(x), ErrM::IncorrectType(y)) => x == y,
        (ErrM::UnmatchedLetBindingID, ErrM::UnmatchedLetBindingID) => true,
        (ErrM::DivisionByZero, ErrM::DivisionByZero) => true,
        (ErrM::RecursionDepthExceeded, ErrM::RecursionDepthExceeded) => true,
        (ErrM::Misc, ErrM::Misc) => true,
        _ => false,
    }
}

impl PartialEq for RuntimeError {
    fn eq(&self, other: &Self) -> (r: bool) {
        self.err_eq(other)
    }
}

impl vstd::std_specs::cmp::PartialEqSpecImpl for RuntimeError {
    open spec fn obeys_eq_spec() -> bool {
        true
    }

    open spec fn eq_spec(&self, other: &Self) -> bool {
        err_eq_m(self@, other@)
    }
}

/// The executable result mirrors the ghost result: equal values on
/// success, equal errors on failure.
pub open spec fn res_matches(r: Result<Value, RuntimeError>, rm: Result<ValM, ErrM>) -> bool {
    match (r, rm) {
        (Ok(v), Ok(vm)) => v@ == vm,
        (Err(e), Err(em)) => e@ == em,
        _ => false,
    }
}

/// The argument expressions of an application: everything after the head.
#[verifier::loop_isolation(false)]
fn tail_exprs(v: &Vec<Expr>) -> (r: Vec<Expr>)
    requires
        v@.len() >= 1,
    ensures
        exprs_view(r@) == exprs_view(v@).drop_first(),
{
    broadcast use lemma_exprs_view_len, lemma_exprs_view_index;

    let mut r: Vec<Expr> = Vec::new();
    let mut i: usize = 1;
    while i < v.len()
        invariant
            1 <= i <= v@.len(),
            r@.len() == i - 1,
            forall|j: int| 0 <= j < i - 1 ==> exprs_view(r@)[j] == exprs_view(v@)[j + 1],
        decreases v.len() - i,
    {
        proof {
            lemma_exprs_view_index(v@, i as int);
        }
        let ghost r_old = r@;
        let e = v[i].clone();
        r.push(e);
        proof {
            assert(r@.drop_last() =~= r_old);
            lemma_exprs_view_index(r@, i - 1);
            lemma_exprs_view_len(r_old);
        }
        i = i + 1;
    }
    proof {
        assert(exprs_view(r@) =~= exprs_view(v@).drop_first());
    }
    r
}

/// Inserting a binding into a hash-map value: the first entry with the
/// same key is replaced, else the entry goes to the end.
#[verifier::loop_isolation(false)]
fn hmap_insert(m: &mut Vec<(HashableValue, Value)>, k: HashableValue, v: Value)
    ensures
        hv_pairs_view(final(m)@) == hmap_insert_m(hv_pairs_view(old(m)@), k@, v@),
{
    broadcast use lemma_hv_pairs_view_len, lemma_hv_pairs_view_index;

    let ghost mv = hv_pairs_view(m@);
    let ghost kk = k@;
    let ghost vv = v@;
    let mut i: usize = 0;
    while i < m.len()
        invariant
            0 <= i <= m@.len(),
            m@ == old(m)@,
            forall|j: int| 0 <= j < i ==> (#[trigger] mv[j]).0 != kk,
        decreases m.len() - i,
    {
        proof {
            lemma_hv_pairs_view_index(m@, i as int);
        }
        if m[i].0.hv_eq(&k) {
            let ghost m_pre = m@;
            let elem = &mut m[i];
            *elem = (k, v);
            proof {
                lemma_hmap_insert_found(mv, kk, vv, i as int);
                assert forall|j: int| 0 <= j < m@.len() implies hv_pairs_view(m@)[j] == mv.update(
                    i as int,
                    (kk, vv),
                )[j] by {
                    lemma_hv_pairs_view_index(m@, j);
                    if j != i {
                        lemma_hv_pairs_view_index(m_pre, j);
                    }
                }
                assert(hv_pairs_view(m@) =~= mv.update(i as int, (kk, vv)));
            }
            return ;
        }
        i = i + 1;
    }
    let ghost m_pre = m@;
    m.push((k, v));
    proof {
        lemma_hmap_insert_absent(mv, kk, vv);
        assert(m@.drop_last() =~= m_pre);
        assert(hv_pairs_view(m@) =~= mv.push((kk, vv)));
    }
}

/// Every value of an inserted-into hash map stays well formed.
proof fn lemma_hmap_insert_m_wf(m: Seq<(crate::types::HvM, ValM)>, k: crate::types::HvM, v: ValM, nf: int, nc: int)
    requires
        forall|i: int| 0 <= i < m.len() ==> val_wf((#[trigger] m[i]).1, nf, nc),
        val_wf(v, nf, nc),
    ensures
        forall|i: int|
            0 <= i < hmap_insert_m(m, k, v).len() ==> val_wf(
                (#[trigger] hmap_insert_m(m, k, v)[i]).1,
                nf,
                nc,
            ),
    decreases m,
{
    let res = hmap_insert_m(m, k, v);
    if m.len() == 0 {
        assert forall|i: int| 0 <= i < res.len() implies val_wf((#[trigger] res[i]).1, nf, nc) by {
            assert(res[i] == (k, v));
        }
    } else if m[0].0 == k {
        assert forall|i: int| 0 <= i < res.len() implies val_wf((#[trigger] res[i]).1, nf, nc) by {
            if i == 0 {
                assert(res[i] == (k, v));
            } else {
                assert(res[i] == m[i]);
            }
        }
    } else {
        lemma_hmap_insert_m_wf(m.drop_first(), k, v, nf, nc);
        let sub = hmap_insert_m(m.drop_first(), k, v);
        assert forall|i: int| 0 <= i < res.len() implies val_wf((#[trigger] res[i]).1, nf, nc) by {
            if i == 0 {
                assert(res[i] == m[0]);
            } else {
                assert(res[i] == sub[i - 1]);
            }
        }
    }
}

/// Evaluates the argument expressions `args[lo..hi]` left to right against
/// frame `fr`, collecting their values.
#[verifier::loop_isolation(false)]
fn eval_args(args: &Vec<Expr>, lo: usize, hi: usize, env: &mut Env, fr: usize, fuel: u64) -> (r:
    Result<Vec<Value>, RuntimeError>)
    requires
        old(env).wf(),
        fr < old(env)@.frames.len(),
        lo <= hi <= args@.len(),
        fuel >= 1,
    ensures
        final(env).wf(),
        env_extends(old(env)@, final(env)@),
        ({
            let (st1, rm) = eval_elems_s(
                exprs_view(args@).subrange(lo as int, hi as int),
                old(env)@,
                fr as int,
                fuel as nat,
                Seq::empty(),
            );
            &&& final(env)@ == st1
            &&& match (r, rm) {
                (Ok(vs), Ok(vsm)) => vals_view(vs@) == vsm,
                (Err(e), Err(em)) => e@ == em,
                _ => false,
            }
        }),
        r matches Ok(vs) ==> forall|i: int|
            0 <= i < vs@.len() ==> val_wf(
                val_view(#[trigger] vs@[i]),
                final(env)@.frames.len() as int,
                final(env)@.cells.len() as int,
            ),
    decreases fuel, 7int, 0int,
{
    broadcast use lemma_exprs_view_len, lemma_exprs_view_index, lemma_vals_view_len, lemma_vals_view_index;

    let ghost st0 = old(env)@;
    let ghost spec_args = exprs_view(args@);
    let ghost full = spec_args.subrange(lo as int, hi as int);
    let mut vals: Vec<Value> = Vec::new();
    let mut i: usize = lo;
    proof {
        assert(full.skip(0int) =~= full);
        assert(vals_view(vals@) =~= Seq::<ValM>::empty());
    }
    while i < hi
        invariant
            lo <= i <= hi,
            env.wf(),
            fr < env@.frames.len(),
            env_extends(st0, env@),
            eval_elems_s(full, st0, fr as int, fuel as nat, Seq::empty()) == eval_elems_s(
                full.skip(i - lo),
                env@,
                fr as int,
                fuel as nat,
                vals_view(vals@),
            ),
            forall|j: int|
                0 <= j < vals@.len() ==> val_wf(
                    val_view(#[trigger] vals@[j]),
                    env@.frames.len() as int,
                    env@.cells.len() as int,
                ),
        decreases hi - i,
    {
        let ghost st_pre = env@;
        proof {
            assert(full.skip(i - lo)[0] == spec_args[i as int]);
            assert(full.skip(i - lo).drop_first() =~= full.skip(i + 1 - lo));
            assert(spec_args[i as int] == args@[i as int]@);
        }
        let rv = evaluate_expr(&args[i], env, fr, fuel - 1);
        proof {
            assert(sub1(fuel as nat) == (fuel - 1) as nat);
        }
        match rv {
            Err(e) => {
                return Err(e);
            },
            Ok(v) => {
                let ghost vals_old = vals@;
                vals.push(v);
                proof {
                    assert(vals@.drop_last() =~= vals_old);
                    assert(vals_view(vals@) =~= vals_view(vals_old).push(val_view(v)));
                    assert forall|j: int| 0 <= j < vals@.len() implies val_wf(
                        val_view(#[trigger] vals@[j]),
                        env@.frames.len() as int,
                        env@.cells.len() as int,
                    ) by {
                        if j < vals_old.len() {
                            crate::types::lemma_val_wf_grow(
                                val_view(vals_old[j]),
                                st_pre.frames.len() as int,
                                st_pre.cells.len() as int,
                                env@.frames.len() as int,
                                env@.cells.len() as int,
                            );
                        }
                    }
                }
            },
        }
        i = i + 1;
    }
    proof {
        assert(full.skip(hi - lo) =~= Seq::<ExprM>::empty());
    }
    Ok(vals)
}

/// Dispatch over the value-receiving builtins.
fn apply_builtin(b: ValueBuiltin, vals: Vec<Value>, env: &mut Env) -> (r: Result<
    Value,
    RuntimeError,
>)
    requires
        old(env).wf(),
        forall|i: int|
            0 <= i < vals@.len() ==> val_wf(
                val_view(#[trigger] vals@[i]),
                old(env)@.frames.len() as int,
                old(env)@.cells.len() as int,
            ),
    ensures
        final(env).wf(),
        env_extends(old(env)@, final(env)@),
        ({
            let (st1, rm) = builtin_s(b, vals_view(vals@), old(env)@);
            final(env)@ == st1 && res_matches(r, rm)
        }),
        r matches Ok(v) ==> val_wf(
            v@,
            final(env)@.frames.len() as int,
            final(env)@.cells.len() as int,
        ),
{
    broadcast use lemma_vals_view_len, lemma_vals_view_index;

    proof {
        assert forall|i: int| 0 <= i < vals_view(vals@).len() implies val_wf(
            #[trigger] vals_view(vals@)[i],
            old(env)@.frames.len() as int,
            old(env)@.cells.len() as int,
        ) by {
            lemma_vals_view_index(vals@, i);
        }
        lemma_builtin_s_wf(b, vals_view(vals@), old(env)@);
    }
    match b {
        ValueBuiltin::Add => crate::builtins::arithmetic::add(env, vals),
        ValueBuiltin::Sub => crate::builtins::arithmetic::sub(env, vals),
        ValueBuiltin::Mul => crate::builtins::arithmetic::mul(env, vals),
        ValueBuiltin::Div => crate::builtins::arithmetic::div(env, vals),
        ValueBuiltin::Eq => crate::builtins::comparison::eq(env, vals),
        ValueBuiltin::Lt => crate::builtins::comparison::lt(env, vals),
        ValueBuiltin::Lte => crate::builtins::comparison::lte(env, vals),
        ValueBuiltin::Gt => crate::builtins::comparison::gt(env, vals),
        ValueBuiltin::Gte => crate::builtins::comparison::gte(env, vals),
        ValueBuiltin::ListFn => crate::builtins::list::list_f(env, vals),
        ValueBuiltin::ListP => crate::builtins::list::list_p(env, vals),
        ValueBuiltin::EmptyP => crate::builtins::list::empty_p(env, vals),
        ValueBuiltin::Count => crate::builtins::list::count(env, vals),
        ValueBuiltin::Prn => crate::builtins::io::prn(env, vals),
        ValueBuiltin::PrintLine => crate::builtins::io::println(env, vals),
        ValueBuiltin::PrStr => crate::builtins::string::pr_str(env, vals),
        ValueBuiltin::StrFn => crate::builtins::string::str(env, vals),
        ValueBuiltin::AtomFn => crate::builtins::atoms::atom(env, vals),
        ValueBuiltin::Deref => crate::builtins::atoms::deref(env, vals),
    }
}

/// Applies an already-evaluated function value to the unevaluated argument
/// expressions, exactly as `apply_s` describes.
#[verifier::loop_isolation(false)]
pub fn apply_function(function_body: FunctionBody, arg_exprs: Vec<Expr>, env: &mut Env, fr: usize, fuel: u64)
    -> (r: Result<Value, RuntimeError>)
    requires
        old(env).wf(),
        fr < old(env)@.frames.len(),
        val_wf(
            ValM::Function(function_body@),
            old(env)@.frames.len() as int,
            old(env)@.cells.len() as int,
        ),
    ensures
        final(env).wf(),
        env_extends(old(env)@, final(env)@),
        ({
            let (st1, rm) = apply_s(
                function_body@,
                exprs_view(arg_exprs@),
                old(env)@,
                fr as int,
                fuel as nat,
            );
            final(env)@ == st1 && res_matches(r, rm)
        }),
        r matches Ok(v) ==> val_wf(
            v@,
            final(env)@.frames.len() as int,
            final(env)@.cells.len() as int,
        ),
    decreases fuel, 8int, 0int,
{
    broadcast use lemma_exprs_view_len, lemma_exprs_view_index, lemma_vals_view_len, lemma_vals_view_index, crate::types::lemma_strings_view_len, crate::types::lemma_strings_view_index;

    if fuel == 0 {
        return Err(RuntimeError::RecursionDepthExceeded);
    }
    let ghost st0 = old(env)@;
    let ghost spec_args = exprs_view(arg_exprs@);
    match function_body {
        FunctionBody::BuiltinExpressions(sf) => match sf {
            crate::types::ExprBuiltin::If => crate::builtins::sequencing::if_f(
                env,
                fr,
                arg_exprs,
                fuel,
            ),
            crate::types::ExprBuiltin::Do => crate::builtins::sequencing::do_f(
                env,
                fr,
                arg_exprs,
                fuel,
            ),
            crate::types::ExprBuiltin::Def => crate::builtins::special_forms::def(
                env,
                fr,
                arg_exprs,
                fuel,
            ),
            crate::types::ExprBuiltin::LetStar => crate::builtins::special_forms::let_f(
                env,
                fr,
                arg_exprs,
                fuel,
            ),
            crate::types::ExprBuiltin::FnStar => crate::builtins::special_forms::fn_f(
                env,
                fr,
                arg_exprs,
                fuel,
            ),
        },
        FunctionBody::BuiltinValues(b) => {
            proof {
                assert(spec_args.subrange(0, spec_args.len() as int) =~= spec_args);
            }
            match eval_args(&arg_exprs, 0, arg_exprs.len(), env, fr, fuel) {
                Err(e) => Err(e),
                Ok(vals) => apply_builtin(b, vals, env),
            }
        },
        FunctionBody::Closure { closed_env, params, variadic_param, body } => {
            if arg_exprs.len() < params.len() || (arg_exprs.len() > params.len()
                && variadic_param.is_none()) {
                return Err(
                    RuntimeError::FunctionApplicationWrongNumberOfArgs {
                        given: arg_exprs.len(),
                        expected: params.len(),
                    },
                );
            }
            let plen = params.len();
            let ghost spec_params = crate::types::strings_view(params@);
            proof {
                assert(spec_params.len() == plen);
                assert(spec_args.subrange(0, plen as int) =~= spec_args.take(plen as int));
            }
            let vals = match eval_args(&arg_exprs, 0, plen, env, fr, fuel) {
                Err(e) => {
                    return Err(e);
                },
                Ok(vals) => vals,
            };
            let ghost st1 = env@;
            proof {
                crate::semantics::lemma_eval_elems_s_len(
                    spec_args.take(plen as int),
                    st0,
                    fr as int,
                    fuel as nat,
                    Seq::empty(),
                );
            }
            let new_fr = env.create_child_env(closed_env);
            let ghost st_pushed = env@;
            proof {
                assert(spec_params.take(0int) =~= Seq::<Seq<char>>::empty());
                assert(vals_view(vals@).take(0int) =~= Seq::<ValM>::empty());
            }
            // Bind the positional parameters in order.
            let mut i: usize = 0;
            while i < plen
                invariant
                    0 <= i <= plen,
                    plen == params@.len(),
                    vals@.len() == plen,
                    spec_params == crate::types::strings_view(params@),
                    spec_params.len() == plen,
                    env.wf(),
                    new_fr == st1.frames.len(),
                    new_fr < env@.frames.len(),
                    env@.cells == st1.cells,
                    env@.output == st1.output,
                    env@.frames == st1.frames.push(
                        crate::env::FrameM {
                            map: crate::semantics::bind_map(
                                Map::empty(),
                                spec_params.take(i as int),
                                vals_view(vals@).take(i as int),
                            ),
                            parent: Some(closed_env as int),
                        },
                    ),
                    forall|j: int|
                        0 <= j < vals@.len() ==> val_wf(
                            val_view(#[trigger] vals@[j]),
                            st1.frames.len() as int,
                            st1.cells.len() as int,
                        ),
                decreases plen - i,
            {
                proof {
                    lemma_vals_view_index(vals@, i as int);
                    crate::types::lemma_strings_view_index(params@, i as int);
                    crate::types::lemma_val_wf_grow(
                        val_view(vals@[i as int]),
                        st1.frames.len() as int,
                        st1.cells.len() as int,
                        env@.frames.len() as int,
                        env@.cells.len() as int,
                    );
                }
                let name = params[i].clone();
                let v = vals[i].clone();
                env.insert(new_fr, name, v);
                proof {
                    assert(spec_params.take(i + 1).drop_last() =~= spec_params.take(i as int));
                    assert(vals_view(vals@).take(i + 1).drop_last() =~= vals_view(vals@).take(
                        i as int,
                    ));
                    assert(spec_params.take(i + 1) =~= spec_params.take(i as int).push(
                        spec_params[i as int],
                    ));
                    assert(vals_view(vals@).take(i + 1) =~= vals_view(vals@).take(i as int).push(
                        vals_view(vals@)[i as int],
                    ));
                    crate::semantics::lemma_bind_map_snoc(
                        Map::empty(),
                        spec_params.take(i as int),
                        vals_view(vals@).take(i as int),
                        spec_params[i as int],
                        vals_view(vals@)[i as int],
                    );
                    assert(env@.frames =~= st1.frames.push(
                        crate::env::FrameM {
                            map: crate::semantics::bind_map(
                                Map::empty(),
                                spec_params.take(i + 1),
                                vals_view(vals@).take(i + 1),
                            ),
                            parent: Some(closed_env as int),
                        },
                    ));
                }
                i = i + 1;
            }
            proof {
                assert(spec_params.take(plen as int) =~= spec_params);
                assert(vals_view(vals@).take(plen as int) =~= vals_view(vals@));
            }
            let ghost st2 = env@;
            match variadic_param {
                Some(vname) => {
                    proof {
                        assert(spec_args.subrange(plen as int, spec_args.len() as int)
                            =~= spec_args.skip(plen as int));
                    }
                    let rest = match eval_args(&arg_exprs, plen, arg_exprs.len(), env, fr, fuel) {
                        Err(e) => {
                            return Err(e);
                        },
                        Ok(rest) => rest,
                    };
                    let ghost st3 = env@;
                    proof {
                        assert forall|j: int| 0 <= j < vals_view(rest@).len() implies val_wf(
                            #[trigger] vals_view(rest@)[j],
                            env@.frames.len() as int,
                            env@.cells.len() as int,
                        ) by {
                            lemma_vals_view_index(rest@, j);
                        }
                    }
                    let list_val = Value::List(rest);
                    env.insert(new_fr, vname, list_val);
                    proof {
                        assert(env@ == crate::semantics::st_insert(
                            st3,
                            new_fr as int,
                            vname@,
                            ValM::List(vals_view(rest@)),
                        ));
                        assert(sub1(fuel as nat) == (fuel - 1) as nat);
                    }
                    evaluate_expr(&body, env, new_fr, fuel - 1)
                },
                None => {
                    proof {
                        assert(sub1(fuel as nat) == (fuel - 1) as nat);
                    }
                    evaluate_expr(&body, env, new_fr, fuel - 1)
                },
            }
        },
    }
}

/// Structural recursion over the expression, exactly as `eval_s`
/// describes: the returned value and every change to the environment are
/// the ones the ghost interpreter computes.
#[verifier::loop_isolation(false)]
pub fn evaluate_expr(expr: &Expr, env: &mut Env, fr: usize, fuel: u64) -> (r: Result<
    Value,
    RuntimeError,
>)
    requires
        old(env).wf(),
        fr < old(env)@.frames.len(),
    ensures
        final(env).wf(),
        env_extends(old(env)@, final(env)@),
        ({
            let (st1, rm) = eval_s(expr@, old(env)@, fr as int, fuel as nat);
            final(env)@ == st1 && res_matches(r, rm)
        }),
        r matches Ok(v) ==> val_wf(
            v@,
            final(env)@.frames.len() as int,
            final(env)@.cells.len() as int,
        ),
    decreases fuel, 9int, 0int,
{
    broadcast use lemma_exprs_view_len, lemma_exprs_view_index, lemma_expr_pairs_view_len, lemma_expr_pairs_view_index, lemma_vals_view_len, lemma_vals_view_index, lemma_hv_pairs_view_len, lemma_hv_pairs_view_index;

    if fuel == 0 {
        return Err(RuntimeError::RecursionDepthExceeded);
    }
    let ghost st0 = old(env)@;
    match expr {
        Expr::Integer(n) => Ok(Value::Integer(*n)),
        Expr::String(s) => Ok(Value::String(s.clone())),
        Expr::Keyword(s) => Ok(Value::Keyword(s.clone())),
        Expr::Symbol(s) => match env.lookup(fr, s.as_str()) {
            Some(v) => Ok(v),
            None => Err(RuntimeError::UnboundSymbol(s.clone())),
        },
        Expr::Nil => Ok(Value::Nil),
        Expr::Boolean(b) => Ok(Value::Boolean(*b)),
        Expr::Quote(inner) => Err(RuntimeError::Misc),
        Expr::Quasiquote(inner) => Err(RuntimeError::Misc),
        Expr::Unquote(inner) => Err(RuntimeError::Misc),
        Expr::SpliceUnquote(inner) => Err(RuntimeError::Misc),
        Expr::List(elems) => {
            if elems.len() == 0 {
                let empty_list: Vec<Value> = Vec::new();
                proof {
                    lemma_exprs_view_len(elems@);
                    assert(vals_view(empty_list@) =~= Seq::<ValM>::empty());
                }
                return Ok(Value::List(empty_list));
            }
            proof {
                lemma_exprs_view_index(elems@, 0);
                assert(sub1(fuel as nat) == (fuel - 1) as nat);
            }
            match evaluate_expr(&elems[0], env, fr, fuel - 1) {
                Err(e) => Err(e),
                Ok(hv) => match hv {
                    Value::Function(fb) => {
                        let tail = tail_exprs(elems);
                        apply_function(fb, tail, env, fr, fuel)
                    },
                    _ => Err(RuntimeError::CannotApplyNonFunction),
                },
            }
        },
        Expr::Vector(elems) => {
            proof {
                assert(exprs_view(elems@).subrange(0, exprs_view(elems@).len() as int)
                    =~= exprs_view(elems@));
            }
            match eval_args(elems, 0, elems.len(), env, fr, fuel) {
                Err(e) => Err(e),
                Ok(vs) => {
                    proof {
                        assert forall|j: int| 0 <= j < vals_view(vs@).len() implies val_wf(
                            #[trigger] vals_view(vs@)[j],
                            env@.frames.len() as int,
                            env@.cells.len() as int,
                        ) by {
                            lemma_vals_view_index(vs@, j);
                        }
                    }
                    Ok(Value::Vector(vs))
                },
            }
        },
        Expr::HashMap(pairs) => {
            let ghost spec_pairs = expr_pairs_view(pairs@);
            let mut acc: Vec<(HashableValue, Value)> = Vec::new();
            let mut i: usize = 0;
            proof {
                assert(spec_pairs.skip(0int) =~= spec_pairs);
                assert(hv_pairs_view(acc@) =~= Seq::<(crate::types::HvM, ValM)>::empty());
            }
            while i < pairs.len()
                invariant
                    0 <= i <= pairs@.len(),
                    env.wf(),
                    fr < env@.frames.len(),
                    env_extends(st0, env@),
                    eval_pairs_s(spec_pairs, st0, fr as int, fuel as nat, Seq::empty())
                        == eval_pairs_s(
                        spec_pairs.skip(i as int),
                        env@,
                        fr as int,
                        fuel as nat,
                        hv_pairs_view(acc@),
                    ),
                    forall|j: int|
                        0 <= j < hv_pairs_view(acc@).len() ==> val_wf(
                            (#[trigger] hv_pairs_view(acc@)[j]).1,
                            env@.frames.len() as int,
                            env@.cells.len() as int,
                        ),
                decreases pairs@.len() - i,
            {
                let ghost st_pre = env@;
                proof {
                    lemma_expr_pairs_view_index(pairs@, i as int);
                    assert(spec_pairs.skip(i as int)[0] == spec_pairs[i as int]);
                    assert(spec_pairs.skip(i as int).drop_first() =~= spec_pairs.skip(i + 1));
                    assert(sub1(fuel as nat) == (fuel - 1) as nat);
                }
                let kv = match evaluate_expr(&pairs[i].0, env, fr, fuel - 1) {
                    Err(e) => {
                        return Err(e);
                    },
                    Ok(kv) => kv,
                };
                let vv = match evaluate_expr(&pairs[i].1, env, fr, fuel - 1) {
                    Err(e) => {
                        return Err(e);
                    },
                    Ok(vv) => vv,
                };
                let kv2 = kv.clone();
                let h = match kv2.try_into_hashable() {
                    Err(he) => {
                        return Err(RuntimeError::HashError(kv));
                    },
                    Ok(h) => h,
                };
                let ghost acc_pre = hv_pairs_view(acc@);
                let ghost hh = h@;
                let ghost vvv = vv@;
                proof {
                    assert forall|j: int| 0 <= j < acc_pre.len() implies val_wf(
                        (#[trigger] acc_pre[j]).1,
                        env@.frames.len() as int,
                        env@.cells.len() as int,
                    ) by {
                        crate::types::lemma_val_wf_grow(
                            acc_pre[j].1,
                            st_pre.frames.len() as int,
                            st_pre.cells.len() as int,
                            env@.frames.len() as int,
                            env@.cells.len() as int,
                        );
                    }
                    lemma_hmap_insert_m_wf(
                        acc_pre,
                        hh,
                        vvv,
                        env@.frames.len() as int,
                        env@.cells.len() as int,
                    );
                }
                hmap_insert(&mut acc, h, vv);
                i = i + 1;
            }
            proof {
                assert(spec_pairs.skip(pairs@.len() as int) =~= Seq::<(ExprM, ExprM)>::empty());
            }
            Ok(Value::HashMap(acc))
        },
    }
}

} // verus!
