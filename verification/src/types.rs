//! Syntax trees and runtime values.
//!
//! `Expr` is the abstract syntax produced by the parser; `Value` is the
//! runtime domain produced by the evaluator. Each has a ghost mirror
//! (`ExprM`, `ValM`) over `int`, `Seq<char>` and `Seq`, which is what every
//! contract in the crate speaks about.

use vstd::prelude::*;

use crate::evaluator::{ErrM, RuntimeError, TypeError};

verus! {

/// Abstract syntax for one expression, as produced by the parser.
#[derive(Debug)]
pub enum Expr {
    Integer(i64),
    String(String),
    Symbol(String),
    Keyword(String),
    Nil,
    Boolean(bool),
    Quote(Box<Expr>),
    Quasiquote(Box<Expr>),
    Unquote(Box<Expr>),
    SpliceUnquote(Box<Expr>),
    List(Vec<Expr>),
    Vector(Vec<Expr>),
    HashMap(Vec<(Expr, Expr)>),
}

/// Mathematical mirror of `Expr`, used in specifications.
pub ghost enum ExprM {
    Integer(int),
    String(Seq<char>),
    Symbol(Seq<char>),
    Keyword(Seq<char>),
    Nil,
    Boolean(bool),
    Quote(Box<ExprM>),
    Quasiquote(Box<ExprM>),
    Unquote(Box<ExprM>),
    SpliceUnquote(Box<ExprM>),
    List(Seq<ExprM>),
    Vector(Seq<ExprM>),
    HashMap(Seq<(ExprM, ExprM)>),
}

pub open spec fn expr_view(e: Expr) -> ExprM
    decreases e,
{
    match e {
        Expr::Integer(n) => ExprM::Integer(n as int),
        Expr::String(s) => ExprM::String(s@),
        Expr::Symbol(s) => ExprM::Symbol(s@),
        Expr::Keyword(s) => ExprM::Keyword(s@),
        Expr::Nil => ExprM::Nil,
        Expr::Boolean(b) => ExprM::Boolean(b),
        Expr::Quote(e) => ExprM::Quote(Box::new(expr_view(*e))),
        Expr::Quasiquote(e) => ExprM::Quasiquote(Box::new(expr_view(*e))),
        Expr::Unquote(e) => ExprM::Unquote(Box::new(expr_view(*e))),
        Expr::SpliceUnquote(e) => ExprM::SpliceUnquote(Box::new(expr_view(*e))),
        Expr::List(v) => ExprM::List(exprs_view(v@)),
        Expr::Vector(v) => ExprM::Vector(exprs_view(v@)),
        Expr::HashMap(v) => ExprM::HashMap(expr_pairs_view(v@)),
    }
}

pub open spec fn exprs_view(s: Seq<Expr>) -> Seq<ExprM>
    decreases s,
{
    if s.len() == 0 {
        Seq::empty()
    } else {
        exprs_view(s.drop_last()).push(expr_view(s.last()))
    }
}

pub open spec fn expr_pairs_view(s: Seq<(Expr, Expr)>) -> Seq<(ExprM, ExprM)>
    decreases s,
{
    if s.len() == 0 {
        Seq::empty()
    } else {
        expr_pairs_view(s.drop_last()).push((expr_view(s.last().0), expr_view(s.last().1)))
    }
}

impl View for Expr {
    type V = ExprM;

    open spec fn view(&self) -> ExprM {
        expr_view(*self)
    }
}

pub broadcast proof fn lemma_exprs_view_len(s: Seq<Expr>)
    ensures
        #[trigger] exprs_view(s).len() == s.len(),
    decreases s,
{
    if s.len() > 0 {
        lemma_exprs_view_len(s.drop_last());
    }
}

pub broadcast proof fn lemma_exprs_view_index(s: Seq<Expr>, i: int)
    requires
        0 <= i < s.len(),
    ensures
        #[trigger] exprs_view(s)[i] == s[i]@,
    decreases s,
{
    lemma_exprs_view_len(s);
    if i < s.len() - 1 {
        lemma_exprs_view_index(s.drop_last(), i);
        lemma_exprs_view_len(s.drop_last());
    }
}

/// A primitive operation that receives already-evaluated argument values.
#[derive(Clone, Copy, Debug, PartialEq, Eq, Structural)]
pub enum ValueBuiltin {
    Add,
    Sub,
    Mul,
    Div,
    Eq,
    Lt,
    Lte,
    Gt,
    Gte,
    ListFn,
    ListP,
    EmptyP,
    Count,
    Prn,
    PrintLine,
    PrStr,
    StrFn,
    AtomFn,
    Deref,
}

/// A special form: it receives the unevaluated argument expressions and the
/// caller's environment, and decides itself what to evaluate.
#[derive(Clone, Copy, Debug, PartialEq, Eq, Structural)]
pub enum ExprBuiltin {
    If,
    Do,
    Def,
    LetStar,
    FnStar,
}

/// The three shapes a function value can take.
#[derive(Debug)]
pub enum FunctionBody {
    BuiltinValues(ValueBuiltin),
    BuiltinExpressions(ExprBuiltin),
    Closure {
        closed_env: usize,
        params: Vec<String>,
        variadic_param: Option<String>,
        body: Expr,
    },
}

/// A runtime value. Lists, vectors and hash maps hold their elements
/// directly; a closure refers to its captured frame by index into the
/// `Env` arena, and an atom refers to a cell of the same arena.
#[derive(Debug)]
pub enum Value {
    Integer(i64),
    String(String),
    Symbol(String),
    Keyword(String),
    Boolean(bool),
    List(Vec<Value>),
    Vector(Vec<Value>),
    HashMap(Vec<(HashableValue, Value)>),
    Function(FunctionBody),
    Atom(usize),
    Nil,
}

/// The sub-domain of values that may key a hash map.
#[derive(Debug)]
pub enum HashableValue {
    Integer(i64),
    String(String),
    Keyword(String),
}

/// Error raised when a non-hashable value is used as a hash-map key.
#[derive(Debug)]
pub enum HashValueError {
    UnhashableValue(Value),
}

/// Mathematical mirror of `FunctionBody`.
pub ghost enum FnM {
    BuiltinValues(ValueBuiltin),
    BuiltinExpressions(ExprBuiltin),
    Closure { env: int, params: Seq<Seq<char>>, variadic: Option<Seq<char>>, body: ExprM },
}

/// Mathematical mirror of `Value`.
pub ghost enum ValM {
    Integer(int),
    String(Seq<char>),
    Symbol(Seq<char>),
    Keyword(Seq<char>),
    Boolean(bool),
    List(Seq<ValM>),
    Vector(Seq<ValM>),
    HashMap(Seq<(HvM, ValM)>),
    Function(FnM),
    Atom(int),
    Nil,
}

/// Mathematical mirror of `HashableValue`.
pub ghost enum HvM {
    Integer(int),
    String(Seq<char>),
    Keyword(Seq<char>),
}

pub open spec fn strings_view(s: Seq<String>) -> Seq<Seq<char>>
    decreases s,
{
    if s.len() == 0 {
        Seq::empty()
    } else {
        strings_view(s.drop_last()).push(s.last()@)
    }
}

pub open spec fn fb_view(fb: FunctionBody) -> FnM {
    match fb {
        FunctionBody::BuiltinValues(b) => FnM::BuiltinValues(b),
        FunctionBody::BuiltinExpressions(b) => FnM::BuiltinExpressions(b),
        FunctionBody::Closure { closed_env, params, variadic_param, body } => FnM::Closure {
            env: closed_env as int,
            params: strings_view(params@),
            variadic: match variadic_param {
                Some(s) => Some(s@),
                None => None,
            },
            body: expr_view(body),
        },
    }
}

impl View for FunctionBody {
    type V = FnM;

    open spec fn view(&self) -> FnM {
        fb_view(*self)
    }
}

pub open spec fn hv_view(h: HashableValue) -> HvM {
    match h {
        HashableValue::Integer(n) => HvM::Integer(n as int),
        HashableValue::String(s) => HvM::String(s@),
        HashableValue::Keyword(s) => HvM::Keyword(s@),
    }
}

impl View for HashableValue {
    type V = HvM;

    open spec fn view(&self) -> HvM {
        hv_view(*self)
    }
}

pub open spec fn val_view(v: Value) -> ValM
    decreases v,
{
    match v {
        Value::Integer(n) => ValM::Integer(n as int),
        Value::String(s) => ValM::String(s@),
        Value::Symbol(s) => ValM::Symbol(s@),
        Value::Keyword(s) => ValM::Keyword(s@),
        Value::Boolean(b) => ValM::Boolean(b),
        Value::List(v) => ValM::List(vals_view(v@)),
        Value::Vector(v) => ValM::Vector(vals_view(v@)),
        Value::HashMap(m) => ValM::HashMap(hv_pairs_view(m@)),
        Value::Function(fb) => ValM::Function(fb_view(fb)),
        Value::Atom(i) => ValM::Atom(i as int),
        Value::Nil => ValM::Nil,
    }
}

pub open spec fn vals_view(s: Seq<Value>) -> Seq<ValM>
    decreases s,
{
    if s.len() == 0 {
        Seq::empty()
    } else {
        vals_view(s.drop_last()).push(val_view(s.last()))
    }
}

pub open spec fn hv_pairs_view(s: Seq<(HashableValue, Value)>) -> Seq<(HvM, ValM)>
    decreases s,
{
    if s.len() == 0 {
        Seq::empty()
    } else {
        hv_pairs_view(s.drop_last()).push((hv_view(s.last().0), val_view(s.last().1)))
    }
}

impl View for Value {
    type V = ValM;

    open spec fn view(&self) -> ValM {
        val_view(*self)
    }
}

pub broadcast proof fn lemma_strings_view_len(s: Seq<String>)
    ensures
        #[trigger] strings_view(s).len() == s.len(),
    decreases s,
{
    if s.len() > 0 {
        lemma_strings_view_len(s.drop_last());
    }
}

pub broadcast proof fn lemma_strings_view_index(s: Seq<String>, i: int)
    requires
        0 <= i < s.len(),
    ensures
        #[trigger] strings_view(s)[i] == s[i]@,
    decreases s,
{
    lemma_strings_view_len(s);
    if i < s.len() - 1 {
        lemma_strings_view_index(s.drop_last(), i);
        lemma_strings_view_len(s.drop_last());
    }
}

pub broadcast proof fn lemma_vals_view_len(s: Seq<Value>)
    ensures
        #[trigger] vals_view(s).len() == s.len(),
    decreases s,
{
    if s.len() > 0 {
        lemma_vals_view_len(s.drop_last());
    }
}

pub broadcast proof fn lemma_vals_view_index(s: Seq<Value>, i: int)
    requires
        0 <= i < s.len(),
    ensures
        #[trigger] vals_view(s)[i] == val_view(s[i]),
    decreases s,
{
    lemma_vals_view_len(s);
    if i < s.len() - 1 {
        lemma_vals_view_index(s.drop_last(), i);
        lemma_vals_view_len(s.drop_last());
    }
}

pub broadcast proof fn lemma_hv_pairs_view_len(s: Seq<(HashableValue, Value)>)
    ensures
        #[trigger] hv_pairs_view(s).len() == s.len(),
    decreases s,
{
    if s.len() > 0 {
        lemma_hv_pairs_view_len(s.drop_last());
    }
}

pub broadcast proof fn lemma_hv_pairs_view_index(s: Seq<(HashableValue, Value)>, i: int)
    requires
        0 <= i < s.len(),
    ensures
        #[trigger] hv_pairs_view(s)[i] == (hv_view(s[i].0), val_view(s[i].1)),
    decreases s,
{
    lemma_hv_pairs_view_len(s);
    if i < s.len() - 1 {
        lemma_hv_pairs_view_index(s.drop_last(), i);
        lemma_hv_pairs_view_len(s.drop_last());
    }
}

pub broadcast proof fn lemma_expr_pairs_view_len(s: Seq<(Expr, Expr)>)
    ensures
        #[trigger] expr_pairs_view(s).len() == s.len(),
    decreases s,
{
    if s.len() > 0 {
        lemma_expr_pairs_view_len(s.drop_last());
    }
}

pub broadcast proof fn lemma_expr_pairs_view_index(s: Seq<(Expr, Expr)>, i: int)
    requires
        0 <= i < s.len(),
    ensures
        #[trigger] expr_pairs_view(s)[i] == (s[i].0@, s[i].1@),
    decreases s,
{
    lemma_expr_pairs_view_len(s);
    if i < s.len() - 1 {
        lemma_expr_pairs_view_index(s.drop_last(), i);
        lemma_expr_pairs_view_len(s.drop_last());
    }
}

/// A value is well formed with respect to an arena of `nframes` environment
/// frames and `ncells` atom cells when every closure it holds points at an
/// existing frame and every atom at an existing cell.
pub open spec fn val_wf(v: ValM, nframes: int, ncells: int) -> bool
    decreases v,
{
    match v {
        ValM::List(s) => forall|i: int| 0 <= i < s.len() ==> val_wf(#[trigger] s[i], nframes, ncells),
        ValM::Vector(s) => forall|i: int|
            0 <= i < s.len() ==> val_wf(#[trigger] s[i], nframes, ncells),
        ValM::HashMap(m) => forall|i: int|
            0 <= i < m.len() ==> val_wf((#[trigger] m[i]).1, nframes, ncells),
        ValM::Function(f) => match f {
            FnM::Closure { env, .. } => 0 <= env < nframes,
            _ => true,
        },
        ValM::Atom(i) => 0 <= i < ncells,
        _ => true,
    }
}

/// Well-formed values stay well formed when the arena grows.
pub proof fn lemma_val_wf_grow(v: ValM, nf1: int, nc1: int, nf2: int, nc2: int)
    requires
        val_wf(v, nf1, nc1),
        nf1 <= nf2,
        nc1 <= nc2,
    ensures
        val_wf(v, nf2, nc2),
    decreases v,
{
    match v {
        ValM::List(s) => {
            assert forall|i: int| 0 <= i < s.len() implies val_wf(#[trigger] s[i], nf2, nc2) by {
                lemma_val_wf_grow(s[i], nf1, nc1, nf2, nc2);
            }
        },
        ValM::Vector(s) => {
            assert forall|i: int| 0 <= i < s.len() implies val_wf(#[trigger] s[i], nf2, nc2) by {
                lemma_val_wf_grow(s[i], nf1, nc1, nf2, nc2);
            }
        },
        ValM::HashMap(m) => {
            assert forall|i: int| 0 <= i < m.len() implies val_wf((#[trigger] m[i]).1, nf2, nc2) by {
                lemma_val_wf_grow(m[i].1, nf1, nc1, nf2, nc2);
            }
        },
        _ => {},
    }
}

/// First binding of key `k` in a sequence of hash-map entries.
pub open spec fn hmap_get_m(m: Seq<(HvM, ValM)>, k: HvM) -> Option<ValM>
    decreases m,
{
    if m.len() == 0 {
        None
    } else if m[0].0 == k {
        Some(m[0].1)
    } else {
        hmap_get_m(m.drop_first(), k)
    }
}

/// Pairwise equality of two value sequences under `val_eq`.
pub open spec fn seq_val_eq(s1: Seq<ValM>, s2: Seq<ValM>) -> bool
    decreases s1,
{
    s1.len() == s2.len() && forall|i: int| 0 <= i < s1.len() ==> val_eq(#[trigger] s1[i], s2[i])
}

/// Equality of two hash maps: same size, and every binding of the left map
/// is present in the right map with an equal value.
pub open spec fn hmap_eq_m(m1: Seq<(HvM, ValM)>, m2: Seq<(HvM, ValM)>) -> bool
    decreases m1,
{
    m1.len() == m2.len() && forall|i: int|
        0 <= i < m1.len() ==> match hmap_get_m(m2, (#[trigger] m1[i]).0) {
            Some(w) => val_eq(m1[i].1, w),
            None => false,
        }
}

/// Structural equality of two values, up to sequence coercion: a list and a
/// vector with pairwise equal elements are equal. `Nil` equals only `Nil`,
/// never an empty sequence.
pub open spec fn val_eq(a: ValM, b: ValM) -> bool
    decreases a,
{
    match (a, b) {
        (ValM::Integer(x), ValM::Integer(y)) => x == y,
        (ValM::String(x), ValM::String(y)) => x == y,
        (ValM::Symbol(x), ValM::Symbol(y)) => x == y,
        (ValM::Keyword(x), ValM::Keyword(y)) => x == y,
        (ValM::Boolean(x), ValM::Boolean(y)) => x == y,
        (ValM::HashMap(m1), ValM::HashMap(m2)) => hmap_eq_m(m1, m2),
        (ValM::Function(f), ValM::Function(g)) => f == g,
        (ValM::Atom(i), ValM::Atom(j)) => i == j,
        (ValM::Nil, ValM::Nil) => true,
        (ValM::Nil, _) => false,
        (_, ValM::Nil) => false,
        _ => match (a, b) {
            (ValM::List(s1), ValM::List(s2)) => seq_val_eq(s1, s2),
            (ValM::List(s1), ValM::Vector(s2)) => seq_val_eq(s1, s2),
            (ValM::Vector(s1), ValM::List(s2)) => seq_val_eq(s1, s2),
            (ValM::Vector(s1), ValM::Vector(s2)) => seq_val_eq(s1, s2),
            _ => false,
        },
    }
}

/// The sequence a value coerces to: a list or vector yields its elements,
/// `Nil` yields the empty sequence, anything else refuses.
pub open spec fn to_seq_m(v: ValM) -> Option<Seq<ValM>> {
    match v {
        ValM::List(s) => Some(s),
        ValM::Vector(s) => Some(s),
        ValM::Nil => Some(Seq::empty()),
        _ => None,
    }
}

/// The hashable restriction of a value, if it has one.
pub open spec fn to_hashable_m(v: ValM) -> Option<HvM> {
    match v {
        ValM::Integer(n) => Some(HvM::Integer(n)),
        ValM::String(s) => Some(HvM::String(s)),
        ValM::Keyword(s) => Some(HvM::Keyword(s)),
        _ => None,
    }
}

impl HashableValue {
    /// Equality of hashable values.
    pub fn hv_eq(&self, other: &HashableValue) -> (r: bool)
        ensures
            r == (self@ == other@),
    {
        match (self, other) {
            (HashableValue::Integer(a), HashableValue::Integer(b)) => a == b,
            (HashableValue::String(a), HashableValue::String(b)) => *a == *b,
            (HashableValue::Keyword(a), HashableValue::Keyword(b)) => *a == *b,
            _ => false,
        }
    }
}

impl Clone for HashableValue {
    fn clone(&self) -> (res: Self)
        ensures
            res@ == self@,
    {
        match self {
            HashableValue::Integer(n) => HashableValue::Integer(*n),
            HashableValue::String(s) => HashableValue::String(s.clone()),
            HashableValue::Keyword(s) => HashableValue::Keyword(s.clone()),
        }
    }
}

impl PartialEq for HashableValue {
    fn eq(&self, other: &Self) -> (r: bool) {
        self.hv_eq(other)
    }
}

impl vstd::std_specs::cmp::PartialEqSpecImpl for HashableValue {
    open spec fn obeys_eq_spec() -> bool {
        true
    }

    open spec fn eq_spec(&self, other: &Self) -> bool {
        self@ == other@
    }
}

/// First binding of `k` among the entries of a hash-map value, by
/// reference.
#[verifier::loop_isolation(false)]
pub fn hmap_get<'a>(m: &'a Vec<(HashableValue, Value)>, k: &HashableValue) -> (r: Option<
    &'a Value,
>)
    ensures
        match r {
            Some(v) => hmap_get_m(hv_pairs_view(m@), k@) == Some(v@),
            None => hmap_get_m(hv_pairs_view(m@), k@) is None,
        },
{
    broadcast use lemma_hv_pairs_view_len, lemma_hv_pairs_view_index;

    let ghost full = hv_pairs_view(m@);
    proof {
        lemma_hv_pairs_view_len(m@);
        assert(full.skip(0int) =~= full);
    }
    let mut i: usize = 0;
    while i < m.len()
        invariant
            0 <= i <= m.len(),
            full == hv_pairs_view(m@),
            full.len() == m@.len(),
            hmap_get_m(full, k@) == hmap_get_m(full.skip(i as int), k@),
        decreases m.len() - i,
    {
        proof {
            lemma_hv_pairs_view_index(m@, i as int);
            assert(full.skip(i as int)[0] == full[i as int]);
            assert(full.skip(i as int).drop_first() =~= full.skip(i as int + 1));
        }
        if m[i].0.hv_eq(k) {
            proof {
                assert(hmap_get_m(full.skip(i as int), k@) == Some(full[i as int].1));
            }
            return Some(&m[i].1);
        }
        i = i + 1;
    }
    proof {
        assert(full.skip(m.len() as int) =~= Seq::<(HvM, ValM)>::empty());
    }
    None
}

impl Expr {
    /// Structural equality of two expressions.
    #[verifier::loop_isolation(false)]
    pub fn expr_eq(&self, other: &Expr) -> (r: bool)
        ensures
            r == (self@ == other@),
        decreases *self,
    {
        broadcast use lemma_exprs_view_len, lemma_exprs_view_index, lemma_expr_pairs_view_len, lemma_expr_pairs_view_index;

        match (self, other) {
            (Expr::Integer(a), Expr::Integer(b)) => a == b,
            (Expr::String(a), Expr::String(b)) => *a == *b,
            (Expr::Symbol(a), Expr::Symbol(b)) => *a == *b,
            (Expr::Keyword(a), Expr::Keyword(b)) => *a == *b,
            (Expr::Nil, Expr::Nil) => true,
            (Expr::Boolean(a), Expr::Boolean(b)) => a == b,
            (Expr::Quote(a), Expr::Quote(b)) => (**a).expr_eq(&**b),
            (Expr::Quasiquote(a), Expr::Quasiquote(b)) => (**a).expr_eq(&**b),
            (Expr::Unquote(a), Expr::Unquote(b)) => (**a).expr_eq(&**b),
            (Expr::SpliceUnquote(a), Expr::SpliceUnquote(b)) => (**a).expr_eq(&**b),
            (Expr::List(a), Expr::List(b)) => exprs_eq(a, b),
            (Expr::Vector(a), Expr::Vector(b)) => exprs_eq(a, b),
            (Expr::HashMap(a), Expr::HashMap(b)) => {
                if a.len() != b.len() {
                    proof {
                        lemma_expr_pairs_view_len(a@);
                        lemma_expr_pairs_view_len(b@);
                    }
                    return false;
                }
                let mut i: usize = 0;
                while i < a.len()
                    invariant
                        0 <= i <= a.len(),
                        a@.len() == b@.len(),
                        forall|j: int|
                            0 <= j < i ==> expr_pairs_view(a@)[j] == expr_pairs_view(b@)[j],
                    decreases a.len() - i,
                {
                    proof {
                        assert(decreases_to!(*a => a@));
                        assert(decreases_to!(a@ => a@[i as int]));
                        assert(decreases_to!(a@[i as int] => a@[i as int].0));
                        assert(decreases_to!(a@[i as int] => a@[i as int].1));
                        lemma_expr_pairs_view_index(a@, i as int);
                        lemma_expr_pairs_view_index(b@, i as int);
                    }
                    if !a[i].0.expr_eq(&b[i].0) || !a[i].1.expr_eq(&b[i].1) {
                        return false;
                    }
                    i = i + 1;
                }
                proof {
                    assert(expr_pairs_view(a@) =~= expr_pairs_view(b@));
                }
                true
            },
            _ => false,
        }
    }
}

/// Pairwise structural equality of two expression vectors.
#[verifier::loop_isolation(false)]
fn exprs_eq(a: &Vec<Expr>, b: &Vec<Expr>) -> (r: bool)
    ensures
        r == (exprs_view(a@) == exprs_view(b@)),
    decreases *a,
{
    broadcast use lemma_exprs_view_len, lemma_exprs_view_index;

    if a.len() != b.len() {
        proof {
            lemma_exprs_view_len(a@);
            lemma_exprs_view_len(b@);
        }
        return false;
    }
    let mut i: usize = 0;
    while i < a.len()
        invariant
            0 <= i <= a.len(),
            a@.len() == b@.len(),
            forall|j: int| 0 <= j < i ==> exprs_view(a@)[j] == exprs_view(b@)[j],
        decreases a.len() - i,
    {
        proof {
            lemma_exprs_view_index(a@, i as int);
            lemma_exprs_view_index(b@, i as int);
        }
        if !a[i].expr_eq(&b[i]) {
            return false;
        }
        i = i + 1;
    }
    proof {
        assert(exprs_view(a@) =~= exprs_view(b@));
    }
    true
}

/// Pairwise equality of two parameter-name vectors.
#[verifier::loop_isolation(false)]
pub fn strings_eq(a: &Vec<String>, b: &Vec<String>) -> (r: bool)
    ensures
        r == (strings_view(a@) == strings_view(b@)),
{
    broadcast use lemma_strings_view_len, lemma_strings_view_index;

    if a.len() != b.len() {
        proof {
            lemma_strings_view_len(a@);
            lemma_strings_view_len(b@);
        }
        return false;
    }
    let mut i: usize = 0;
    while i < a.len()
        invariant
            0 <= i <= a.len(),
            a@.len() == b@.len(),
            forall|j: int| 0 <= j < i ==> strings_view(a@)[j] == strings_view(b@)[j],
        decreases a.len() - i,
    {
        proof {
            lemma_strings_view_index(a@, i as int);
            lemma_strings_view_index(b@, i as int);
        }
        if !(a[i] == b[i]) {
            return false;
        }
        i = i + 1;
    }
    proof {
        assert(strings_view(a@) =~= strings_view(b@));
    }
    true
}

impl FunctionBody {
    /// Structural equality of two function bodies. Closures are equal when
    /// they captured the same frame and have equal parameter lists and
    /// bodies.
    pub fn fb_eq(&self, other: &FunctionBody) -> (r: bool)
        ensures
            r == (self@ == other@),
    {
        match (self, other) {
            (FunctionBody::BuiltinValues(a), FunctionBody::BuiltinValues(b)) => *a == *b,
            (FunctionBody::BuiltinExpressions(a), FunctionBody::BuiltinExpressions(b)) => *a == *b,
            (
                FunctionBody::Closure { closed_env: e1, params: p1, variadic_param: v1, body: b1 },
                FunctionBody::Closure { closed_env: e2, params: p2, variadic_param: v2, body: b2 },
            ) => {
                let veq = match (v1, v2) {
                    (Some(s1), Some(s2)) => *s1 == *s2,
                    (None, None) => true,
                    _ => false,
                };
                *e1 == *e2 && veq && strings_eq(p1, p2) && b1.expr_eq(b2)
            },
            _ => false,
        }
    }
}

impl Value {
    /// Equality of two values under the sequence-coercion rule. This is the
    /// meaning of the `=` builtin and of `==` on `Value`.
    #[verifier::loop_isolation(false)]
    pub fn value_eq(&self, other: &Value) -> (r: bool)
        ensures
            r == val_eq(self@, other@),
        decreases *self,
    {
        broadcast use lemma_vals_view_len, lemma_vals_view_index, lemma_hv_pairs_view_len, lemma_hv_pairs_view_index;

        match (self, other) {
            (Value::Integer(a), Value::Integer(b)) => a == b,
            (Value::String(a), Value::String(b)) => *a == *b,
            (Value::Symbol(a), Value::Symbol(b)) => *a == *b,
            (Value::Keyword(a), Value::Keyword(b)) => *a == *b,
            (Value::Boolean(a), Value::Boolean(b)) => a == b,
            (Value::HashMap(m1), Value::HashMap(m2)) => {
                if m1.len() != m2.len() {
                    proof {
                        lemma_hv_pairs_view_len(m1@);
                        lemma_hv_pairs_view_len(m2@);
                    }
                    return false;
                }
                let ghost mv1 = hv_pairs_view(m1@);
                let ghost mv2 = hv_pairs_view(m2@);
                let mut i: usize = 0;
                while i < m1.len()
                    invariant
                        0 <= i <= m1.len(),
                        m1@.len() == m2@.len(),
                        mv1 == hv_pairs_view(m1@),
                        mv2 == hv_pairs_view(m2@),
                        mv1.len() == m1@.len(),
                        forall|j: int|
                            0 <= j < i ==> match hmap_get_m(mv2, (#[trigger] mv1[j]).0) {
                                Some(w) => val_eq(mv1[j].1, w),
                                None => false,
                            },
                    decreases m1.len() - i,
                {
                    proof {
                        assert(decreases_to!(*m1 => m1@));
                        assert(decreases_to!(m1@ => m1@[i as int]));
                        assert(decreases_to!(m1@[i as int] => m1@[i as int].1));
                        lemma_hv_pairs_view_index(m1@, i as int);
                        lemma_hv_pairs_view_len(m2@);
                    }
                    match hmap_get(m2, &m1[i].0) {
                        Some(w) => {
                            if !m1[i].1.value_eq(w) {
                                return false;
                            }
                        },
                        None => {
                            return false;
                        },
                    }
                    i = i + 1;
                }
                true
            },
            (Value::Function(f), Value::Function(g)) => f.fb_eq(g),
            (Value::Atom(i), Value::Atom(j)) => i == j,
            (Value::Nil, Value::Nil) => true,
            (Value::List(v1), Value::List(v2)) => vals_eq(v1, v2),
            (Value::List(v1), Value::Vector(v2)) => vals_eq(v1, v2),
            (Value::Vector(v1), Value::List(v2)) => vals_eq(v1, v2),
            (Value::Vector(v1), Value::Vector(v2)) => vals_eq(v1, v2),
            _ => false,
        }
    }
}

/// Pairwise `val_eq` of two value vectors.
#[verifier::loop_isolation(false)]
fn vals_eq(a: &Vec<Value>, b: &Vec<Value>) -> (r: bool)
    ensures
        r == seq_val_eq(vals_view(a@), vals_view(b@)),
    decreases *a,
{
    broadcast use lemma_vals_view_len, lemma_vals_view_index;

    if a.len() != b.len() {
        proof {
            lemma_vals_view_len(a@);
            lemma_vals_view_len(b@);
        }
        return false;
    }
    let mut i: usize = 0;
    while i < a.len()
        invariant
            0 <= i <= a.len(),
            a@.len() == b@.len(),
            forall|j: int| 0 <= j < i ==> val_eq(#[trigger] vals_view(a@)[j], vals_view(b@)[j]),
        decreases a.len() - i,
    {
        proof {
            lemma_vals_view_index(a@, i as int);
            lemma_vals_view_index(b@, i as int);
        }
        if !a[i].value_eq(&b[i]) {
            return false;
        }
        i = i + 1;
    }
    true
}

impl PartialEq for Expr {
    fn eq(&self, other: &Self) -> (r: bool) {
        self.expr_eq(other)
    }
}

impl vstd::std_specs::cmp::PartialEqSpecImpl for Expr {
    open spec fn obeys_eq_spec() -> bool {
        true
    }

    open spec fn eq_spec(&self, other: &Self) -> bool {
        self@ == other@
    }
}

impl PartialEq for Value {
    fn eq(&self, other: &Self) -> (r: bool) {
        self.value_eq(other)
    }
}

impl vstd::std_specs::cmp::PartialEqSpecImpl for Value {
    open spec fn obeys_eq_spec() -> bool {
        true
    }

    open spec fn eq_spec(&self, other: &Self) -> bool {
        val_eq(self@, other@)
    }
}

/// Element-by-element copy of an expression vector.
#[verifier::loop_isolation(false)]
fn clone_exprs(v: &Vec<Expr>) -> (res: Vec<Expr>)
    ensures
        exprs_view(res@) == exprs_view(v@),
    decreases *v,
{
    broadcast use lemma_exprs_view_len, lemma_exprs_view_index;

    let mut c: Vec<Expr> = Vec::new();
    let mut i: usize = 0;
    while i < v.len()
        invariant
            0 <= i <= v.len(),
            c@.len() == i,
            forall|j: int| 0 <= j < i ==> exprs_view(c@)[j] == exprs_view(v@)[j],
        decreases v.len() - i,
    {
        let ghost c_old = c@;
        proof {
            lemma_exprs_view_len(c_old);
            lemma_exprs_view_index(v@, i as int);
        }
        let e = v[i].clone();
        c.push(e);
        proof {
            assert(c@.drop_last() =~= c_old);
            lemma_exprs_view_index(c@, i as int);
        }
        i = i + 1;
    }
    proof {
        assert(exprs_view(c@) =~= exprs_view(v@));
    }
    c
}

/// Element-by-element copy of a value vector.
#[verifier::loop_isolation(false)]
fn clone_values(v: &Vec<Value>) -> (res: Vec<Value>)
    ensures
        vals_view(res@) == vals_view(v@),
    decreases *v,
{
    broadcast use lemma_vals_view_len, lemma_vals_view_index;

    let mut c: Vec<Value> = Vec::new();
    let mut i: usize = 0;
    while i < v.len()
        invariant
            0 <= i <= v.len(),
            c@.len() == i,
            forall|j: int| 0 <= j < i ==> vals_view(c@)[j] == vals_view(v@)[j],
        decreases v.len() - i,
    {
        let ghost c_old = c@;
        proof {
            lemma_vals_view_len(c_old);
            lemma_vals_view_index(v@, i as int);
        }
        let e = v[i].clone();
        c.push(e);
        proof {
            assert(c@.drop_last() =~= c_old);
            lemma_vals_view_index(c@, i as int);
        }
        i = i + 1;
    }
    proof {
        assert(vals_view(c@) =~= vals_view(v@));
    }
    c
}

impl Clone for Expr {
    #[verifier::loop_isolation(false)]
    fn clone(&self) -> (res: Self)
        ensures
            res@ == self@,
        decreases *self,
    {
        broadcast use lemma_exprs_view_len, lemma_exprs_view_index, lemma_expr_pairs_view_len, lemma_expr_pairs_view_index;

        match self {
            Expr::Integer(n) => Expr::Integer(*n),
            Expr::String(s) => Expr::String(s.clone()),
            Expr::Symbol(s) => Expr::Symbol(s.clone()),
            Expr::Keyword(s) => Expr::Keyword(s.clone()),
            Expr::Nil => Expr::Nil,
            Expr::Boolean(b) => Expr::Boolean(*b),
            Expr::Quote(e) => Expr::Quote(Box::new((**e).clone())),
            Expr::Quasiquote(e) => Expr::Quasiquote(Box::new((**e).clone())),
            Expr::Unquote(e) => Expr::Unquote(Box::new((**e).clone())),
            Expr::SpliceUnquote(e) => Expr::SpliceUnquote(Box::new((**e).clone())),
            Expr::List(v) => Expr::List(clone_exprs(v)),
            Expr::Vector(v) => Expr::Vector(clone_exprs(v)),
            Expr::HashMap(v) => {
                let mut c: Vec<(Expr, Expr)> = Vec::new();
                let mut i: usize = 0;
                while i < v.len()
                    invariant
                        0 <= i <= v.len(),
                        c@.len() == i,
                        forall|j: int|
                            0 <= j < i ==> expr_pairs_view(c@)[j] == expr_pairs_view(v@)[j],
                    decreases v.len() - i,
                {
                    let ghost c_old = c@;
                    proof {
                        assert(decreases_to!(*v => v@));
                        assert(decreases_to!(v@ => v@[i as int]));
                        assert(decreases_to!(v@[i as int] => v@[i as int].0));
                        assert(decreases_to!(v@[i as int] => v@[i as int].1));
                        lemma_expr_pairs_view_len(c_old);
                        lemma_expr_pairs_view_index(v@, i as int);
                    }
                    let pair = (v[i].0.clone(), v[i].1.clone());
                    c.push(pair);
                    proof {
                        assert(c@.drop_last() =~= c_old);
                        lemma_expr_pairs_view_index(c@, i as int);
                    }
                    i = i + 1;
                }
                proof {
                    assert(expr_pairs_view(c@) =~= expr_pairs_view(v@));
                }
                Expr::HashMap(c)
            },
        }
    }
}

impl Clone for FunctionBody {
    fn clone(&self) -> (res: Self)
        ensures
            res@ == self@,
    {
        broadcast use lemma_strings_view_len, lemma_strings_view_index;

        match self {
            FunctionBody::BuiltinValues(b) => FunctionBody::BuiltinValues(*b),
            FunctionBody::BuiltinExpressions(b) => FunctionBody::BuiltinExpressions(*b),
            FunctionBody::Closure { closed_env, params, variadic_param, body } => {
                let p = params.clone();
                proof {
                    assert(strings_view(p@) =~= strings_view(params@));
                }
                FunctionBody::Closure {
                    closed_env: *closed_env,
                    params: p,
                    variadic_param: variadic_param.clone(),
                    body: body.clone(),
                }
            },
        }
    }
}

impl Clone for HashValueError {
    fn clone(&self) -> (res: Self)
        ensures
            res matches HashValueError::UnhashableValue(v) ==> (
            self matches HashValueError::UnhashableValue(w) && v@ == w@),
    {
        match self {
            HashValueError::UnhashableValue(v) => HashValueError::UnhashableValue(v.clone()),
        }
    }
}

impl Clone for Value {
    #[verifier::loop_isolation(false)]
    fn clone(&self) -> (res: Self)
        ensures
            res@ == self@,
        decreases *self,
    {
        broadcast use lemma_vals_view_len, lemma_vals_view_index, lemma_hv_pairs_view_len, lemma_hv_pairs_view_index;

        match self {
            Value::Integer(n) => Value::Integer(*n),
            Value::String(s) => Value::String(s.clone()),
            Value::Symbol(s) => Value::Symbol(s.clone()),
            Value::Keyword(s) => Value::Keyword(s.clone()),
            Value::Boolean(b) => Value::Boolean(*b),
            Value::List(v) => Value::List(clone_values(v)),
            Value::Vector(v) => Value::Vector(clone_values(v)),
            Value::HashMap(m) => {
                let mut c: Vec<(HashableValue, Value)> = Vec::new();
                let mut i: usize = 0;
                while i < m.len()
                    invariant
                        0 <= i <= m.len(),
                        c@.len() == i,
                        forall|j: int|
                            0 <= j < i ==> hv_pairs_view(c@)[j] == hv_pairs_view(m@)[j],
                    decreases m.len() - i,
                {
                    let ghost c_old = c@;
                    proof {
                        assert(decreases_to!(*m => m@));
                        assert(decreases_to!(m@ => m@[i as int]));
                        assert(decreases_to!(m@[i as int] => m@[i as int].1));
                        lemma_hv_pairs_view_len(c_old);
                        lemma_hv_pairs_view_index(m@, i as int);
                    }
                    let pair = (m[i].0.clone(), m[i].1.clone());
                    c.push(pair);
                    proof {
                        assert(c@.drop_last() =~= c_old);
                        lemma_hv_pairs_view_index(c@, i as int);
                    }
                    i = i + 1;
                }
                proof {
                    assert(hv_pairs_view(c@) =~= hv_pairs_view(m@));
                }
                Value::HashMap(c)
            },
            Value::Function(fb) => Value::Function(fb.clone()),
            Value::Atom(i) => Value::Atom(*i),
            Value::Nil => Value::Nil,
        }
    }
}

impl Value {
    /// The ordered sequence a value coerces to. Lists yield themselves,
    /// vectors their elements, and `Nil` the empty sequence; anything else
    /// is not a sequence.
    pub fn to_seq(self) -> (r: Result<Vec<Value>, RuntimeError>)
        ensures
            match to_seq_m(self@) {
                Some(s) => r matches Ok(v) && vals_view(v@) == s,
                None => r matches Err(e) && e@ == ErrM::IncorrectType(TypeError::NotASeq),
            },
    {
        match self {
            Value::List(v) => Ok(v),
            Value::Vector(v) => Ok(v),
            Value::Nil => {
                let empty: Vec<Value> = Vec::new();
                proof {
                    assert(vals_view(empty@) =~= Seq::<ValM>::empty());
                }
                Ok(empty)
            },
            _ => Err(RuntimeError::IncorrectType(TypeError::NotASeq)),
        }
    }

    /// The hashable restriction of a value; fails with the offending value
    /// when it has none.
    pub fn try_into_hashable(self) -> (r: Result<HashableValue, HashValueError>)
        ensures
            match to_hashable_m(self@) {
                Some(h) => r matches Ok(hv) && hv@ == h,
                None => r matches Err(HashValueError::UnhashableValue(v)) && v@ == self@,
            },
    {
        match self {
            Value::Integer(n) => Ok(HashableValue::Integer(n)),
            Value::String(s) => Ok(HashableValue::String(s)),
            Value::Keyword(s) => Ok(HashableValue::Keyword(s)),
            _ => Err(HashValueError::UnhashableValue(self)),
        }
    }
}

} // verus!
