//! Rendering of values and expressions as text.
//!
//! Every printing function is specified exactly: the returned string's
//! character sequence equals a spec-level rendering (`print_val`,
//! `print_expr`). The "readable" flag quotes and escapes strings, as used
//! by `pr-str` and `prn`; without it strings appear raw, as used by `str`
//! and `println`.

use vstd::prelude::*;

use crate::text::{chars_to_string, dec_int, escape_str, i64_to_dec, join_seqs, push_all,
    push_escaped, push_str_chars, str_to_chars};
use crate::types::{hv_view, val_view, vals_view, expr_view, exprs_view, expr_pairs_view,
    hv_pairs_view, Expr, ExprM, HashableValue, HvM, ValM, Value};
use crate::types::{lemma_vals_view_index, lemma_vals_view_len, lemma_hv_pairs_view_index,
    lemma_hv_pairs_view_len, lemma_exprs_view_index, lemma_exprs_view_len,
    lemma_expr_pairs_view_index, lemma_expr_pairs_view_len};

verus! {

/// Rendering of a hashable value.
pub open spec fn hv_print(h: HvM, readable: bool) -> Seq<char> {
    match h {
        HvM::Integer(n) => dec_int(n),
        HvM::String(s) => if readable {
            seq!['"'] + escape_str(s) + seq!['"']
        } else {
            s
        },
        HvM::Keyword(s) => s,
    }
}

/// Rendering of a value.
pub open spec fn print_val(v: ValM, readable: bool) -> Seq<char>
    decreases v,
{
    match v {
        ValM::Integer(n) => dec_int(n),
        ValM::Symbol(s) => s,
        ValM::Keyword(s) => s,
        ValM::String(s) => if readable {
            seq!['"'] + escape_str(s) + seq!['"']
        } else {
            s
        },
        ValM::Nil => seq!['n', 'i', 'l'],
        ValM::Boolean(b) => if b {
            seq!['t', 'r', 'u', 'e']
        } else {
            seq!['f', 'a', 'l', 's', 'e']
        },
        ValM::List(elems) => seq!['('] + join_seqs(print_parts(elems, readable), seq![' '])
            + seq![')'],
        ValM::Vector(elems) => seq!['['] + join_seqs(print_parts(elems, readable), seq![' '])
            + seq![']'],
        ValM::HashMap(m) => seq!['{'] + join_seqs(print_map_parts(m, readable), seq![' '])
            + seq!['}'],
        ValM::Function(_) => seq!['(', 'f', 'n', ' ', '.', '.', '.', ')'],
        ValM::Atom(_) => seq!['(', 'a', 't', 'o', 'm', ')'],
    }
}

/// The rendering of each element of a sequence of values.
pub open spec fn print_parts(s: Seq<ValM>, readable: bool) -> Seq<Seq<char>>
    decreases s,
{
    if s.len() == 0 {
        Seq::empty()
    } else {
        print_parts(s.drop_last(), readable).push(print_val(s.last(), readable))
    }
}

/// The rendering `"key value"` of each entry of a hash map.
pub open spec fn print_map_parts(s: Seq<(HvM, ValM)>, readable: bool) -> Seq<Seq<char>>
    decreases s,
{
    if s.len() == 0 {
        Seq::empty()
    } else {
        print_map_parts(s.drop_last(), readable).push(
            hv_print(s.last().0, readable) + seq![' '] + print_val(s.last().1, readable),
        )
    }
}

pub broadcast proof fn lemma_print_parts_len(s: Seq<ValM>, readable: bool)
    ensures
        #[trigger] print_parts(s, readable).len() == s.len(),
    decreases s,
{
    if s.len() > 0 {
        lemma_print_parts_len(s.drop_last(), readable);
    }
}

pub broadcast proof fn lemma_print_map_parts_len(s: Seq<(HvM, ValM)>, readable: bool)
    ensures
        #[trigger] print_map_parts(s, readable).len() == s.len(),
    decreases s,
{
    if s.len() > 0 {
        lemma_print_map_parts_len(s.drop_last(), readable);
    }
}

/// Anything the printer can render.
pub trait Printable {
    /// The rendering this type promises.
    spec fn print_spec(&self, readable: bool) -> Seq<char>;

    /// Renders the value; `readable` quotes and escapes strings.
    fn print_value(&self, readable: bool) -> (r: String)
        ensures
            r@ == self.print_spec(readable),
    ;
}

/// Appends the rendering of a hashable value.
fn push_hv(out: &mut Vec<char>, h: &HashableValue, readable: bool)
    ensures
        final(out)@ == old(out)@ + hv_print(h@, readable),
{
    match h {
        HashableValue::Integer(n) => {
            let ds = i64_to_dec(*n);
            push_all(out, &ds);
        },
        HashableValue::String(s) => {
            if readable {
                out.push('"');
                let cs = str_to_chars(s.as_str());
                push_escaped(out, &cs);
                out.push('"');
                proof {
                    assert(old(out)@ + (seq!['"'] + escape_str(s@) + seq!['"']) =~= ((old(out)@
                        + seq!['"']) + escape_str(s@)).push('"'));
                    assert(old(out)@ + seq!['"'] =~= old(out)@.push('"'));
                }
            } else {
                push_str_chars(out, s.as_str());
            }
        },
        HashableValue::Keyword(s) => {
            push_str_chars(out, s.as_str());
        },
    }
}

/// Appends the rendering of a value.
#[verifier::loop_isolation(false)]
fn push_val(out: &mut Vec<char>, v: &Value, readable: bool)
    ensures
        final(out)@ == old(out)@ + print_val(v@, readable),
    decreases *v, 1int,
{
    match v {
        Value::Integer(n) => {
            let ds = i64_to_dec(*n);
            push_all(out, &ds);
        },
        Value::Symbol(s) => {
            push_str_chars(out, s.as_str());
        },
        Value::Keyword(s) => {
            push_str_chars(out, s.as_str());
        },
        Value::String(s) => {
            if readable {
                out.push('"');
                let cs = str_to_chars(s.as_str());
                push_escaped(out, &cs);
                out.push('"');
                proof {
                    assert(old(out)@ + (seq!['"'] + escape_str(s@) + seq!['"']) =~= ((old(out)@
                        + seq!['"']) + escape_str(s@)).push('"'));
                    assert(old(out)@ + seq!['"'] =~= old(out)@.push('"'));
                }
            } else {
                push_str_chars(out, s.as_str());
            }
        },
        Value::Nil => {
            out.push('n');
            out.push('i');
            out.push('l');
            proof {
                assert(old(out)@ + seq!['n', 'i', 'l'] =~= old(out)@.push('n').push('i').push(
                    'l',
                ));
            }
        },
        Value::Boolean(b) => {
            if *b {
                out.push('t');
                out.push('r');
                out.push('u');
                out.push('e');
                proof {
                    assert(old(out)@ + seq!['t', 'r', 'u', 'e'] =~= old(out)@.push('t').push(
                        'r',
                    ).push('u').push('e'));
                }
            } else {
                out.push('f');
                out.push('a');
                out.push('l');
                out.push('s');
                out.push('e');
                proof {
                    assert(old(out)@ + seq!['f', 'a', 'l', 's', 'e'] =~= old(out)@.push('f').push(
                        'a',
                    ).push('l').push('s').push('e'));
                }
            }
        },
        Value::List(elems) => {
            out.push('(');
            push_vals_joined(out, elems, readable);
            out.push(')');
            proof {
                assert(old(out)@ + print_val(v@, readable) =~= ((old(out)@.push('(')) + join_seqs(
                    print_parts(vals_view(elems@), readable),
                    seq![' '],
                )).push(')'));
            }
        },
        Value::Vector(elems) => {
            out.push('[');
            push_vals_joined(out, elems, readable);
            out.push(']');
            proof {
                assert(old(out)@ + print_val(v@, readable) =~= ((old(out)@.push('[')) + join_seqs(
                    print_parts(vals_view(elems@), readable),
                    seq![' '],
                )).push(']'));
            }
        },
        Value::HashMap(m) => {
            out.push('{');
            push_map_joined(out, m, readable);
            out.push('}');
            proof {
                assert(old(out)@ + print_val(v@, readable) =~= ((old(out)@.push('{')) + join_seqs(
                    print_map_parts(hv_pairs_view(m@), readable),
                    seq![' '],
                )).push('}'));
            }
        },
        Value::Function(_) => {
            out.push('(');
            out.push('f');
            out.push('n');
            out.push(' ');
            out.push('.');
            out.push('.');
            out.push('.');
            out.push(')');
            proof {
                assert(old(out)@ + seq!['(', 'f', 'n', ' ', '.', '.', '.', ')'] =~= old(
                    out,
                )@.push('(').push('f').push('n').push(' ').push('.').push('.').push('.').push(
                    ')',
                ));
            }
        },
        Value::Atom(_) => {
            out.push('(');
            out.push('a');
            out.push('t');
            out.push('o');
            out.push('m');
            out.push(')');
            proof {
                assert(old(out)@ + seq!['(', 'a', 't', 'o', 'm', ')'] =~= old(out)@.push(
                    '(',
                ).push('a').push('t').push('o').push('m').push(')'));
            }
        },
    }
}

/// Appends the renderings of the elements, separated by single spaces.
#[verifier::loop_isolation(false)]
fn push_vals_joined(out: &mut Vec<char>, elems: &Vec<Value>, readable: bool)
    ensures
        final(out)@ == old(out)@ + join_seqs(print_parts(vals_view(elems@), readable), seq![' ']),
    decreases *elems, 0int,
{
    broadcast use lemma_vals_view_len, lemma_vals_view_index, lemma_print_parts_len;

    let mut i: usize = 0;
    while i < elems.len()
        invariant
            0 <= i <= elems.len(),
            out@ == old(out)@ + join_seqs(
                print_parts(vals_view(elems@.take(i as int)), readable),
                seq![' '],
            ),
        decreases elems.len() - i,
    {
        proof {
            assert(decreases_to!(*elems => elems@));
            assert(decreases_to!(elems@ => elems@[i as int]));
            lemma_vals_view_index(elems@.take(i + 1), i as int);
            assert(elems@.take(i + 1).drop_last() =~= elems@.take(i as int));
            assert(vals_view(elems@.take(i + 1)).drop_last() =~= vals_view(
                elems@.take(i as int),
            ));
            assert(vals_view(elems@.take(i + 1)).last() == val_view(elems@[i as int]));
            assert(print_parts(vals_view(elems@.take(i + 1)), readable) == print_parts(
                vals_view(elems@.take(i as int)),
                readable,
            ).push(print_val(val_view(elems@[i as int]), readable)));
            assert(print_parts(vals_view(elems@.take(i + 1)), readable).drop_last() =~= print_parts(
                vals_view(elems@.take(i as int)),
                readable,
            ));
        }
        if i > 0 {
            out.push(' ');
            proof {
                assert(out@ =~= old(out)@ + join_seqs(
                    print_parts(vals_view(elems@.take(i as int)), readable),
                    seq![' '],
                ) + seq![' ']);
            }
        }
        push_val(out, &elems[i], readable);
        proof {
            if i == 0 {
                assert(out@ =~= old(out)@ + join_seqs(
                    print_parts(vals_view(elems@.take(i + 1)), readable),
                    seq![' '],
                ));
            } else {
                assert(out@ =~= old(out)@ + join_seqs(
                    print_parts(vals_view(elems@.take(i + 1)), readable),
                    seq![' '],
                ));
            }
        }
        i = i + 1;
    }
    proof {
        assert(elems@.take(elems@.len() as int) =~= elems@);
    }
}

/// Appends the renderings `key value` of each entry, separated by single
/// spaces.
#[verifier::loop_isolation(false)]
fn push_map_joined(out: &mut Vec<char>, m: &Vec<(HashableValue, Value)>, readable: bool)
    ensures
        final(out)@ == old(out)@ + join_seqs(
            print_map_parts(hv_pairs_view(m@), readable),
            seq![' '],
        ),
    decreases *m, 0int,
{
    broadcast use lemma_hv_pairs_view_len, lemma_hv_pairs_view_index, lemma_print_map_parts_len;

    let mut i: usize = 0;
    while i < m.len()
        invariant
            0 <= i <= m.len(),
            out@ == old(out)@ + join_seqs(
                print_map_parts(hv_pairs_view(m@.take(i as int)), readable),
                seq![' '],
            ),
        decreases m.len() - i,
    {
        proof {
            assert(decreases_to!(*m => m@));
            assert(decreases_to!(m@ => m@[i as int]));
            assert(decreases_to!(m@[i as int] => m@[i as int].1));
            lemma_hv_pairs_view_index(m@.take(i + 1), i as int);
            assert(m@.take(i + 1).drop_last() =~= m@.take(i as int));
            assert(hv_pairs_view(m@.take(i + 1)).drop_last() =~= hv_pairs_view(
                m@.take(i as int),
            ));
            assert(hv_pairs_view(m@.take(i + 1)).last() == (
                hv_view(m@[i as int].0),
                val_view(m@[i as int].1),
            ));
            assert(print_map_parts(hv_pairs_view(m@.take(i + 1)), readable) == print_map_parts(
                hv_pairs_view(m@.take(i as int)),
                readable,
            ).push(
                hv_print(hv_view(m@[i as int].0), readable) + seq![' '] + print_val(
                    val_view(m@[i as int].1),
                    readable,
                ),
            ));
            assert(print_map_parts(hv_pairs_view(m@.take(i + 1)), readable).drop_last()
                =~= print_map_parts(hv_pairs_view(m@.take(i as int)), readable));
        }
        if i > 0 {
            out.push(' ');
        }
        let ghost mid = out@;
        push_hv(out, &m[i].0, readable);
        out.push(' ');
        proof {
            assert(out@ =~= mid + (hv_print(hv_view(m@[i as int].0), readable) + seq![' ']));
        }
        push_val(out, &m[i].1, readable);
        proof {
            assert(out@ =~= mid + (hv_print(hv_view(m@[i as int].0), readable) + seq![' ']
                + print_val(val_view(m@[i as int].1), readable)));
            assert(out@ =~= old(out)@ + join_seqs(
                print_map_parts(hv_pairs_view(m@.take(i + 1)), readable),
                seq![' '],
            ));
        }
        i = i + 1;
    }
    proof {
        assert(m@.take(m@.len() as int) =~= m@);
    }
}

impl Printable for Value {
    open spec fn print_spec(&self, readable: bool) -> Seq<char> {
        print_val(val_view(*self), readable)
    }

    /// Renders the value: readable quotes and escapes strings.
    fn print_value(&self, readable: bool) -> (r: String) {
        let mut out: Vec<char> = Vec::new();
        push_val(&mut out, self, readable);
        proof {
            assert(out@ =~= print_val(val_view(*self), readable));
        }
        chars_to_string(&out)
    }
}

impl Printable for HashableValue {
    open spec fn print_spec(&self, readable: bool) -> Seq<char> {
        hv_print(hv_view(*self), readable)
    }

    /// Renders the key as the corresponding value would be rendered.
    fn print_value(&self, readable: bool) -> (r: String) {
        let mut out: Vec<char> = Vec::new();
        push_hv(&mut out, self, readable);
        proof {
            assert(out@ =~= hv_print(hv_view(*self), readable));
        }
        chars_to_string(&out)
    }
}

/// Rendering of an expression, as the reader's error messages show it.
/// Strings are quoted but not escaped; quote forms print as their long
/// names.
pub open spec fn print_expr(e: ExprM) -> Seq<char>
    decreases e,
{
    match e {
        ExprM::Integer(n) => dec_int(n),
        ExprM::Symbol(s) => s,
        ExprM::Keyword(s) => s,
        ExprM::String(s) => seq!['"'] + s + seq!['"'],
        ExprM::Nil => seq!['n', 'i', 'l'],
        ExprM::Boolean(b) => if b {
            seq!['t', 'r', 'u', 'e']
        } else {
            seq!['f', 'a', 'l', 's', 'e']
        },
        ExprM::Quote(inner) => seq!['(', 'q', 'u', 'o', 't', 'e', ' '] + print_expr(*inner)
            + seq![')'],
        ExprM::Quasiquote(inner) => seq!['(', 'q', 'u', 'a', 's', 'i', 'q', 'u', 'o', 't', 'e', ' ']
            + print_expr(*inner) + seq![')'],
        ExprM::Unquote(inner) => seq!['(', 'u', 'n', 'q', 'u', 'o', 't', 'e', ' '] + print_expr(
            *inner,
        ) + seq![')'],
        ExprM::SpliceUnquote(inner) => seq![
            '(',
            's',
            'p',
            'l',
            'i',
            'c',
            'e',
            '-',
            'u',
            'n',
            'q',
            'u',
            'o',
            't',
            'e',
            ' ',
        ] + print_expr(*inner) + seq![')'],
        ExprM::List(elems) => seq!['('] + join_seqs(expr_parts(elems), seq![' ']) + seq![')'],
        ExprM::Vector(elems) => seq!['['] + join_seqs(expr_parts(elems), seq![' ']) + seq![']'],
        ExprM::HashMap(pairs) => seq!['{'] + join_seqs(expr_pair_parts(pairs), seq![' '])
            + seq!['}'],
    }
}

/// The rendering of each element of a sequence of expressions.
pub open spec fn expr_parts(s: Seq<ExprM>) -> Seq<Seq<char>>
    decreases s,
{
    if s.len() == 0 {
        Seq::empty()
    } else {
        expr_parts(s.drop_last()).push(print_expr(s.last()))
    }
}

/// The rendering `"key value"` of each pair of a hash-map literal.
pub open spec fn expr_pair_parts(s: Seq<(ExprM, ExprM)>) -> Seq<Seq<char>>
    decreases s,
{
    if s.len() == 0 {
        Seq::empty()
    } else {
        expr_pair_parts(s.drop_last()).push(
            print_expr(s.last().0) + seq![' '] + print_expr(s.last().1),
        )
    }
}

pub broadcast proof fn lemma_expr_parts_len(s: Seq<ExprM>)
    ensures
        #[trigger] expr_parts(s).len() == s.len(),
    decreases s,
{
    if s.len() > 0 {
        lemma_expr_parts_len(s.drop_last());
    }
}

pub broadcast proof fn lemma_expr_pair_parts_len(s: Seq<(ExprM, ExprM)>)
    ensures
        #[trigger] expr_pair_parts(s).len() == s.len(),
    decreases s,
{
    if s.len() > 0 {
        lemma_expr_pair_parts_len(s.drop_last());
    }
}

/// Appends the rendering of an expression.
#[verifier::loop_isolation(false)]
fn push_expr(out: &mut Vec<char>, e: &Expr)
    ensures
        final(out)@ == old(out)@ + print_expr(e@),
    decreases *e, 1int,
{
    match e {
        Expr::Integer(n) => {
            let ds = i64_to_dec(*n);
            push_all(out, &ds);
        },
        Expr::Symbol(s) => {
            push_str_chars(out, s.as_str());
        },
        Expr::Keyword(s) => {
            push_str_chars(out, s.as_str());
        },
        Expr::String(s) => {
            out.push('"');
            push_str_chars(out, s.as_str());
            out.push('"');
            proof {
                assert(old(out)@ + (seq!['"'] + s@ + seq!['"']) =~= ((old(out)@.push('"')) + s@
                    ).push('"'));
            }
        },
        Expr::Nil => {
            push_str_chars(out, "nil");
            proof {
                reveal_strlit("nil");
                assert(old(out)@ + print_expr(e@) =~= old(out)@ + "nil"@);
            }
        },
        Expr::Boolean(b) => {
            if *b {
                push_str_chars(out, "true");
                proof {
                    reveal_strlit("true");
                    assert(old(out)@ + print_expr(e@) =~= old(out)@ + "true"@);
                }
            } else {
                push_str_chars(out, "false");
                proof {
                    reveal_strlit("false");
                    assert(old(out)@ + print_expr(e@) =~= old(out)@ + "false"@);
                }
            }
        },
        Expr::Quote(inner) => {
            push_str_chars(out, "(quote ");
            push_expr(out, &**inner);
            out.push(')');
            proof {
                reveal_strlit("(quote ");
                assert("(quote "@ =~= seq!['(', 'q', 'u', 'o', 't', 'e', ' ']);
                assert(old(out)@ + print_expr(e@) =~= ((old(out)@ + "(quote "@) + print_expr(
                    expr_view(**inner),
                )).push(')'));
            }
        },
        Expr::Quasiquote(inner) => {
            push_str_chars(out, "(quasiquote ");
            push_expr(out, &**inner);
            out.push(')');
            proof {
                reveal_strlit("(quasiquote ");
                assert("(quasiquote "@ =~= seq![
                    '(',
                    'q',
                    'u',
                    'a',
                    's',
                    'i',
                    'q',
                    'u',
                    'o',
                    't',
                    'e',
                    ' ',
                ]);
                assert(old(out)@ + print_expr(e@) =~= ((old(out)@ + "(quasiquote "@) + print_expr(
                    expr_view(**inner),
                )).push(')'));
            }
        },
        Expr::Unquote(inner) => {
            push_str_chars(out, "(unquote ");
            push_expr(out, &**inner);
            out.push(')');
            proof {
                reveal_strlit("(unquote ");
                assert("(unquote "@ =~= seq!['(', 'u', 'n', 'q', 'u', 'o', 't', 'e', ' ']);
                assert(old(out)@ + print_expr(e@) =~= ((old(out)@ + "(unquote "@) + print_expr(
                    expr_view(**inner),
                )).push(')'));
            }
        },
        Expr::SpliceUnquote(inner) => {
            push_str_chars(out, "(splice-unquote ");
            push_expr(out, &**inner);
            out.push(')');
            proof {
                reveal_strlit("(splice-unquote ");
                assert("(splice-unquote "@ =~= seq![
                    '(',
                    's',
                    'p',
                    'l',
                    'i',
                    'c',
                    'e',
                    '-',
                    'u',
                    'n',
                    'q',
                    'u',
                    'o',
                    't',
                    'e',
                    ' ',
                ]);
                assert(old(out)@ + print_expr(e@) =~= ((old(out)@ + "(splice-unquote "@)
                    + print_expr(expr_view(**inner))).push(')'));
            }
        },
        Expr::List(elems) => {
            out.push('(');
            push_exprs_joined(out, elems);
            out.push(')');
            proof {
                assert(old(out)@ + print_expr(e@) =~= ((old(out)@.push('(')) + join_seqs(
                    expr_parts(exprs_view(elems@)),
                    seq![' '],
                )).push(')'));
            }
        },
        Expr::Vector(elems) => {
            out.push('[');
            push_exprs_joined(out, elems);
            out.push(']');
            proof {
                assert(old(out)@ + print_expr(e@) =~= ((old(out)@.push('[')) + join_seqs(
                    expr_parts(exprs_view(elems@)),
                    seq![' '],
                )).push(']'));
            }
        },
        Expr::HashMap(pairs) => {
            out.push('{');
            push_expr_pairs_joined(out, pairs);
            out.push('}');
            proof {
                assert(old(out)@ + print_expr(e@) =~= ((old(out)@.push('{')) + join_seqs(
                    expr_pair_parts(expr_pairs_view(pairs@)),
                    seq![' '],
                )).push('}'));
            }
        },
    }
}

/// Appends the renderings of the expressions, separated by single spaces.
#[verifier::loop_isolation(false)]
fn push_exprs_joined(out: &mut Vec<char>, elems: &Vec<Expr>)
    ensures
        final(out)@ == old(out)@ + join_seqs(expr_parts(exprs_view(elems@)), seq![' ']),
    decreases *elems, 0int,
{
    broadcast use lemma_exprs_view_len, lemma_exprs_view_index, lemma_expr_parts_len;

    let mut i: usize = 0;
    while i < elems.len()
        invariant
            0 <= i <= elems.len(),
            out@ == old(out)@ + join_seqs(expr_parts(exprs_view(elems@.take(i as int))), seq![' ']),
        decreases elems.len() - i,
    {
        proof {
            assert(decreases_to!(*elems => elems@));
            assert(decreases_to!(elems@ => elems@[i as int]));
            lemma_exprs_view_index(elems@.take(i + 1), i as int);
            assert(elems@.take(i + 1).drop_last() =~= elems@.take(i as int));
            assert(exprs_view(elems@.take(i + 1)).drop_last() =~= exprs_view(
                elems@.take(i as int),
            ));
            assert(exprs_view(elems@.take(i + 1)).last() == expr_view(elems@[i as int]));
            assert(expr_parts(exprs_view(elems@.take(i + 1))) == expr_parts(
                exprs_view(elems@.take(i as int)),
            ).push(print_expr(expr_view(elems@[i as int]))));
            assert(expr_parts(exprs_view(elems@.take(i + 1))).drop_last() =~= expr_parts(
                exprs_view(elems@.take(i as int)),
            ));
        }
        if i > 0 {
            out.push(' ');
        }
        push_expr(out, &elems[i]);
        proof {
            assert(out@ =~= old(out)@ + join_seqs(
                expr_parts(exprs_view(elems@.take(i + 1))),
                seq![' '],
            ));
        }
        i = i + 1;
    }
    proof {
        assert(elems@.take(elems@.len() as int) =~= elems@);
    }
}

/// Appends the renderings `key value` of each pair, separated by single
/// spaces.
#[verifier::loop_isolation(false)]
fn push_expr_pairs_joined(out: &mut Vec<char>, pairs: &Vec<(Expr, Expr)>)
    ensures
        final(out)@ == old(out)@ + join_seqs(expr_pair_parts(expr_pairs_view(pairs@)), seq![' ']),
    decreases *pairs, 0int,
{
    broadcast use lemma_expr_pairs_view_len, lemma_expr_pairs_view_index, lemma_expr_pair_parts_len;

    let mut i: usize = 0;
    while i < pairs.len()
        invariant
            0 <= i <= pairs.len(),
            out@ == old(out)@ + join_seqs(
                expr_pair_parts(expr_pairs_view(pairs@.take(i as int))),
                seq![' '],
            ),
        decreases pairs.len() - i,
    {
        proof {
            assert(decreases_to!(*pairs => pairs@));
            assert(decreases_to!(pairs@ => pairs@[i as int]));
            assert(decreases_to!(pairs@[i as int] => pairs@[i as int].0));
            assert(decreases_to!(pairs@[i as int] => pairs@[i as int].1));
            lemma_expr_pairs_view_index(pairs@.take(i + 1), i as int);
            assert(pairs@.take(i + 1).drop_last() =~= pairs@.take(i as int));
            assert(expr_pairs_view(pairs@.take(i + 1)).drop_last() =~= expr_pairs_view(
                pairs@.take(i as int),
            ));
            assert(expr_pairs_view(pairs@.take(i + 1)).last() == (
                expr_view(pairs@[i as int].0),
                expr_view(pairs@[i as int].1),
            ));
            assert(expr_pair_parts(expr_pairs_view(pairs@.take(i + 1))) == expr_pair_parts(
                expr_pairs_view(pairs@.take(i as int)),
            ).push(
                print_expr(expr_view(pairs@[i as int].0)) + seq![' '] + print_expr(
                    expr_view(pairs@[i as int].1),
                ),
            ));
            assert(expr_pair_parts(expr_pairs_view(pairs@.take(i + 1))).drop_last()
                =~= expr_pair_parts(expr_pairs_view(pairs@.take(i as int))));
        }
        if i > 0 {
            out.push(' ');
        }
        let ghost mid = out@;
        push_expr(out, &pairs[i].0);
        out.push(' ');
        proof {
            assert(out@ =~= mid + (print_expr(expr_view(pairs@[i as int].0)) + seq![' ']));
        }
        push_expr(out, &pairs[i].1);
        proof {
            assert(out@ =~= mid + (print_expr(expr_view(pairs@[i as int].0)) + seq![' ']
                + print_expr(expr_view(pairs@[i as int].1))));
            assert(out@ =~= old(out)@ + join_seqs(
                expr_pair_parts(expr_pairs_view(pairs@.take(i + 1))),
                seq![' '],
            ));
        }
        i = i + 1;
    }
    proof {
        assert(pairs@.take(pairs@.len() as int) =~= pairs@);
    }
}

impl Expr {
    /// The expression rendered as the reader's error messages show it.
    pub fn to_text(&self) -> (r: String)
        ensures
            r@ == print_expr(self@),
    {
        let mut out: Vec<char> = Vec::new();
        push_expr(&mut out, self);
        proof {
            assert(out@ =~= print_expr(self@));
        }
        chars_to_string(&out)
    }
}

/// The renderings the elements of `s` promise.
pub open spec fn print_specs<T: Printable>(s: Seq<T>, readable: bool) -> Seq<Seq<char>>
    decreases s,
{
    if s.len() == 0 {
        Seq::empty()
    } else {
        print_specs(s.drop_last(), readable).push(s.last().print_spec(readable))
    }
}

pub broadcast proof fn lemma_print_specs_len<T: Printable>(s: Seq<T>, readable: bool)
    ensures
        #[trigger] print_specs(s, readable).len() == s.len(),
    decreases s,
{
    if s.len() > 0 {
        lemma_print_specs_len(s.drop_last(), readable);
    }
}

/// For a sequence of values, the promised renderings are the renderings.
pub proof fn lemma_print_specs_vals(s: Seq<Value>, readable: bool)
    ensures
        print_specs(s, readable) == print_parts(vals_view(s), readable),
    decreases s,
{
    if s.len() > 0 {
        lemma_print_specs_vals(s.drop_last(), readable);
        lemma_vals_view_len(s);
        assert(vals_view(s).drop_last() =~= vals_view(s.drop_last()));
        assert(print_specs(s, readable) =~= print_parts(vals_view(s), readable));
    } else {
        assert(vals_view(s) =~= Seq::<ValM>::empty());
        assert(print_specs(s, readable) =~= print_parts(vals_view(s), readable));
    }
}

/// Renders each element and joins the renderings with the delimiter.
#[verifier::loop_isolation(false)]
pub fn write_delimiter_separated_printables<T: Printable>(
    elems: &Vec<T>,
    delimiter: &str,
    print_readably: bool,
) -> (r: String)
    ensures
        r@ == join_seqs(print_specs(elems@, print_readably), delimiter@),
{
    broadcast use lemma_print_specs_len;

    let mut out: Vec<char> = Vec::new();
    let delim_chars = str_to_chars(delimiter);
    let mut i: usize = 0;
    while i < elems.len()
        invariant
            0 <= i <= elems.len(),
            delim_chars@ == delimiter@,
            out@ == join_seqs(print_specs(elems@.take(i as int), print_readably), delimiter@),
        decreases elems.len() - i,
    {
        proof {
            assert(elems@.take(i + 1).drop_last() =~= elems@.take(i as int));
            assert(print_specs(elems@.take(i + 1), print_readably) == print_specs(
                elems@.take(i as int),
                print_readably,
            ).push(elems@[i as int].print_spec(print_readably)));
            assert(print_specs(elems@.take(i + 1), print_readably).drop_last() =~= print_specs(
                elems@.take(i as int),
                print_readably,
            ));
        }
        if i > 0 {
            push_all(&mut out, &delim_chars);
        }
        let part = elems[i].print_value(print_readably);
        push_str_chars(&mut out, part.as_str());
        i = i + 1;
    }
    proof {
        assert(elems@.take(elems@.len() as int) =~= elems@);
    }
    chars_to_string(&out)
}

/// Joins already-rendered parts with the delimiter.
#[verifier::loop_isolation(false)]
pub fn write_delimiter_separated_elems(elems: &Vec<String>, delimiter: &str) -> (r: String)
    ensures
        r@ == join_seqs(crate::types::strings_view(elems@), delimiter@),
{
    broadcast use crate::types::lemma_strings_view_len, crate::types::lemma_strings_view_index;

    let mut out: Vec<char> = Vec::new();
    let delim_chars = str_to_chars(delimiter);
    let mut i: usize = 0;
    while i < elems.len()
        invariant
            0 <= i <= elems.len(),
            delim_chars@ == delimiter@,
            out@ == join_seqs(crate::types::strings_view(elems@.take(i as int)), delimiter@),
        decreases elems.len() - i,
    {
        proof {
            crate::types::lemma_strings_view_index(elems@.take(i + 1), i as int);
            assert(elems@.take(i + 1).drop_last() =~= elems@.take(i as int));
            assert(crate::types::strings_view(elems@.take(i + 1)).drop_last()
                =~= crate::types::strings_view(elems@.take(i as int)));
            assert(crate::types::strings_view(elems@.take(i + 1)).last() == elems@[i as int]@);
        }
        if i > 0 {
            push_all(&mut out, &delim_chars);
        }
        push_str_chars(&mut out, elems[i].as_str());
        i = i + 1;
    }
    proof {
        assert(elems@.take(elems@.len() as int) =~= elems@);
    }
    chars_to_string(&out)
}

} // verus!
