//! The reader: source text to `Expr` syntax trees.
//!
//! Parsing walks a character vector with an explicit position; every
//! function returns the syntax it read together with the position it
//! stopped at, and promises that both equal what the ghost reader
//! (`parse_chars_s` and its helpers) computes. The position never moves
//! backwards and never passes the end of the input, and a successful parse
//! always consumes at least one character; those two facts bound the
//! recursion through nested delimiters.
//!
//! Two lexical choices are deliberate: the whitespace the reader skips is
//! the ASCII set — space, tab, carriage return, newline — rather than the
//! full Unicode one, and string escapes are introduced by a backslash.

use vstd::prelude::*;

use crate::text::{chars_to_string, str_to_chars};
use crate::types::{exprs_view, expr_pairs_view, Expr, ExprM};
use crate::types::{lemma_expr_pairs_view_index, lemma_expr_pairs_view_len, lemma_exprs_view_index,
    lemma_exprs_view_len};

verus! {

/// Errors reported while reading source text.
#[derive(Debug)]
pub enum ParseError {
    /// The input held no expression at all.
    EmptyExpr,
    /// An integer literal does not fit the integer value domain.
    IntegerParseError,
    /// Parentheses, brackets or braces were unbalanced.
    UnbalancedParens,
    /// An integer literal ran into a character that is not a digit.
    IntegerContainsNonNumericChar(char),
    /// A string literal did not start with a double quote.
    InvalidString,
    /// An escape in a string literal named an unknown character.
    StringInvalidBackslash,
    /// A hash-map literal ended after a key, with no value; carries the
    /// printed form of that key.
    HashmapMissingValue(String),
    /// The input was invalid in some other way; carries a description.
    InvalidExpr(String),
}

/// Mathematical mirror of `ParseError`.
pub ghost enum PErrM {
    EmptyExpr,
    IntegerParseError,
    UnbalancedParens,
    IntegerContainsNonNumericChar(char),
    InvalidString,
    StringInvalidBackslash,
    HashmapMissingValue(Seq<char>),
    InvalidExpr(Seq<char>),
}

impl View for ParseError {
    type V = PErrM;

    open spec fn view(&self) -> PErrM {
        match self {
            ParseError::EmptyExpr => PErrM::EmptyExpr,
            ParseError::IntegerParseError => PErrM::IntegerParseError,
            ParseError::UnbalancedParens => PErrM::UnbalancedParens,
            ParseError::IntegerContainsNonNumericChar(c) => PErrM::IntegerContainsNonNumericChar(
                *c,
            ),
            ParseError::InvalidString => PErrM::InvalidString,
            ParseError::StringInvalidBackslash => PErrM::StringInvalidBackslash,
            ParseError::HashmapMissingValue(s) => PErrM::HashmapMissingValue(s@),
            ParseError::InvalidExpr(s) => PErrM::InvalidExpr(s@),
        }
    }
}

impl Clone for ParseError {
    fn clone(&self) -> (res: Self)
        ensures
            res@ == self@,
    {
        match self {
            ParseError::EmptyExpr => ParseError::EmptyExpr,
            ParseError::IntegerParseError => ParseError::IntegerParseError,
            ParseError::UnbalancedParens => ParseError::UnbalancedParens,
            ParseError::IntegerContainsNonNumericChar(c) => ParseError::IntegerContainsNonNumericChar(
                *c,
            ),
            ParseError::InvalidString => ParseError::InvalidString,
            ParseError::StringInvalidBackslash => ParseError::StringInvalidBackslash,
            ParseError::HashmapMissingValue(s) => ParseError::HashmapMissingValue(s.clone()),
            ParseError::InvalidExpr(s) => ParseError::InvalidExpr(s.clone()),
        }
    }
}

impl PartialEq for ParseError {
    fn eq(&self, other: &Self) -> (r: bool) {
        match (self, other) {
            (ParseError::EmptyExpr, ParseError::EmptyExpr) => true,
            (ParseError::IntegerParseError, ParseError::IntegerParseError) => true,
            (ParseError::UnbalancedParens, ParseError::UnbalancedParens) => true,
            (
                ParseError::IntegerContainsNonNumericChar(a),
                ParseError::IntegerContainsNonNumericChar(b),
            ) => a == b,
            (ParseError::InvalidString, ParseError::InvalidString) => true,
            (ParseError::StringInvalidBackslash, ParseError::StringInvalidBackslash) => true,
            (ParseError::HashmapMissingValue(a), ParseError::HashmapMissingValue(b)) => *a == *b,
            (ParseError::InvalidExpr(a), ParseError::InvalidExpr(b)) => *a == *b,
            _ => false,
        }
    }
}

impl vstd::std_specs::cmp::PartialEqSpecImpl for ParseError {
    open spec fn obeys_eq_spec() -> bool {
        true
    }

    open spec fn eq_spec(&self, other: &Self) -> bool {
        self@ == other@
    }
}

/// The whitespace characters the reader skips.
pub open spec fn is_ws_char(c: char) -> bool {
    c == ' ' || c == '\t' || c == '\n' || c == '\r'
}

fn is_ws(c: char) -> (r: bool)
    ensures
        r == is_ws_char(c),
{
    c == ' ' || c == '\t' || c == '\n' || c == '\r'
}

/// A decimal digit.
pub open spec fn is_digit_char(c: char) -> bool {
    48 <= c as int && c as int <= 57
}

fn is_digit(c: char) -> (r: bool)
    ensures
        r == is_digit_char(c),
{
    let u = c as u32;
    48 <= u && u <= 57
}

/// The numeric value of a digit run, most significant digit first.
pub open spec fn digits_val(s: Seq<char>) -> int
    decreases s,
{
    if s.len() == 0 {
        0
    } else {
        digits_val(s.drop_last()) * 10 + (s.last() as int - 48)
    }
}

proof fn lemma_digits_val_nonneg(s: Seq<char>)
    requires
        forall|i: int| 0 <= i < s.len() ==> is_digit_char(#[trigger] s[i]),
    ensures
        digits_val(s) >= 0,
    decreases s,
{
    if s.len() > 0 {
        lemma_digits_val_nonneg(s.drop_last());
    }
}

/// A longer digit run never denotes a smaller number.
proof fn lemma_digits_val_grows(s: Seq<char>, i: int)
    requires
        forall|j: int| 0 <= j < s.len() ==> is_digit_char(#[trigger] s[j]),
        0 <= i <= s.len(),
    ensures
        digits_val(s) >= digits_val(s.take(i)),
    decreases s.len() - i,
{
    if i < s.len() {
        lemma_digits_val_grows(s, i + 1);
        assert(s.take(i + 1).drop_last() =~= s.take(i));
        lemma_digits_val_nonneg(s.take(i));
    } else {
        assert(s.take(i) =~= s);
    }
}

// --- The ghost reader ---------------------------------------------------
//
// Each executable parsing function below promises to return exactly what
// the corresponding spec function here computes, so the grammar is written
// down once, mathematically, and proved of the code. The spec functions
// mirror the executable ones; where well-foundedness would need the (true,
// and separately proved) fact that parsing always advances, the definition
// instead jumps to the end of the input on a non-advancing sub-result, a
// case the executable contracts show can never arise.

/// Position just after the current comment: everything up to and including
/// the next newline is consumed.
pub open spec fn comment_end_s(chars: Seq<char>, pos: int) -> int
    decreases chars.len() - pos,
{
    if !(0 <= pos < chars.len()) {
        pos
    } else if chars[pos] == '\n' {
        pos + 1
    } else {
        comment_end_s(chars, pos + 1)
    }
}

/// Position of the first character that is not whitespace, a comma, or
/// part of a comment.
pub open spec fn skip_blanks_s(chars: Seq<char>, pos: int) -> int
    decreases chars.len() - pos,
{
    if !(0 <= pos < chars.len()) {
        pos
    } else if chars[pos] == ';' {
        let q = comment_end_s(chars, pos + 1);
        skip_blanks_s(
            chars,
            if pos < q <= chars.len() {
                q
            } else {
                chars.len() as int
            },
        )
    } else if is_ws_char(chars[pos]) || chars[pos] == ',' {
        skip_blanks_s(chars, pos + 1)
    } else {
        pos
    }
}

/// The walk of a delimited group: nested delimiters of the same kind are
/// counted, a comment becomes one space, and the group's text is collected
/// until the matching closer.
pub open spec fn between_rec_s(
    chars: Seq<char>,
    pos: int,
    open_delim: char,
    close_delim: char,
    depth: int,
    acc: Seq<char>,
) -> (Result<Seq<char>, PErrM>, int)
    decreases chars.len() - pos,
{
    if !(0 <= pos < chars.len()) {
        (Err(PErrM::UnbalancedParens), pos)
    } else {
        let c = chars[pos];
        if c == open_delim {
            between_rec_s(chars, pos + 1, open_delim, close_delim, depth + 1, acc.push(c))
        } else if c == close_delim {
            if depth == 1 {
                (Ok(acc), pos + 1)
            } else {
                between_rec_s(chars, pos + 1, open_delim, close_delim, depth - 1, acc.push(c))
            }
        } else if c == ';' {
            let q = comment_end_s(chars, pos + 1);
            between_rec_s(
                chars,
                if pos < q <= chars.len() {
                    q
                } else {
                    chars.len() as int
                },
                open_delim,
                close_delim,
                depth,
                acc.push(' '),
            )
        } else {
            between_rec_s(chars, pos + 1, open_delim, close_delim, depth, acc.push(c))
        }
    }
}

/// The text between the outermost pair of delimiters starting at `pos`,
/// and the position after the closer.
pub open spec fn consume_between_s(
    chars: Seq<char>,
    pos: int,
    open_delim: char,
    close_delim: char,
) -> (Result<Seq<char>, PErrM>, int) {
    if !(0 <= pos < chars.len()) {
        (Err(PErrM::InvalidExpr("expression did not begin with an opening delimiter"@)), pos)
    } else if chars[pos] != open_delim {
        (
            Err(PErrM::InvalidExpr("expression did not begin with an opening delimiter"@)),
            pos + 1,
        )
    } else {
        between_rec_s(chars, pos + 1, open_delim, close_delim, 1, Seq::empty())
    }
}

/// The walk of a symbol: characters collected until whitespace or a comma
/// (consumed) or the end of the input; a comment inside the run is
/// skipped.
pub open spec fn sym_rec_s(chars: Seq<char>, pos: int, acc: Seq<char>) -> (Seq<char>, int)
    decreases chars.len() - pos,
{
    if !(0 <= pos < chars.len()) {
        (acc, pos)
    } else {
        let c = chars[pos];
        if c == ';' {
            let q = comment_end_s(chars, pos + 1);
            sym_rec_s(
                chars,
                if pos < q <= chars.len() {
                    q
                } else {
                    chars.len() as int
                },
                acc,
            )
        } else if is_ws_char(c) || c == ',' {
            (acc, pos + 1)
        } else {
            sym_rec_s(chars, pos + 1, acc.push(c))
        }
    }
}

/// What a bare word means: one of the special identifiers, or a symbol.
pub open spec fn classify_symbol_s(s: Seq<char>) -> ExprM {
    if s == "nil"@ {
        ExprM::Nil
    } else if s == "true"@ || s == "#t"@ {
        ExprM::Boolean(true)
    } else if s == "false"@ || s == "#f"@ {
        ExprM::Boolean(false)
    } else {
        ExprM::Symbol(s)
    }
}

/// A symbol or special identifier read from `pos`.
pub open spec fn parse_symbol_s(chars: Seq<char>, pos: int) -> (Result<ExprM, PErrM>, int) {
    let (s, p2) = sym_rec_s(chars, pos, Seq::empty());
    (Ok(classify_symbol_s(s)), p2)
}

/// The walk of an integer literal: digits collected until whitespace
/// (consumed), a comment or comma (not consumed), or the end of the input;
/// any other character is an error naming it.
pub open spec fn int_rec_s(chars: Seq<char>, pos: int, acc: Seq<char>) -> (Result<ExprM, PErrM>, int)
    decreases chars.len() - pos,
{
    if !(0 <= pos < chars.len()) {
        int_fin_s(acc, pos)
    } else {
        let c = chars[pos];
        if is_digit_char(c) {
            int_rec_s(chars, pos + 1, acc.push(c))
        } else if is_ws_char(c) {
            int_fin_s(acc, pos + 1)
        } else if c == ';' || c == ',' {
            int_fin_s(acc, pos)
        } else {
            (Err(PErrM::IntegerContainsNonNumericChar(c)), pos)
        }
    }
}

/// The number a digit run denotes, or the overflow error when it does not
/// fit the integer domain.
pub open spec fn int_fin_s(acc: Seq<char>, pos: int) -> (Result<ExprM, PErrM>, int) {
    if digits_val(acc) > i64::MAX as int {
        (Err(PErrM::IntegerParseError), pos)
    } else {
        (Ok(ExprM::Integer(digits_val(acc))), pos)
    }
}

/// An integer literal read from `pos`.
pub open spec fn parse_integer_s(chars: Seq<char>, pos: int) -> (Result<ExprM, PErrM>, int) {
    int_rec_s(chars, pos, Seq::empty())
}

/// The walk of a string literal's body: a backslash escapes a quote, an
/// `n` (a newline) or a backslash; a bare closing quote ends the literal;
/// an unterminated literal is simply what was read.
pub open spec fn str_rec_s(chars: Seq<char>, pos: int, acc: Seq<char>) -> (Result<
    Seq<char>,
    PErrM,
>, int)
    decreases chars.len() - pos,
{
    if !(0 <= pos < chars.len()) {
        (Ok(acc), pos)
    } else {
        let c = chars[pos];
        if c == '"' {
            (Ok(acc), pos + 1)
        } else if c == '\\' {
            if pos + 1 >= chars.len() {
                (Err(PErrM::StringInvalidBackslash), pos + 1)
            } else {
                let e = chars[pos + 1];
                if e == '"' {
                    str_rec_s(chars, pos + 2, acc.push('"'))
                } else if e == 'n' {
                    str_rec_s(chars, pos + 2, acc.push('\n'))
                } else if e == '\\' {
                    str_rec_s(chars, pos + 2, acc.push('\\'))
                } else {
                    (Err(PErrM::StringInvalidBackslash), pos + 2)
                }
            }
        } else {
            str_rec_s(chars, pos + 1, acc.push(c))
        }
    }
}

/// A string literal read from `pos`: it must open with a double quote.
pub open spec fn parse_string_s(chars: Seq<char>, pos: int) -> (Result<ExprM, PErrM>, int) {
    if !(0 <= pos < chars.len()) {
        (Err(PErrM::InvalidString), pos)
    } else if chars[pos] != '"' {
        (Err(PErrM::InvalidString), pos + 1)
    } else {
        let (r, p2) = str_rec_s(chars, pos + 1, Seq::empty());
        match r {
            Ok(s) => (Ok(ExprM::String(s)), p2),
            Err(e) => (Err(e), p2),
        }
    }
}

/// Alternating keys and values, paired in order.
pub open spec fn pair_up_s(s: Seq<ExprM>) -> Seq<(ExprM, ExprM)> {
    Seq::new((s.len() / 2) as nat, |i: int| (s[2 * i], s[2 * i + 1]))
}

/// One expression read from `pos`: leading blanks are skipped, then the
/// first character decides what is read. An exhausted input is
/// `EmptyExpr`; a closer with no opener is `UnbalancedParens`; a quote
/// mark wraps the next expression.
pub open spec fn parse_chars_s(chars: Seq<char>, pos: int) -> (Result<ExprM, PErrM>, int)
    decreases chars.len() - pos, 3int,
{
    let q = skip_blanks_s(chars, pos);
    let p = if pos <= q <= chars.len() {
        q
    } else {
        chars.len() as int
    };
    if p >= chars.len() {
        (Err(PErrM::EmptyExpr), p)
    } else {
        let c = chars[p];
        if is_digit_char(c) {
            parse_integer_s(chars, p)
        } else if c == '(' {
            parse_list_s(chars, p)
        } else if c == ')' {
            (Err(PErrM::UnbalancedParens), p)
        } else if c == '[' {
            parse_vector_s(chars, p)
        } else if c == ']' {
            (Err(PErrM::UnbalancedParens), p)
        } else if c == '{' {
            parse_hashmap_s(chars, p)
        } else if c == '}' {
            (Err(PErrM::UnbalancedParens), p)
        } else if c == '"' {
            parse_string_s(chars, p)
        } else if c == '\'' {
            let (r, p2) = parse_chars_s(chars, p + 1);
            match r {
                Ok(e) => (Ok(ExprM::Quote(Box::new(e))), p2),
                Err(e) => (Err(e), p2),
            }
        } else if c == ':' {
            let (r, p2) = parse_symbol_s(chars, p);
            match r {
                Ok(e) => match e {
                    ExprM::Symbol(v) => (Ok(ExprM::Keyword(v)), p2),
                    _ => (Err(PErrM::InvalidExpr("keyword was not parsed as a symbol"@)), p2),
                },
                Err(e) => (Err(e), p2),
            }
        } else {
            parse_symbol_s(chars, p)
        }
    }
}

/// Every expression of the input from `pos` on, in order; the quiet end of
/// the input closes the sequence, and any other error is the result.
pub open spec fn parse_seq_s(chars: Seq<char>, pos: int, acc: Seq<ExprM>) -> Result<
    Seq<ExprM>,
    PErrM,
>
    decreases chars.len() - pos, 4int,
{
    if !(0 <= pos < chars.len()) {
        Ok(acc)
    } else {
        let (r, p2) = parse_chars_s(chars, pos);
        match r {
            Ok(e) => parse_seq_s(
                chars,
                if pos < p2 <= chars.len() {
                    p2
                } else {
                    chars.len() as int
                },
                acc.push(e),
            ),
            Err(pe) => if pe is EmptyExpr {
                Ok(acc)
            } else {
                Err(pe)
            },
        }
    }
}

/// A parenthesised list read from `pos`.
pub open spec fn parse_list_s(chars: Seq<char>, pos: int) -> (Result<ExprM, PErrM>, int)
    decreases chars.len() - pos, 2int,
{
    let (r, p1) = consume_between_s(chars, pos, '(', ')');
    match r {
        Err(e) => (Err(e), p1),
        Ok(inner) => if p1 <= chars.len() && inner.len() + 2 <= p1 - pos {
            match parse_seq_s(inner, 0, Seq::empty()) {
                Ok(elems) => (Ok(ExprM::List(elems)), p1),
                Err(e) => (Err(e), p1),
            }
        } else {
            // A group's text is always shorter than the input it was cut
            // from, so this arm can never be reached.
            (Err(PErrM::UnbalancedParens), p1)
        },
    }
}

/// A bracketed vector read from `pos`.
pub open spec fn parse_vector_s(chars: Seq<char>, pos: int) -> (Result<ExprM, PErrM>, int)
    decreases chars.len() - pos, 2int,
{
    let (r, p1) = consume_between_s(chars, pos, '[', ']');
    match r {
        Err(e) => (Err(e), p1),
        Ok(inner) => if p1 <= chars.len() && inner.len() + 2 <= p1 - pos {
            match parse_seq_s(inner, 0, Seq::empty()) {
                Ok(elems) => (Ok(ExprM::Vector(elems)), p1),
                Err(e) => (Err(e), p1),
            }
        } else {
            // A group's text is always shorter than the input it was cut
            // from, so this arm can never be reached.
            (Err(PErrM::UnbalancedParens), p1)
        },
    }
}

/// A braced hash-map literal read from `pos`: an even run of expressions,
/// paired as keys and values; an odd run names the dangling key.
pub open spec fn parse_hashmap_s(chars: Seq<char>, pos: int) -> (Result<ExprM, PErrM>, int)
    decreases chars.len() - pos, 2int,
{
    let (r, p1) = consume_between_s(chars, pos, '{', '}');
    match r {
        Err(e) => (Err(e), p1),
        Ok(inner) => if p1 <= chars.len() && inner.len() + 2 <= p1 - pos {
            match parse_seq_s(inner, 0, Seq::empty()) {
                Ok(exprs) => if exprs.len() % 2 != 0 {
                    (Err(PErrM::HashmapMissingValue(crate::printer::print_expr(exprs.last()))), p1)
                } else {
                    (Ok(ExprM::HashMap(pair_up_s(exprs))), p1)
                },
                Err(e) => (Err(e), p1),
            }
        } else {
            // A group's text is always shorter than the input it was cut
            // from, so this arm can never be reached.
            (Err(PErrM::UnbalancedParens), p1)
        },
    }
}

/// The whole program a source text denotes: its top-level expressions in
/// order, or its first parse error.
pub open spec fn parse_program_s(text: Seq<char>) -> Result<Seq<ExprM>, PErrM> {
    parse_seq_s(text, 0, Seq::empty())
}

/// The sequence reader never reports an exhausted input as an error: that
/// case quietly closes the sequence.
pub proof fn lemma_parse_seq_err(chars: Seq<char>, pos: int, acc: Seq<ExprM>)
    ensures
        parse_seq_s(chars, pos, acc) matches Err(pe) ==> !(pe is EmptyExpr),
    decreases chars.len() - pos, 5int,
{
    if 0 <= pos < chars.len() {
        let (r, p2) = parse_chars_s(chars, pos);
        match r {
            Ok(e) => {
                lemma_parse_seq_err(
                    chars,
                    if pos < p2 <= chars.len() {
                        p2
                    } else {
                        chars.len() as int
                    },
                    acc.push(e),
                );
            },
            Err(pe) => {},
        }
    }
}

/// The executable outcome mirrors the ghost reader's: equal syntax on
/// success, equal errors on failure.
pub open spec fn pres_matches(r: Result<Expr, ParseError>, rm: Result<ExprM, PErrM>) -> bool {
    match (r, rm) {
        (Ok(e), Ok(em)) => e@ == em,
        (Err(e), Err(em)) => e@ == em,
        _ => false,
    }
}

// --- The executable reader ------------------------------------------------

/// The numeric value of a digit run, when it fits the integer domain;
/// `IntegerParseError` exactly when it does not.
pub fn digits_to_i64(buf: &Vec<char>) -> (r: Result<i64, ParseError>)
    requires
        forall|i: int| 0 <= i < buf@.len() ==> is_digit_char(#[trigger] buf@[i]),
    ensures
        match r {
            Ok(n) => n as int == digits_val(buf@) && digits_val(buf@) <= i64::MAX as int,
            Err(e) => e@ == PErrM::IntegerParseError && digits_val(buf@) > i64::MAX as int,
        },
{
    let lim: u64 = 9223372036854775807u64;
    let mut acc: u64 = 0;
    let mut i: usize = 0;
    proof {
        assert(buf@.take(0int) =~= Seq::<char>::empty());
    }
    while i < buf.len()
        invariant
            0 <= i <= buf@.len(),
            forall|j: int| 0 <= j < buf@.len() ==> is_digit_char(#[trigger] buf@[j]),
            lim == 9223372036854775807u64,
            acc as int == digits_val(buf@.take(i as int)),
            acc <= lim,
        decreases buf@.len() - i,
    {
        let d: u64 = (buf[i] as u32 - 48) as u64;
        proof {
            assert(buf@.take(i + 1).drop_last() =~= buf@.take(i as int));
            assert(digits_val(buf@.take(i + 1)) == digits_val(buf@.take(i as int)) * 10 + (
            buf@[i as int] as int - 48));
        }
        if acc > lim / 10 || (acc == lim / 10 && d > lim % 10) {
            proof {
                assert(digits_val(buf@.take(i + 1)) > lim as int);
                lemma_digits_val_grows(buf@, i + 1);
                assert(buf@.take(buf@.len() as int) =~= buf@);
            }
            return Err(ParseError::IntegerParseError);
        }
        acc = acc * 10 + d;
        i = i + 1;
    }
    proof {
        assert(buf@.take(buf@.len() as int) =~= buf@);
    }
    Ok(acc as i64)
}

/// Consumes characters through the end of the current comment: everything
/// up to and including the next newline.
#[verifier::loop_isolation(false)]
pub fn consume_comment(chars: &Vec<char>, pos: usize) -> (r: usize)
    requires
        pos <= chars@.len(),
    ensures
        pos <= r <= chars@.len(),
        pos < chars@.len() ==> r > pos,
        r == comment_end_s(chars@, pos as int),
{
    let mut p = pos;
    let mut done = false;
    while p < chars.len() && !done
        invariant
            pos <= p <= chars@.len(),
            !done ==> comment_end_s(chars@, pos as int) == comment_end_s(chars@, p as int),
            done ==> p > pos && comment_end_s(chars@, pos as int) == p,
        decreases chars@.len() - p,
    {
        if chars[p] == '\n' {
            done = true;
        }
        p = p + 1;
    }
    p
}

/// Consumes a delimited group, returning the text between the outermost
/// delimiters; nested groups of the same kind stay inside, and a comment
/// inside the group is replaced by one space.
pub fn consume_chars_between(chars: &Vec<char>, pos: usize, open_delim: char, close_delim: char)
    -> (r: (Result<Vec<char>, ParseError>, usize))
    requires
        pos <= chars@.len(),
    ensures
        pos <= r.1 <= chars@.len(),
        r.0 matches Ok(inner) ==> inner@.len() + 2 <= r.1 - pos,
        r.0 matches Err(e) ==> !(e@ is EmptyExpr),
        ({
            let (rm, pm) = consume_between_s(chars@, pos as int, open_delim, close_delim);
            r.1 == pm && match (r.0, rm) {
                (Ok(inner), Ok(im)) => inner@ == im,
                (Err(e), Err(em)) => e@ == em,
                _ => false,
            }
        }),
{
    let mut p = pos;
    if p >= chars.len() {
        return (
            (
                Err(
                    ParseError::InvalidExpr(
                        "expression did not begin with an opening delimiter".to_owned(),
                    ),
                ),
                p,
            )
        );
    }
    let c0 = chars[p];
    p = p + 1;
    if c0 != open_delim {
        return (
            (
                Err(
                    ParseError::InvalidExpr(
                        "expression did not begin with an opening delimiter".to_owned(),
                    ),
                ),
                p,
            )
        );
    }
    let mut inner: Vec<char> = Vec::new();
    let mut depth: usize = 1;
    let mut closed = false;
    proof {
        assert(inner@ =~= Seq::<char>::empty());
    }
    while p < chars.len() && !closed
        invariant
            pos < p <= chars@.len(),
            inner@.len() + 1 <= p - pos,
            closed ==> inner@.len() + 2 <= p - pos,
            !closed ==> 1 <= depth <= p - pos,
            !closed ==> between_rec_s(chars@, pos + 1, open_delim, close_delim, 1, Seq::empty())
                == between_rec_s(chars@, p as int, open_delim, close_delim, depth as int, inner@),
            closed ==> between_rec_s(chars@, pos + 1, open_delim, close_delim, 1, Seq::empty())
                == (Ok::<Seq<char>, PErrM>(inner@), p as int),
        decreases chars@.len() - p,
    {
        let c = chars[p];
        p = p + 1;
        if c == open_delim {
            depth = depth + 1;
            inner.push(c);
        } else if c == close_delim {
            if depth == 1 {
                depth = 0;
                closed = true;
            } else {
                depth = depth - 1;
                inner.push(c);
            }
        } else if c == ';' {
            p = consume_comment(chars, p);
            inner.push(' ');
        } else {
            inner.push(c);
        }
    }
    if !closed {
        return (Err(ParseError::UnbalancedParens), p);
    }
    proof {
        assert(consume_between_s(chars@, pos as int, open_delim, close_delim) == (
            Ok::<Seq<char>, PErrM>(inner@),
            p as int,
        ));
    }
    (Ok(inner), p)
}

/// One expression read from `pos`, together with the position after it.
/// Leading whitespace, commas and comments are skipped; an empty rest of
/// input is the `EmptyExpr` error, reported at the end of the input.
#[verifier::loop_isolation(false)]
pub fn parse_chars(chars: &Vec<char>, pos: usize) -> (r: (Result<Expr, ParseError>, usize))
    requires
        pos <= chars@.len(),
    ensures
        pos <= r.1 <= chars@.len(),
        r.0 is Ok ==> r.1 > pos,
        (r.0 matches Err(e) && e@ is EmptyExpr) ==> r.1 == chars@.len(),
        pos == chars@.len() ==> (r.0 matches Err(e) && e@ is EmptyExpr),
        ({
            let (rm, pm) = parse_chars_s(chars@, pos as int);
            r.1 == pm && pres_matches(r.0, rm)
        }),
    decreases chars@.len() - pos, 3int,
{
    let mut p = pos;
    while p < chars.len() && (is_ws(chars[p]) || chars[p] == ',' || chars[p] == ';')
        invariant
            pos <= p <= chars@.len(),
            skip_blanks_s(chars@, pos as int) == skip_blanks_s(chars@, p as int),
        decreases chars@.len() - p,
    {
        if chars[p] == ';' {
            proof {
                assert(comment_end_s(chars@, p as int) == comment_end_s(chars@, p + 1));
            }
            p = consume_comment(chars, p);
        } else {
            p = p + 1;
        }
    }
    proof {
        assert(skip_blanks_s(chars@, pos as int) == p);
    }
    if p >= chars.len() {
        return (Err(ParseError::EmptyExpr), p);
    }
    let c = chars[p];
    if is_digit(c) {
        parse_integer(chars, p)
    } else if c == '(' {
        parse_list(chars, p)
    } else if c == ')' {
        (Err(ParseError::UnbalancedParens), p)
    } else if c == '[' {
        parse_vector(chars, p)
    } else if c == ']' {
        (Err(ParseError::UnbalancedParens), p)
    } else if c == '{' {
        parse_hashmap(chars, p)
    } else if c == '}' {
        (Err(ParseError::UnbalancedParens), p)
    } else if c == '"' {
        parse_string(chars, p)
    } else if c == '\'' {
        let (r0, p2) = parse_chars(chars, p + 1);
        match r0 {
            Ok(e) => (Ok(Expr::Quote(Box::new(e))), p2),
            Err(e) => (Err(e), p2),
        }
    } else if c == ':' {
        let (r0, p2) = parse_symbol(chars, p);
        match r0 {
            Ok(e) => match e {
                Expr::Symbol(v) => (Ok(Expr::Keyword(v)), p2),
                _ => (
                    (
                        Err(ParseError::InvalidExpr("keyword was not parsed as a symbol".to_owned())),
                        p2,
                    )
                ),
            },
            Err(e) => (Err(e), p2),
        }
    } else {
        parse_symbol(chars, p)
    }
}

/// Every expression in the input, in order, stopping quietly at its end.
#[verifier::loop_isolation(false)]
pub fn parse_exprs(chars: &Vec<char>) -> (r: Result<Vec<Expr>, ParseError>)
    ensures
        chars@.len() == 0 ==> (r matches Ok(v) && v@.len() == 0),
        ({
            let rm = parse_seq_s(chars@, 0, Seq::empty());
            match (r, rm) {
                (Ok(v), Ok(vm)) => exprs_view(v@) == vm,
                (Err(e), Err(em)) => e@ == em,
                _ => false,
            }
        }),
    decreases chars@.len(), 4int,
{
    broadcast use lemma_exprs_view_len, lemma_exprs_view_index;

    let mut exprs: Vec<Expr> = Vec::new();
    let mut p: usize = 0;
    proof {
        assert(exprs_view(exprs@) =~= Seq::<ExprM>::empty());
    }
    while p < chars.len()
        invariant
            p <= chars@.len(),
            chars@.len() == 0 ==> exprs@.len() == 0,
            parse_seq_s(chars@, 0, Seq::empty()) == parse_seq_s(
                chars@,
                p as int,
                exprs_view(exprs@),
            ),
        decreases chars@.len() - p,
    {
        let ghost p_pre = p as int;
        let ghost acc_pre = exprs_view(exprs@);
        let (r0, p2) = parse_chars(chars, p);
        p = p2;
        match r0 {
            Ok(e) => {
                let ghost exprs_old = exprs@;
                exprs.push(e);
                proof {
                    assert(exprs@.drop_last() =~= exprs_old);
                    assert(exprs_view(exprs@) =~= exprs_view(exprs_old).push(e@));
                    assert(parse_seq_s(chars@, p_pre, acc_pre) == parse_seq_s(
                        chars@,
                        p as int,
                        exprs_view(exprs@),
                    ));
                }
            },
            Err(e) => {
                if matches!(e, ParseError::EmptyExpr) {
                    return Ok(exprs);
                }
                return Err(e);
            },
        }
    }
    Ok(exprs)
}

/// The expressions of a whole source text, in order; an empty text yields
/// none.
pub fn parse_text_to_expressions(text: &str) -> (r: Result<Vec<Expr>, ParseError>)
    ensures
        text@.len() == 0 ==> (r matches Ok(v) && v@.len() == 0),
        ({
            let rm = parse_program_s(text@);
            match (r, rm) {
                (Ok(v), Ok(vm)) => exprs_view(v@) == vm,
                (Err(e), Err(em)) => e@ == em,
                _ => false,
            }
        }),
{
    let cs = str_to_chars(text);
    parse_exprs(&cs)
}

/// The first expression of a source text; an empty text is the `EmptyExpr`
/// error.
pub fn parse_text_to_expression(text: &str) -> (r: Result<Expr, ParseError>)
    ensures
        text@.len() == 0 ==> (r matches Err(e) && e@ is EmptyExpr),
        pres_matches(r, parse_chars_s(text@, 0).0),
{
    let cs = str_to_chars(text);
    let (r0, _) = parse_chars(&cs, 0);
    r0
}

/// A parenthesised list of expressions.
#[verifier::loop_isolation(false)]
pub fn parse_list(chars: &Vec<char>, pos: usize) -> (r: (Result<Expr, ParseError>, usize))
    requires
        pos <= chars@.len(),
    ensures
        pos <= r.1 <= chars@.len(),
        r.0 is Ok ==> r.1 > pos,
        r.0 matches Err(e) ==> !(e@ is EmptyExpr),
        ({
            let (rm, pm) = parse_list_s(chars@, pos as int);
            r.1 == pm && pres_matches(r.0, rm)
        }),
    decreases chars@.len() - pos, 2int,
{
    let (bet, p1) = consume_chars_between(chars, pos, '(', ')');
    match bet {
        Err(e) => (Err(e), p1),
        Ok(inner) => {
            proof {
                lemma_parse_seq_err(inner@, 0, Seq::empty());
            }
            match parse_exprs(&inner) {
                Ok(elems) => (Ok(Expr::List(elems)), p1),
                Err(e) => (Err(e), p1),
            }
        },
    }
}

/// A bracketed vector of expressions.
#[verifier::loop_isolation(false)]
pub fn parse_vector(chars: &Vec<char>, pos: usize) -> (r: (Result<Expr, ParseError>, usize))
    requires
        pos <= chars@.len(),
    ensures
        pos <= r.1 <= chars@.len(),
        r.0 is Ok ==> r.1 > pos,
        r.0 matches Err(e) ==> !(e@ is EmptyExpr),
        ({
            let (rm, pm) = parse_vector_s(chars@, pos as int);
            r.1 == pm && pres_matches(r.0, rm)
        }),
    decreases chars@.len() - pos, 2int,
{
    let (bet, p1) = consume_chars_between(chars, pos, '[', ']');
    match bet {
        Err(e) => (Err(e), p1),
        Ok(inner) => {
            proof {
                lemma_parse_seq_err(inner@, 0, Seq::empty());
            }
            match parse_exprs(&inner) {
                Ok(elems) => (Ok(Expr::Vector(elems)), p1),
                Err(e) => (Err(e), p1),
            }
        },
    }
}

/// A braced hash-map literal: an even run of expressions, read as
/// alternating keys and values.
#[verifier::loop_isolation(false)]
pub fn parse_hashmap(chars: &Vec<char>, pos: usize) -> (r: (Result<Expr, ParseError>, usize))
    requires
        pos <= chars@.len(),
    ensures
        pos <= r.1 <= chars@.len(),
        r.0 is Ok ==> r.1 > pos,
        r.0 matches Err(e) ==> !(e@ is EmptyExpr),
        ({
            let (rm, pm) = parse_hashmap_s(chars@, pos as int);
            r.1 == pm && pres_matches(r.0, rm)
        }),
    decreases chars@.len() - pos, 2int,
{
    broadcast use lemma_exprs_view_len, lemma_exprs_view_index, lemma_expr_pairs_view_len, lemma_expr_pairs_view_index;

    let (bet, p1) = consume_chars_between(chars, pos, '{', '}');
    match bet {
        Err(e) => (Err(e), p1),
        Ok(inner) => {
            proof {
                lemma_parse_seq_err(inner@, 0, Seq::empty());
            }
            match parse_exprs(&inner) {
                Err(e) => (Err(e), p1),
                Ok(exprs) => {
                    let ghost spec_exprs = exprs_view(exprs@);
                    if exprs.len() % 2 != 0 {
                        let shown = exprs[exprs.len() - 1].to_text();
                        proof {
                            assert(spec_exprs.last() == exprs@[exprs@.len() - 1]@);
                        }
                        return (Err(ParseError::HashmapMissingValue(shown)), p1);
                    }
                    let mut pairs: Vec<(Expr, Expr)> = Vec::new();
                    let mut i: usize = 0;
                    while i < exprs.len() && i + 1 < exprs.len()
                        invariant
                            i <= exprs@.len(),
                            i % 2 == 0,
                            exprs@.len() % 2 == 0,
                            pairs@.len() == i / 2,
                            forall|j: int|
                                0 <= j < i / 2 ==> expr_pairs_view(pairs@)[j] == (
                                    spec_exprs[2 * j],
                                    spec_exprs[2 * j + 1],
                                ),
                        decreases exprs@.len() - i,
                    {
                        let ghost pairs_old = pairs@;
                        pairs.push((exprs[i].clone(), exprs[i + 1].clone()));
                        proof {
                            assert(pairs@.drop_last() =~= pairs_old);
                            lemma_expr_pairs_view_len(pairs_old);
                            lemma_exprs_view_index(exprs@, i as int);
                            lemma_exprs_view_index(exprs@, i as int + 1);
                            assert(expr_pairs_view(pairs@) == expr_pairs_view(pairs_old).push(
                                (exprs@[i as int]@, exprs@[i as int + 1]@),
                            ));
                            lemma_expr_pairs_view_index(pairs@, i as int / 2);
                            assert forall|j: int| 0 <= j < (i + 2) / 2 implies expr_pairs_view(
                                pairs@,
                            )[j] == (spec_exprs[2 * j], spec_exprs[2 * j + 1]) by {
                                if j < i / 2 {
                                    assert(expr_pairs_view(pairs@)[j] == expr_pairs_view(
                                        pairs_old,
                                    )[j]);
                                }
                            }
                        }
                        i = i + 2;
                    }
                    proof {
                        assert(expr_pairs_view(pairs@) =~= pair_up_s(spec_exprs));
                    }
                    (Ok(Expr::HashMap(pairs)), p1)
                },
            }
        },
    }
}

/// A symbol, or one of the special identifiers `nil`, `true` and `false`.
/// A comment inside the run is skipped; whitespace or a comma ends it.
#[verifier::loop_isolation(false)]
pub fn parse_symbol(chars: &Vec<char>, pos: usize) -> (r: (Result<Expr, ParseError>, usize))
    requires
        pos <= chars@.len(),
    ensures
        pos <= r.1 <= chars@.len(),
        r.0 is Ok,
        pos < chars@.len() ==> r.1 > pos,
        ({
            let (rm, pm) = parse_symbol_s(chars@, pos as int);
            r.1 == pm && pres_matches(r.0, rm)
        }),
{
    let mut p = pos;
    let mut buf: Vec<char> = Vec::new();
    let mut done = false;
    proof {
        assert(buf@ =~= Seq::<char>::empty());
    }
    while p < chars.len() && !done
        invariant
            pos <= p <= chars@.len(),
            !done ==> sym_rec_s(chars@, pos as int, Seq::empty()) == sym_rec_s(
                chars@,
                p as int,
                buf@,
            ),
            done ==> p > pos && sym_rec_s(chars@, pos as int, Seq::empty()) == (buf@, p as int),
        decreases chars@.len() - p,
    {
        let c = chars[p];
        p = p + 1;
        if c == ';' {
            p = consume_comment(chars, p);
        } else if is_ws(c) || c == ',' {
            done = true;
        } else {
            buf.push(c);
        }
    }
    let e = if text_is(&buf, "nil") {
        Expr::Nil
    } else if text_is(&buf, "true") || text_is(&buf, "#t") {
        Expr::Boolean(true)
    } else if text_is(&buf, "false") || text_is(&buf, "#f") {
        Expr::Boolean(false)
    } else {
        Expr::Symbol(chars_to_string(&buf))
    };
    proof {
        assert(sym_rec_s(chars@, pos as int, Seq::empty()) == (buf@, p as int));
        assert(e@ == classify_symbol_s(buf@));
    }
    (Ok(e), p)
}

/// Whether the collected characters spell the given word.
fn text_is(buf: &Vec<char>, lit: &str) -> (r: bool)
    ensures
        r == (buf@ == lit@),
{
    let s = chars_to_string(buf);
    let l = lit.to_owned();
    s == l
}

/// Whether `chars[pos..end]` is a maximal digit run starting at `pos`.
pub open spec fn digit_run(chars: Seq<char>, pos: int, end: int) -> bool {
    &&& pos < end <= chars.len()
    &&& forall|k: int| pos <= k < end ==> is_digit_char(#[trigger] chars[k])
    &&& (end == chars.len() || !is_digit_char(chars[end]))
}

/// An unsigned integer literal: a digit run ended by whitespace, a comma, a
/// comment, or the end of the input. Its value is the number the digits
/// spell. A different character inside the run is an error naming it; a
/// run too large for the integer domain is `IntegerParseError`.
#[verifier::loop_isolation(false)]
pub fn parse_integer(chars: &Vec<char>, pos: usize) -> (r: (Result<Expr, ParseError>, usize))
    requires
        pos < chars@.len(),
        is_digit_char(chars@[pos as int]),
    ensures
        pos <= r.1 <= chars@.len(),
        r.0 is Ok ==> r.1 > pos && r.0->Ok_0 is Integer,
        r.0 matches Ok(e) ==> (exists|j: int|
            #[trigger] digit_run(chars@, pos as int, j) && e@ == crate::types::ExprM::Integer(
                digits_val(chars@.subrange(pos as int, j)),
            )),
        r.0 matches Err(e) ==> !(e@ is EmptyExpr),
        ({
            let (rm, pm) = parse_integer_s(chars@, pos as int);
            r.1 == pm && pres_matches(r.0, rm)
        }),
{
    let mut p = pos;
    let mut buf: Vec<char> = Vec::new();
    let mut done = false;
    proof {
        assert(buf@ =~= chars@.subrange(pos as int, pos as int));
        assert(buf@ =~= Seq::<char>::empty());
    }
    while p < chars.len() && !done
        invariant
            pos <= p <= chars@.len(),
            pos + buf@.len() <= chars@.len(),
            buf@ == chars@.subrange(pos as int, pos + buf@.len()),
            forall|i: int| 0 <= i < buf@.len() ==> is_digit_char(#[trigger] buf@[i]),
            !done ==> p == pos + buf@.len(),
            done ==> pos + buf@.len() <= p <= pos + buf@.len() + 1,
            done ==> (pos + buf@.len() == chars@.len() || !is_digit_char(
                chars@[pos + buf@.len()],
            )),
            !done ==> int_rec_s(chars@, pos as int, Seq::empty()) == int_rec_s(
                chars@,
                p as int,
                buf@,
            ),
            done ==> int_rec_s(chars@, pos as int, Seq::empty()) == int_fin_s(buf@, p as int),
        decreases chars@.len() - p + (if done { 0int } else { 1int }),
    {
        let c = chars[p];
        if is_digit(c) {
            buf.push(c);
            proof {
                assert(buf@ =~= chars@.subrange(pos as int, pos + buf@.len()));
            }
            p = p + 1;
        } else if is_ws(c) {
            p = p + 1;
            done = true;
        } else if c == ';' || c == ',' {
            done = true;
        } else {
            return (Err(ParseError::IntegerContainsNonNumericChar(c)), p);
        }
    }
    proof {
        assert(buf@.len() >= 1) by {
            if buf@.len() == 0 {
                assert(is_digit_char(chars@[pos as int]));
            }
        }
        assert forall|k: int| pos <= k < pos + buf@.len() implies is_digit_char(
            #[trigger] chars@[k],
        ) by {
            assert(buf@[k - pos] == chars@[k]);
        }
        assert(digit_run(chars@, pos as int, pos + buf@.len()));
    }
    proof {
        assert(int_rec_s(chars@, pos as int, Seq::empty()) == int_fin_s(buf@, p as int));
    }
    match digits_to_i64(&buf) {
        Ok(n) => {
            proof {
                let j = pos + buf@.len();
                assert(digit_run(chars@, pos as int, j) && Expr::Integer(n)@
                    == crate::types::ExprM::Integer(
                    digits_val(chars@.subrange(pos as int, j)),
                ));
            }
            (Ok(Expr::Integer(n)), p)
        },
        Err(e) => (Err(e), p),
    }
}

/// A string literal: characters between double quotes, with escapes for a
/// quote, a newline and a backslash understood inside it.
#[verifier::loop_isolation(false)]
pub fn parse_string(chars: &Vec<char>, pos: usize) -> (r: (Result<Expr, ParseError>, usize))
    requires
        pos <= chars@.len(),
    ensures
        pos <= r.1 <= chars@.len(),
        r.0 is Ok ==> r.1 > pos && r.0->Ok_0 is String,
        r.0 matches Err(e) ==> !(e@ is EmptyExpr),
        ({
            let (rm, pm) = parse_string_s(chars@, pos as int);
            r.1 == pm && pres_matches(r.0, rm)
        }),
{
    let mut p = pos;
    if p >= chars.len() {
        return (Err(ParseError::InvalidString), p);
    }
    let c0 = chars[p];
    p = p + 1;
    if c0 != '"' {
        return (Err(ParseError::InvalidString), p);
    }
    let mut buf: Vec<char> = Vec::new();
    let mut done = false;
    proof {
        assert(buf@ =~= Seq::<char>::empty());
    }
    while p < chars.len() && !done
        invariant
            pos < p <= chars@.len(),
            !done ==> str_rec_s(chars@, pos + 1, Seq::empty()) == str_rec_s(
                chars@,
                p as int,
                buf@,
            ),
            done ==> str_rec_s(chars@, pos + 1, Seq::empty()) == (
                Ok::<Seq<char>, PErrM>(buf@),
                p as int,
            ),
        decreases chars@.len() - p,
    {
        let c = chars[p];
        p = p + 1;
        if c == '"' {
            done = true;
        } else if c == '\\' {
            if p >= chars.len() {
                return (Err(ParseError::StringInvalidBackslash), p);
            }
            let e = chars[p];
            p = p + 1;
            if e == '"' {
                buf.push('"');
            } else if e == 'n' {
                buf.push('\n');
            } else if e == '\\' {
                buf.push('\\');
            } else {
                return (Err(ParseError::StringInvalidBackslash), p);
            }
        } else {
            buf.push(c);
        }
    }
    proof {
        assert(str_rec_s(chars@, pos + 1, Seq::empty()) == (
            Ok::<Seq<char>, PErrM>(buf@),
            p as int,
        ));
    }
    (Ok(Expr::String(chars_to_string(&buf))), p)
}

} // verus!
