//! Character-sequence helpers shared by the printer and the reader:
//! decimal rendering, string escaping, and joining with a delimiter.

use vstd::prelude::*;

verus! {

/// The character for one decimal digit.
pub open spec fn dec_digit(d: int) -> char {
    ((48 + d) as u8) as char
}

/// Decimal representation of a natural number, most significant digit
/// first, with no leading zeros (a single `'0'` for zero).
pub open spec fn dec_nat(n: nat) -> Seq<char>
    decreases n,
{
    if n < 10 {
        seq![dec_digit(n as int)]
    } else {
        dec_nat(n / 10).push(dec_digit((n % 10) as int))
    }
}

/// Decimal representation of an integer: a leading `'-'` for a negative
/// one.
pub open spec fn dec_int(n: int) -> Seq<char> {
    if n < 0 {
        seq!['-'] + dec_nat((-n) as nat)
    } else {
        dec_nat(n as nat)
    }
}

/// The readable escape of one character inside a string literal.
pub open spec fn escape_char(c: char) -> Seq<char> {
    if c == '"' {
        seq!['\\', '"']
    } else if c == '\\' {
        seq!['\\', '\\']
    } else if c == '\n' {
        seq!['\\', 'n']
    } else {
        seq![c]
    }
}

/// The readable escape of a whole string body.
pub open spec fn escape_str(s: Seq<char>) -> Seq<char>
    decreases s,
{
    if s.len() == 0 {
        Seq::empty()
    } else {
        escape_str(s.drop_last()) + escape_char(s.last())
    }
}

/// The given parts joined by the delimiter: nothing for no parts, and no
/// delimiter around a single part.
pub open spec fn join_seqs(parts: Seq<Seq<char>>, delim: Seq<char>) -> Seq<char>
    decreases parts,
{
    if parts.len() == 0 {
        Seq::empty()
    } else if parts.len() == 1 {
        parts[0]
    } else {
        join_seqs(parts.drop_last(), delim) + delim + parts.last()
    }
}

/// Relies on `str::chars` and `Iterator::collect`: the characters of a
/// string slice, in order.
#[verifier::external_body]
pub fn str_to_chars(s: &str) -> (r: Vec<char>)
    ensures
        r@ == s@,
{
    s.chars().collect()
}

/// Relies on `String`'s `FromIterator<char>`: the string holding exactly
/// the given characters, in order.
#[verifier::external_body]
pub fn chars_to_string(v: &Vec<char>) -> (r: String)
    ensures
        r@ == v@,
{
    v.iter().collect()
}

/// Appends every character of `src` to `dst`.
#[verifier::loop_isolation(false)]
pub fn push_all(dst: &mut Vec<char>, src: &Vec<char>)
    ensures
        final(dst)@ == old(dst)@ + src@,
{
    let mut i: usize = 0;
    while i < src.len()
        invariant
            0 <= i <= src.len(),
            dst@ == old(dst)@ + src@.take(i as int),
        decreases src.len() - i,
    {
        dst.push(src[i]);
        proof {
            assert(old(dst)@ + src@.take(i + 1) =~= (old(dst)@ + src@.take(i as int)).push(
                src@[i as int],
            ));
        }
        i = i + 1;
    }
    proof {
        assert(src@.take(src@.len() as int) =~= src@);
    }
}

/// Appends the characters of a string slice to `dst`.
pub fn push_str_chars(dst: &mut Vec<char>, s: &str)
    ensures
        final(dst)@ == old(dst)@ + s@,
{
    let cs = str_to_chars(s);
    push_all(dst, &cs);
}

/// Decimal digits of `n`, matching `dec_nat`.
pub fn u64_to_dec(n: u64) -> (r: Vec<char>)
    ensures
        r@ == dec_nat(n as nat),
    decreases n,
{
    if n < 10 {
        let mut r: Vec<char> = Vec::new();
        r.push((48 + n as u8) as char);
        proof {
            assert(r@ =~= seq![dec_digit(n as int)]);
        }
        r
    } else {
        let mut r = u64_to_dec(n / 10);
        r.push((48 + (n % 10) as u8) as char);
        r
    }
}

/// Decimal rendering of a signed integer, matching `dec_int`.
pub fn i64_to_dec(n: i64) -> (r: Vec<char>)
    ensures
        r@ == dec_int(n as int),
{
    if n >= 0 {
        u64_to_dec(n as u64)
    } else {
        let mag: u64 = if n == i64::MIN {
            9223372036854775808u64
        } else {
            (-n) as u64
        };
        let mut r: Vec<char> = Vec::new();
        r.push('-');
        let ds = u64_to_dec(mag);
        push_all(&mut r, &ds);
        proof {
            assert(seq!['-'] + dec_nat(mag as nat) =~= Seq::<char>::empty().push('-') + dec_nat(
                mag as nat,
            ));
        }
        r
    }
}

/// The readable escape of `src`'s characters, appended to `dst`.
#[verifier::loop_isolation(false)]
pub fn push_escaped(dst: &mut Vec<char>, src: &Vec<char>)
    ensures
        final(dst)@ == old(dst)@ + escape_str(src@),
{
    let mut i: usize = 0;
    while i < src.len()
        invariant
            0 <= i <= src.len(),
            dst@ == old(dst)@ + escape_str(src@.take(i as int)),
        decreases src.len() - i,
    {
        let c = src[i];
        let ghost pre = dst@;
        if c == '"' {
            dst.push('\\');
            dst.push('"');
        } else if c == '\\' {
            dst.push('\\');
            dst.push('\\');
        } else if c == '\n' {
            dst.push('\\');
            dst.push('n');
        } else {
            dst.push(c);
        }
        proof {
            assert(dst@ =~= pre + escape_char(c));
            assert(src@.take(i + 1).drop_last() =~= src@.take(i as int));
            assert(escape_str(src@.take(i + 1)) == escape_str(src@.take(i as int)) + escape_char(
                c,
            ));
            assert(dst@ =~= old(dst)@ + escape_str(src@.take(i + 1)));
        }
        i = i + 1;
    }
    proof {
        assert(src@.take(src@.len() as int) =~= src@);
    }
}

} // verus!
