//! Infix text of an expression.
//!
//! Factors of a product are separated by ` * `. A sum is put in parentheses
//! where it stands as a factor, a base, an exponent, or under a coefficient;
//! a product likewise as a base or an exponent. A pending derivative shows its order as prime marks.
use vstd::prelude::*;

use crate::number::{magnitude, Num};
use crate::term::Term;

verus! {

/// The character of a decimal digit.
pub open spec fn digit_char(d: int) -> char {
    if d == 0 { '0' }
    else if d == 1 { '1' }
    else if d == 2 { '2' }
    else if d == 3 { '3' }
    else if d == 4 { '4' }
    else if d == 5 { '5' }
    else if d == 6 { '6' }
    else if d == 7 { '7' }
    else if d == 8 { '8' }
    else { '9' }
}

/// The decimal digits of `n`, most significant first.
pub open spec fn digits(n: nat) -> Seq<char>
    decreases n,
{
    if n < 10 {
        seq![digit_char(n as int)]
    } else {
        digits(n / 10) + seq![digit_char((n % 10) as int)]
    }
}

/// An integer in decimal, with a leading `-` when negative.
pub open spec fn int_text(n: int) -> Seq<char> {
    if n < 0 {
        seq!['-'] + digits((-n) as nat)
    } else {
        digits(n as nat)
    }
}

/// The most digits written after a decimal point. Every fraction with a
/// denominator below `2^63` whose decimal expansion ends, ends within them.
pub const MAX_FRACTION_DIGITS: u64 = 64;

/// The digits after the decimal point of `r / d`, by long division, when
/// the expansion ends within `k` digits.
pub open spec fn fraction_digits(r: nat, d: nat, k: nat) -> Option<Seq<char>>
    decreases k,
{
    if r == 0 {
        Some(Seq::empty())
    } else if k == 0 {
        None
    } else {
        match fraction_digits((((r as int) * 10) % (d as int)) as nat, d, (k - 1) as nat) {
            Some(s) => Some(seq![digit_char(((r as int) * 10) / (d as int))] + s),
            None => None,
        }
    }
}

/// A fraction in decimal notation when its expansion ends (`2.5`, `-3`),
/// any other as `(num/den)`.
pub open spec fn num_text(n: Num) -> Seq<char> {
    let a = magnitude(n.num as int) as int;
    let d = n.den as int;
    if d > 0 && fraction_digits((a % d) as nat, d as nat, MAX_FRACTION_DIGITS as nat) is Some {
        let s = fraction_digits((a % d) as nat, d as nat, MAX_FRACTION_DIGITS as nat)->Some_0;
        (if n.num < 0 { seq!['-'] } else { Seq::<char>::empty() }) + digits((a / d) as nat) + (if s.len()
            == 0 {
            Seq::<char>::empty()
        } else {
            seq!['.'] + s
        })
    } else {
        seq!['('] + int_text(n.num as int) + seq!['/'] + int_text(n.den as int) + seq![')']
    }
}

pub open spec fn in_parens(s: Seq<char>) -> Seq<char> {
    seq!['('] + s + seq![')']
}

/// The text `s` of `t`, in parentheses when `t` is a sum.
pub open spec fn sum_grouped(t: Term, s: Seq<char>) -> Seq<char> {
    if t is Sum { in_parens(s) } else { s }
}

/// `n` prime marks.
pub open spec fn primes(n: nat) -> Seq<char>
    decreases n,
{
    if n == 0 { Seq::empty() } else { primes((n - 1) as nat).push('\'') }
}

/// The text `s` of `t` as a base or an exponent: in parentheses when `t` is
/// a sum or a product.
pub open spec fn operand_grouped(t: Term, s: Seq<char>) -> Seq<char> {
    if t is Sum || t is Product { in_parens(s) } else { s }
}

/// The infix text of `t`.
pub open spec fn rendered(t: Term) -> Seq<char>
    decreases t,
{
    match t {
        Term::Constant(n) => num_text(n),
        Term::Var(c) => seq![c],
        Term::Sum(a, b) => rendered(*a) + seq![' ', '+', ' '] + rendered(*b),
        Term::Scale { coefficient, term } => if *term is Sum {
            num_text(coefficient) + in_parens(rendered(*term))
        } else {
            num_text(coefficient) + seq!['*'] + rendered(*term)
        },
        Term::Product(a, b) => sum_grouped(*a, rendered(*a)) + seq![' ', '*', ' '] + sum_grouped(
            *b,
            rendered(*b),
        ),
        Term::Power { base, exponent } => operand_grouped(*base, rendered(*base)) + seq!['^']
            + operand_grouped(*exponent, rendered(*exponent)),
        Term::Exponential(base, term) => num_text(base) + seq!['^'] + operand_grouped(
            *term,
            rendered(*term),
        ),
        Term::Sin(term) => seq!['s', 'i', 'n'] + in_parens(rendered(*term)),
        Term::Cos(term) => seq!['c', 'o', 's'] + in_parens(rendered(*term)),
        Term::Derivative { order, wrt, term } => seq!['('] + rendered(*term) + seq![
            ',',
            ' ',
            'w',
            'r',
            't',
            ':',
            ' ',
        ] + rendered(*wrt) + seq![')'] + primes(order as nat),
    }
}

fn digit(d: u64) -> (r: char)
    requires
        d < 10,
    ensures
        r == digit_char(d as int),
{
    if d == 0 { '0' }
    else if d == 1 { '1' }
    else if d == 2 { '2' }
    else if d == 3 { '3' }
    else if d == 4 { '4' }
    else if d == 5 { '5' }
    else if d == 6 { '6' }
    else if d == 7 { '7' }
    else if d == 8 { '8' }
    else { '9' }
}

fn write_digits(n: u64, out: &mut Vec<char>)
    ensures
        final(out)@ == old(out)@ + digits(n as nat),
    decreases n,
{
    if n >= 10 {
        write_digits(n / 10, out);
    }
    out.push(digit(n % 10));
    assert(final(out)@ =~= old(out)@ + digits(n as nat));
}

fn write_int(n: i64, out: &mut Vec<char>)
    ensures
        final(out)@ == old(out)@ + int_text(n as int),
{
    if n < 0 {
        out.push('-');
        let m: u64 = if n == i64::MIN { 9223372036854775808u64 } else { (-n) as u64 };
        write_digits(m, out);
        assert(final(out)@ =~= old(out)@ + int_text(n as int));
    } else {
        write_digits(n as u64, out);
    }
}

fn fraction_text(r: u64, d: u64, k: u64) -> (res: Option<Vec<char>>)
    requires
        r < d,
    ensures
        res matches Some(v) ==> fraction_digits(r as nat, d as nat, k as nat) == Some(v@),
        res is None ==> fraction_digits(r as nat, d as nat, k as nat) is None,
    decreases k,
{
    if r == 0 {
        return Some(Vec::new());
    }
    if k == 0 {
        return None;
    }
    let r10: u128 = (r as u128) * 10;
    let q: u128 = r10 / (d as u128);
    let rem: u128 = r10 % (d as u128);
    assert(q < 10 && rem < d) by (nonlinear_arith)
        requires
            r < d,
            r10 == (r as int) * 10,
            q == (r10 as int) / (d as int),
            rem == (r10 as int) % (d as int),
    ;
    match fraction_text(rem as u64, d, k - 1) {
        Some(mut rest) => {
            let mut v: Vec<char> = Vec::new();
            v.push(digit(q as u64));
            v.append(&mut rest);
            assert(v@ =~= seq![digit_char(((r as int) * 10) / (d as int))] + fraction_digits(
                rem as nat,
                d as nat,
                (k - 1) as nat,
            )->Some_0);
            Some(v)
        },
        None => None,
    }
}

fn write_num(n: Num, out: &mut Vec<char>)
    ensures
        final(out)@ == old(out)@ + num_text(n),
{
    if n.den > 0 {
        let a: u64 = if n.num == i64::MIN {
            9223372036854775808u64
        } else if n.num < 0 {
            (-n.num) as u64
        } else {
            n.num as u64
        };
        let d: u64 = n.den as u64;
        let rem = a % d;
        if let Some(mut s) = fraction_text(rem, d, MAX_FRACTION_DIGITS) {
            if n.num < 0 {
                out.push('-');
            }
            write_digits(a / d, out);
            if s.len() > 0 {
                out.push('.');
                out.append(&mut s);
            }
            assert(final(out)@ =~= old(out)@ + num_text(n));
            return;
        }
    }
    out.push('(');
    write_int(n.num, out);
    out.push('/');
    write_int(n.den, out);
    out.push(')');
    assert(final(out)@ =~= old(out)@ + num_text(n));
}

fn write_grouped(t: &Term, out: &mut Vec<char>, as_operand: bool)
    ensures
        final(out)@ == old(out)@ + (if as_operand {
            operand_grouped(*t, rendered(*t))
        } else {
            sum_grouped(*t, rendered(*t))
        }),
    decreases t, 1nat,
{
    let group = match t {
        Term::Sum(_, _) => true,
        Term::Product(_, _) => as_operand,
        _ => false,
    };
    if group {
        out.push('(');
        write_term(t, out);
        out.push(')');
    } else {
        write_term(t, out);
    }
    assert(final(out)@ =~= old(out)@ + (if as_operand {
        operand_grouped(*t, rendered(*t))
    } else {
        sum_grouped(*t, rendered(*t))
    }));
}

fn write_term(t: &Term, out: &mut Vec<char>)
    ensures
        final(out)@ == old(out)@ + rendered(*t),
    decreases t, 0nat,
{
    match t {
        Term::Constant(n) => write_num(*n, out),
        Term::Var(c) => {
            out.push(*c);
        },
        Term::Sum(a, b) => {
            write_term(a, out);
            out.push(' ');
            out.push('+');
            out.push(' ');
            write_term(b, out);
        },
        Term::Scale { coefficient, term } => {
            write_num(*coefficient, out);
            if let Term::Sum(_, _) = **term {
                out.push('(');
                write_term(term, out);
                out.push(')');
            } else {
                out.push('*');
                write_term(term, out);
            }
        },
        Term::Product(a, b) => {
            write_grouped(a, out, false);
            out.push(' ');
            out.push('*');
            out.push(' ');
            write_grouped(b, out, false);
        },
        Term::Power { base, exponent } => {
            write_grouped(base, out, true);
            out.push('^');
            write_grouped(exponent, out, true);
        },
        Term::Exponential(base, term) => {
            write_num(*base, out);
            out.push('^');
            write_grouped(term, out, true);
        },
        Term::Sin(term) => {
            out.push('s');
            out.push('i');
            out.push('n');
            out.push('(');
            write_term(term, out);
            out.push(')');
        },
        Term::Cos(term) => {
            out.push('c');
            out.push('o');
            out.push('s');
            out.push('(');
            write_term(term, out);
            out.push(')');
        },
        Term::Derivative { order, wrt, term } => {
            out.push('(');
            write_term(term, out);
            out.push(',');
            out.push(' ');
            out.push('w');
            out.push('r');
            out.push('t');
            out.push(':');
            out.push(' ');
            write_term(wrt, out);
            out.push(')');
            let mut i: usize = 0;
            while i < *order
                invariant
                    i <= *order,
                    out@ == old(out)@ + seq!['('] + rendered(**term) + seq![',', ' ', 'w', 'r', 't', ':', ' ']
                        + rendered(**wrt) + seq![')'] + primes(i as nat),
                decreases *order - i,
            {
                out.push('\'');
                i = i + 1;
                assert(out@ =~= old(out)@ + seq!['('] + rendered(**term) + seq![',', ' ', 'w', 'r', 't', ':', ' ']
                    + rendered(**wrt) + seq![')'] + primes(i as nat));
            }
        },
    }
    assert(final(out)@ =~= old(out)@ + rendered(*t));
}

/// Relies on std's `String::from_iter`: collecting characters into a
/// `String` gives exactly those characters, in order.
#[verifier::external_body]
fn string_of_chars(chars: Vec<char>) -> (r: String)
    ensures
        r@ == chars@,
{
    String::from_iter(chars)
}

impl Term {
    /// The infix text of the expression.
    pub fn to_text(&self) -> (r: String)
        ensures
            r@ == rendered(*self),
    {
        let mut out: Vec<char> = Vec::new();
        write_term(self, &mut out);
        assert(out@ =~= rendered(*self));
        string_of_chars(out)
    }
}

} // verus!
