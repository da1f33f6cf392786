//! Symbolic differentiation.
//!
//! Every expression is simplified before it is differentiated, the whole
//! expression and each sub-expression that a rule differentiates in turn;
//! each partial result is simplified as it is built. The recursion ends
//! because simplifying never makes a term heavier (`measure`), and a child
//! is lighter than its parent.
use vstd::prelude::*;

use crate::number::{lemma_arith_wf, num_sub_one, Num};
use crate::simplify::{lemma_simplified_measure, lemma_simplified_wf, measure, simplified};
use crate::term::{nums_wf, Term};

verus! {

/// Why a derivative could not be taken.
#[derive(Clone, Copy, Debug, PartialEq, Eq)]
pub enum DiffError {
    /// The variable of differentiation is not a `Var`.
    InvalidDifferentiationVariable,
    /// No rule is implemented for this shape of expression.
    UnsupportedDifferentiation,
}

/// The derivative of `e` with respect to the variable `v`: `e` is simplified
/// first, and the rule for the shape of the result applies.
pub open spec fn derivative_of(e: Term, v: char) -> Result<Term, DiffError>
    decreases measure(e),
    via derivative_of_decreases
{
    match simplified(e) {
        Term::Constant(_) => Ok(Term::Constant(Num::zero_spec())),
        Term::Var(x) => Ok(Term::Constant(if x == v { Num::one_spec() } else { Num::zero_spec() })),
        Term::Sum(a, b) => match derivative_of(*a, v) {
            Err(e) => Err(e),
            Ok(da) => match derivative_of(*b, v) {
                Err(e) => Err(e),
                Ok(db) => Ok(simplified(Term::Sum(Box::new(da), Box::new(db)))),
            },
        },
        Term::Scale { coefficient, term } => match derivative_of(*term, v) {
            Err(e) => Err(e),
            Ok(dt) => Ok(simplified(Term::Scale { coefficient, term: Box::new(dt) })),
        },
        Term::Product(a, b) => match derivative_of(*a, v) {
            Err(e) => Err(e),
            Ok(da) => match derivative_of(*b, v) {
                Err(e) => Err(e),
                Ok(db) => Ok(simplified(Term::Sum(
                    Box::new(simplified(Term::Product(Box::new(da), b))),
                    Box::new(simplified(Term::Product(a, Box::new(db)))),
                ))),
            },
        },
        Term::Power { base, exponent } => match *exponent {
            Term::Constant(c) => match num_sub_one(c) {
                None => Err(DiffError::UnsupportedDifferentiation),
                Some(c1) => match derivative_of(*base, v) {
                    Err(e) => Err(e),
                    Ok(db) => Ok(simplified(Term::Product(
                        Box::new(Term::Scale {
                            coefficient: c,
                            term: Box::new(Term::Power {
                                base,
                                exponent: Box::new(Term::Constant(c1)),
                            }),
                        }),
                        Box::new(db),
                    ))),
                },
            },
            _ => Err(DiffError::UnsupportedDifferentiation),
        },
        Term::Sin(t) => match derivative_of(*t, v) {
            Err(e) => Err(e),
            Ok(dt) => Ok(simplified(Term::Product(Box::new(Term::Cos(t)), Box::new(dt)))),
        },
        _ => Err(DiffError::UnsupportedDifferentiation),
    }
}

#[via_fn]
proof fn derivative_of_decreases(e: Term, v: char) {
    lemma_simplified_measure(e);
}

/// The derivative of `e` with respect to `wrt`: `wrt` must be a variable,
/// and `e` is differentiated in its simplified form.
pub open spec fn differentiated(e: Term, wrt: Term) -> Result<Term, DiffError> {
    match wrt {
        Term::Var(v) => derivative_of(e, v),
        _ => Err(DiffError::InvalidDifferentiationVariable),
    }
}

fn derive(e: Term, v: char) -> (r: Result<Term, DiffError>)
    ensures
        r == derivative_of(e, v),
    decreases measure(e),
{
    let s = e.simplify();
    match s {
        Term::Constant(_) => Ok(Term::Constant(Num::zero())),
        Term::Var(x) => Ok(Term::Constant(if x == v { Num::one() } else { Num::zero() })),
        Term::Sum(a, b) => {
            let da = derive(*a, v)?;
            let db = derive(*b, v)?;
            Ok(Term::Sum(Box::new(da), Box::new(db)).simplify())
        },
        Term::Scale { coefficient, term } => {
            let dt = derive(*term, v)?;
            Ok(Term::Scale { coefficient, term: Box::new(dt) }.simplify())
        },
        Term::Product(a, b) => {
            let da = derive(a.duplicate(), v)?;
            let db = derive(b.duplicate(), v)?;
            let left = Term::Product(Box::new(da), b).simplify();
            let right = Term::Product(a, Box::new(db)).simplify();
            Ok(Term::Sum(Box::new(left), Box::new(right)).simplify())
        },
        Term::Power { base, exponent } => match *exponent {
            Term::Constant(c) => match c.sub_one() {
                None => Err(DiffError::UnsupportedDifferentiation),
                Some(c1) => {
                    let db = derive(base.duplicate(), v)?;
                    let lowered = Term::Power { base, exponent: Box::new(Term::Constant(c1)) };
                    let outer = Term::Scale { coefficient: c, term: Box::new(lowered) };
                    Ok(Term::Product(Box::new(outer), Box::new(db)).simplify())
                },
            },
            _ => Err(DiffError::UnsupportedDifferentiation),
        },
        Term::Sin(t) => {
            let dt = derive(t.duplicate(), v)?;
            Ok(Term::Product(Box::new(Term::Cos(t)), Box::new(dt)).simplify())
        },
        _ => Err(DiffError::UnsupportedDifferentiation),
    }
}

impl Term {
    /// The derivative of `self` with respect to the variable `wrt`.
    ///
    /// Fails with `InvalidDifferentiationVariable` when `wrt` is not a
    /// variable, and with `UnsupportedDifferentiation` when the simplified
    /// expression holds a shape with no rule: a cosine, an exponential, a
    /// pending derivative, a power whose exponent is not a constant, or a
    /// power whose constant exponent minus one does not fit.
    pub fn differentiate(self, wrt: Term) -> (r: Result<Term, DiffError>)
        ensures
            r == differentiated(self, wrt),
            nums_wf(self) ==> (r matches Ok(d) ==> nums_wf(d)),
    {
        proof {
            if nums_wf(self) {
                if let Term::Var(v) = wrt {
                    lemma_derivative_wf(self, v);
                }
            }
        }
        match wrt {
            Term::Var(v) => derive(self, v),
            _ => Err(DiffError::InvalidDifferentiationVariable),
        }
    }
}

/// A derivative of a term with well-formed constants has well-formed constants.
pub proof fn lemma_derivative_wf(e: Term, v: char)
    requires
        nums_wf(e),
    ensures
        derivative_of(e, v) matches Ok(d) ==> nums_wf(d),
    decreases measure(e),
{
    lemma_simplified_measure(e);
    lemma_simplified_wf(e);
    let s = simplified(e);
    match s {
        Term::Sum(a, b) => {
            lemma_derivative_wf(*a, v);
            lemma_derivative_wf(*b, v);
            if let (Ok(da), Ok(db)) = (derivative_of(*a, v), derivative_of(*b, v)) {
                lemma_simplified_wf(Term::Sum(Box::new(da), Box::new(db)));
            }
        },
        Term::Scale { coefficient, term } => {
            lemma_derivative_wf(*term, v);
            if let Ok(dt) = derivative_of(*term, v) {
                lemma_simplified_wf(Term::Scale { coefficient, term: Box::new(dt) });
            }
        },
        Term::Product(a, b) => {
            lemma_derivative_wf(*a, v);
            lemma_derivative_wf(*b, v);
            if let (Ok(da), Ok(db)) = (derivative_of(*a, v), derivative_of(*b, v)) {
                let left = Term::Product(Box::new(da), b);
                let right = Term::Product(a, Box::new(db));
                lemma_simplified_wf(left);
                lemma_simplified_wf(right);
                lemma_simplified_wf(Term::Sum(Box::new(simplified(left)), Box::new(simplified(right))));
            }
        },
        Term::Power { base, exponent } => {
            lemma_derivative_wf(*base, v);
            if let Term::Constant(c) = *exponent {
                assert(nums_wf(*exponent));
                lemma_arith_wf(c, c);
                if let (Some(c1), Ok(db)) = (num_sub_one(c), derivative_of(*base, v)) {
                    let lowered = Term::Power { base, exponent: Box::new(Term::Constant(c1)) };
                    let outer = Term::Scale { coefficient: c, term: Box::new(lowered) };
                    assert(nums_wf(Term::Constant(c1)));
                    assert(nums_wf(lowered));
                    assert(nums_wf(outer));
                    assert(nums_wf(Term::Product(Box::new(outer), Box::new(db))));
                    lemma_simplified_wf(Term::Product(Box::new(outer), Box::new(db)));
                }
            }
        },
        Term::Sin(t) => {
            lemma_derivative_wf(*t, v);
            if let Ok(dt) = derivative_of(*t, v) {
                assert(nums_wf(Term::Cos(t)));
                lemma_simplified_wf(Term::Product(Box::new(Term::Cos(t)), Box::new(dt)));
            }
        },
        _ => {},
    }
}

/// Differentiating a variable with respect to itself gives the constant one.
pub proof fn lemma_variable_by_itself(v: char)
    ensures
        differentiated(Term::Var(v), Term::Var(v)) == Ok::<Term, DiffError>(Term::Constant(Num::one_spec())),
{
}

/// Differentiating a constant gives the constant zero, whatever the variable.
pub proof fn lemma_constant_vanishes(k: Num, v: char)
    ensures
        differentiated(Term::Constant(k), Term::Var(v)) == Ok::<Term, DiffError>(Term::Constant(Num::zero_spec())),
{
}

/// Differentiating with respect to anything but a variable is refused,
/// whatever the expression.
pub proof fn lemma_non_variable_refused(e: Term, wrt: Term)
    requires
        !(wrt is Var),
    ensures
        differentiated(e, wrt) == Err::<Term, DiffError>(DiffError::InvalidDifferentiationVariable),
{
}

} // verus!
