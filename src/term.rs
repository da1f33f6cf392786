//! The expression tree.
use vstd::prelude::*;

use crate::number::Num;

verus! {

/// An expression. Every inner node exclusively owns its children.
#[derive(Debug, PartialEq)]
pub enum Term {
    /// A literal number.
    Constant(Num),
    /// A free variable.
    Var(char),
    /// `left + right`.
    Sum(Box<Term>, Box<Term>),
    /// `coefficient * term`, the coefficient a literal.
    Scale { coefficient: Num, term: Box<Term> },
    /// `left * right`.
    Product(Box<Term>, Box<Term>),
    /// `base ^ exponent`.
    Power { base: Box<Term>, exponent: Box<Term> },
    /// A literal base raised to a symbolic exponent.
    Exponential(Num, Box<Term>),
    /// `sin(term)`.
    Sin(Box<Term>),
    /// `cos(term)`.
    Cos(Box<Term>),
    /// The `order`-th derivative of `term` with respect to `wrt`, not yet evaluated.
    Derivative { order: usize, wrt: Box<Term>, term: Box<Term> },
}

/// Every constant and coefficient in `t` is a well-formed fraction.
pub open spec fn nums_wf(t: Term) -> bool
    decreases t,
{
    match t {
        Term::Constant(n) => n.wf(),
        Term::Var(_) => true,
        Term::Sum(a, b) => nums_wf(*a) && nums_wf(*b),
        Term::Scale { coefficient, term } => coefficient.wf() && nums_wf(*term),
        Term::Product(a, b) => nums_wf(*a) && nums_wf(*b),
        Term::Power { base, exponent } => nums_wf(*base) && nums_wf(*exponent),
        Term::Exponential(b, t) => b.wf() && nums_wf(*t),
        Term::Sin(t) => nums_wf(*t),
        Term::Cos(t) => nums_wf(*t),
        Term::Derivative { order, wrt, term } => nums_wf(*wrt) && nums_wf(*term),
    }
}

impl Term {
    /// A deep copy: an independent tree equal to `self`.
    pub fn duplicate(&self) -> (r: Term)
        ensures
            r == *self,
        decreases self,
    {
        match self {
            Term::Constant(n) => Term::Constant(*n),
            Term::Var(c) => Term::Var(*c),
            Term::Sum(a, b) => Term::Sum(Box::new(a.duplicate()), Box::new(b.duplicate())),
            Term::Scale { coefficient, term } => Term::Scale {
                coefficient: *coefficient,
                term: Box::new(term.duplicate()),
            },
            Term::Product(a, b) => Term::Product(Box::new(a.duplicate()), Box::new(b.duplicate())),
            Term::Power { base, exponent } => Term::Power {
                base: Box::new(base.duplicate()),
                exponent: Box::new(exponent.duplicate()),
            },
            Term::Exponential(b, t) => Term::Exponential(*b, Box::new(t.duplicate())),
            Term::Sin(t) => Term::Sin(Box::new(t.duplicate())),
            Term::Cos(t) => Term::Cos(Box::new(t.duplicate())),
            Term::Derivative { order, wrt, term } => Term::Derivative {
                order: *order,
                wrt: Box::new(wrt.duplicate()),
                term: Box::new(term.duplicate()),
            },
        }
    }
}

impl Clone for Term {
    fn clone(&self) -> (r: Term)
        ensures
            r == *self,
    {
        self.duplicate()
    }
}

} // verus!
