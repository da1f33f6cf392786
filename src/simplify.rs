//! The simplifier.
//!
//! One pass over the tree that looks one level ahead at each node: a rule
//! may fold literal children, drop a neutral child, or keep a subterm as it
//! is given; otherwise the children are simplified and the node rebuilt.
//! Fused and distributed scales are simplified again, so coefficient fusion
//! and distribution reach any depth.
//!
//! Re-entering the simplifier on its own results needs a termination
//! argument: `measure` never grows under simplification and shrinks on every
//! re-entry, and the recursion runs on a budget of that size.
use vstd::prelude::*;

use crate::number::{lemma_arith_wf, num_add, num_mul, num_pow, Num};
use crate::term::{nums_wf, Term};

verus! {

/// One event of a simplification trace.
#[derive(Debug, PartialEq)]
pub enum TraceEvent {
    /// The simplifier starts on `term`, at recursion depth `depth`.
    Enter { depth: usize, term: Term },
    /// The simplifier is done with the term it entered last at `depth`.
    Leave { depth: usize },
}

/// `t` is a constant equal to zero.
pub open spec fn is_zero_literal(t: Term) -> bool {
    t matches Term::Constant(n) && n.is_zero_spec()
}

/// `t` is a constant equal to one.
pub open spec fn is_one_literal(t: Term) -> bool {
    t matches Term::Constant(n) && n.is_one_spec()
}

/// The shapes that a coefficient wraps as they are given.
pub open spec fn kept_under_scale(t: Term) -> bool {
    ||| t is Var
    ||| t is Sin
    ||| t is Cos
    ||| t is Power
    ||| t is Exponential
    ||| t is Derivative
}

/// A size of a term that simplification never increases. A scale weighs
/// twice its term, so that distributing it over a sum makes the tree lighter.
pub open spec fn measure(t: Term) -> nat
    decreases t,
{
    match t {
        Term::Constant(_) => 1,
        Term::Var(_) => 1,
        Term::Sum(a, b) => measure(*a) + measure(*b) + 2,
        Term::Scale { coefficient, term } => 2 * measure(*term) + 1,
        Term::Product(a, b) => measure(*a) + measure(*b) + 1,
        Term::Power { base, exponent } => measure(*base) + measure(*exponent) + 1,
        Term::Exponential(_, term) => measure(*term) + 1,
        Term::Sin(term) => measure(*term) + 1,
        Term::Cos(term) => measure(*term) + 1,
        Term::Derivative { order, wrt, term } => measure(*wrt) + measure(*term) + 1,
    }
}

/// A pending derivative of a simplified term: a constant or a variable is
/// evaluated, anything else is kept unevaluated.
pub open spec fn derivative_rule(order: usize, wrt: Term, s: Term) -> Term {
    match s {
        Term::Constant(_) => if order == 0 {
            s
        } else {
            Term::Constant(Num::zero_spec())
        },
        Term::Var(_) => if order == 0 {
            s
        } else if order == 1 {
            Term::Constant(Num::one_spec())
        } else {
            Term::Constant(Num::zero_spec())
        },
        _ => Term::Derivative { order, wrt: Box::new(wrt), term: Box::new(s) },
    }
}

/// The rewrite of `t`, with recursion bounded by `fuel`; the bound is never
/// reached when `fuel` is at least `measure(t)`.
pub open spec fn simp(t: Term, fuel: nat) -> Term
    decreases fuel,
{
    if fuel == 0 {
        t
    } else {
        let f = (fuel - 1) as nat;
        match t {
            Term::Constant(_) => t,
            Term::Var(_) => t,
            Term::Sum(a, b) => if *a is Constant && *b is Constant && num_add(
                a->Constant_0,
                b->Constant_0,
            ) is Some {
                Term::Constant(num_add(a->Constant_0, b->Constant_0)->Some_0)
            } else if is_zero_literal(*a) {
                *b
            } else if is_zero_literal(*b) {
                *a
            } else {
                Term::Sum(Box::new(simp(*a, f)), Box::new(simp(*b, f)))
            },
            Term::Scale { coefficient: c, term } => match *term {
                Term::Constant(k) => match num_mul(c, k) {
                    Some(p) => Term::Constant(p),
                    None => t,
                },
                Term::Scale { coefficient: c2, term: t2 } => match num_mul(c, c2) {
                    Some(p) => simp(Term::Scale { coefficient: p, term: t2 }, f),
                    None => Term::Scale { coefficient: c, term: Box::new(simp(*term, f)) },
                },
                Term::Sum(t1, t2) => simp(
                    Term::Sum(
                        Box::new(simp(Term::Scale { coefficient: c, term: Box::new(simp(*t1, f)) }, f)),
                        Box::new(simp(Term::Scale { coefficient: c, term: Box::new(simp(*t2, f)) }, f)),
                    ),
                    f,
                ),
                Term::Product(_, _) => Term::Scale { coefficient: c, term: Box::new(simp(*term, f)) },
                _ => t,
            },
            Term::Product(a, b) => if *a is Constant && *b is Constant && num_mul(
                a->Constant_0,
                b->Constant_0,
            ) is Some {
                Term::Constant(num_mul(a->Constant_0, b->Constant_0)->Some_0)
            } else if is_zero_literal(*a) || is_zero_literal(*b) {
                Term::Constant(Num::zero_spec())
            } else if is_one_literal(*a) {
                *b
            } else if is_one_literal(*b) {
                *a
            } else {
                Term::Product(Box::new(simp(*a, f)), Box::new(simp(*b, f)))
            },
            Term::Power { base, exponent } => if *base is Constant && *exponent is Constant
                && num_pow(base->Constant_0, exponent->Constant_0) is Some {
                Term::Constant(num_pow(base->Constant_0, exponent->Constant_0)->Some_0)
            } else if *base is Constant && !(*exponent is Constant) {
                Term::Exponential(base->Constant_0, exponent)
            } else {
                Term::Power { base: Box::new(simp(*base, f)), exponent: Box::new(simp(*exponent, f)) }
            },
            Term::Exponential(b, term) => if *term is Constant && num_pow(b, term->Constant_0) is Some {
                Term::Constant(num_pow(b, term->Constant_0)->Some_0)
            } else {
                Term::Exponential(b, Box::new(simp(*term, f)))
            },
            Term::Sin(term) => if is_zero_literal(*term) {
                Term::Constant(Num::zero_spec())
            } else {
                Term::Sin(Box::new(simp(*term, f)))
            },
            Term::Cos(term) => if is_zero_literal(*term) {
                Term::Constant(Num::one_spec())
            } else {
                Term::Cos(Box::new(simp(*term, f)))
            },
            Term::Derivative { order, wrt, term } => derivative_rule(order, *wrt, simp(*term, f)),
        }
    }
}

/// The simplified form of `t`.
pub open spec fn simplified(t: Term) -> Term {
    simp(t, measure(t))
}

/// The depth one level below `d`, saturating at the largest `usize`.
pub open spec fn next_depth(d: usize) -> usize {
    if d < usize::MAX { (d + 1) as usize } else { d }
}

/// The trace of rewriting `t` at depth `d` within `fuel`: an `Enter` event,
/// the traces of the rewrites it makes in turn, and a `Leave` event.
pub open spec fn simp_trace(t: Term, d: usize, fuel: nat) -> Seq<TraceEvent>
    decreases fuel, 1nat,
{
    seq![TraceEvent::Enter { depth: d, term: t }] + node_trace(t, d, fuel) + seq![
        TraceEvent::Leave { depth: d },
    ]
}

/// The traces of the rewrites that `simp(t, fuel)` makes, in the order it
/// makes them, each one level below `d`.
pub open spec fn node_trace(t: Term, d: usize, fuel: nat) -> Seq<TraceEvent>
    decreases fuel, 0nat,
{
    if fuel == 0 {
        Seq::empty()
    } else {
        let f = (fuel - 1) as nat;
        let n = next_depth(d);
        match t {
            Term::Sum(a, b) => if (*a is Constant && *b is Constant && num_add(
                a->Constant_0,
                b->Constant_0,
            ) is Some) || is_zero_literal(*a) || is_zero_literal(*b) {
                Seq::empty()
            } else {
                simp_trace(*a, n, f) + simp_trace(*b, n, f)
            },
            Term::Scale { coefficient: c, term } => match *term {
                Term::Scale { coefficient: c2, term: t2 } => match num_mul(c, c2) {
                    Some(p) => simp_trace(Term::Scale { coefficient: p, term: t2 }, n, f),
                    None => simp_trace(*term, n, f),
                },
                Term::Sum(t1, t2) => {
                    let l = Term::Scale { coefficient: c, term: Box::new(simp(*t1, f)) };
                    let r = Term::Scale { coefficient: c, term: Box::new(simp(*t2, f)) };
                    simp_trace(*t1, n, f) + simp_trace(*t2, n, f) + simp_trace(l, n, f) + simp_trace(r, n, f)
                        + simp_trace(Term::Sum(Box::new(simp(l, f)), Box::new(simp(r, f))), n, f)
                },
                Term::Product(_, _) => simp_trace(*term, n, f),
                _ => Seq::empty(),
            },
            Term::Product(a, b) => if (*a is Constant && *b is Constant && num_mul(
                a->Constant_0,
                b->Constant_0,
            ) is Some) || is_zero_literal(*a) || is_zero_literal(*b) || is_one_literal(*a)
                || is_one_literal(*b) {
                Seq::empty()
            } else {
                simp_trace(*a, n, f) + simp_trace(*b, n, f)
            },
            Term::Power { base, exponent } => if (*base is Constant && *exponent is Constant && num_pow(
                base->Constant_0,
                exponent->Constant_0,
            ) is Some) || (*base is Constant && !(*exponent is Constant)) {
                Seq::empty()
            } else {
                simp_trace(*base, n, f) + simp_trace(*exponent, n, f)
            },
            Term::Exponential(b, term) => if *term is Constant && num_pow(b, term->Constant_0) is Some {
                Seq::empty()
            } else {
                simp_trace(*term, n, f)
            },
            Term::Sin(term) => if is_zero_literal(*term) {
                Seq::empty()
            } else {
                simp_trace(*term, n, f)
            },
            Term::Cos(term) => if is_zero_literal(*term) {
                Seq::empty()
            } else {
                simp_trace(*term, n, f)
            },
            Term::Derivative { order, wrt, term } => simp_trace(*term, n, f),
            _ => Seq::empty(),
        }
    }
}

/// What a rewrite appends to a trace: its events when tracing, else nothing.
pub open spec fn traced(on: bool, events: Seq<TraceEvent>) -> Seq<TraceEvent> {
    if on { events } else { Seq::empty() }
}

fn is_zero_term(t: &Term) -> (r: bool)
    ensures
        r == is_zero_literal(*t),
{
    match t {
        Term::Constant(n) => n.is_zero(),
        _ => false,
    }
}

fn is_one_term(t: &Term) -> (r: bool)
    ensures
        r == is_one_literal(*t),
{
    match t {
        Term::Constant(n) => n.is_one(),
        _ => false,
    }
}

fn make_derivative(order: usize, wrt: Term, s: Term) -> (r: Term)
    ensures
        r == derivative_rule(order, wrt, s),
        measure(r) <= measure(wrt) + measure(s) + 1,
{
    match s {
        Term::Constant(_) => if order == 0 {
            s
        } else {
            Term::Constant(Num::zero())
        },
        Term::Var(_) => if order == 0 {
            s
        } else if order == 1 {
            Term::Constant(Num::one())
        } else {
            Term::Constant(Num::zero())
        },
        _ => Term::Derivative { order, wrt: Box::new(wrt), term: Box::new(s) },
    }
}

fn simplify_within(
    t: Term,
    depth: usize,
    trace: bool,
    log: &mut Vec<TraceEvent>,
    Ghost(fuel): Ghost<nat>,
) -> (r: Term)
    requires
        measure(t) <= fuel,
    ensures
        r == simp(t, fuel),
        measure(r) <= measure(t),
        final(log)@ == old(log)@ + traced(trace, simp_trace(t, depth, fuel)),
    decreases fuel, 1nat,
{
    let ghost t0 = t;
    if trace {
        log.push(TraceEvent::Enter { depth, term: t.duplicate() });
    }
    let r = simplify_node(t, depth, trace, log, Ghost(fuel));
    if trace {
        log.push(TraceEvent::Leave { depth });
    }
    assert(log@ =~= old(log)@ + traced(trace, simp_trace(t0, depth, fuel)));
    r
}

fn simplify_node(
    t: Term,
    depth: usize,
    trace: bool,
    log: &mut Vec<TraceEvent>,
    Ghost(fuel): Ghost<nat>,
) -> (r: Term)
    requires
        measure(t) <= fuel,
    ensures
        r == simp(t, fuel),
        measure(r) <= measure(t),
        final(log)@ == old(log)@ + traced(trace, node_trace(t, depth, fuel)),
    decreases fuel, 0nat,
{
    proof {
        reveal_with_fuel(measure, 3);
    }
    let ghost t0 = t;
    assert(old(log)@ + Seq::<TraceEvent>::empty() =~= old(log)@);
    let ghost f: nat = (fuel - 1) as nat;
    let next: usize = if depth < usize::MAX { depth + 1 } else { depth };
    let r = match t {
        Term::Constant(_) => t,
        Term::Var(_) => t,
        Term::Sum(a, b) => {
            if let Term::Constant(x) = *a {
                if let Term::Constant(y) = *b {
                    if let Some(z) = x.add(&y) {
                        return Term::Constant(z);
                    }
                }
            }
            if is_zero_term(&a) {
                *b
            } else if is_zero_term(&b) {
                *a
            } else {
                let sa = simplify_within(*a, next, trace, log, Ghost(f));
                let sb = simplify_within(*b, next, trace, log, Ghost(f));
                Term::Sum(Box::new(sa), Box::new(sb))
            }
        },
        Term::Scale { coefficient: c, term } => match *term {
            Term::Constant(k) => match c.mul(&k) {
                Some(p) => Term::Constant(p),
                None => Term::Scale { coefficient: c, term: Box::new(Term::Constant(k)) },
            },
            Term::Scale { coefficient: c2, term: t2 } => match c.mul(&c2) {
                Some(p) => simplify_within(Term::Scale { coefficient: p, term: t2 }, next, trace, log, Ghost(f)),
                None => {
                    let inner = simplify_within(Term::Scale { coefficient: c2, term: t2 }, next, trace, log, Ghost(f));
                    Term::Scale { coefficient: c, term: Box::new(inner) }
                },
            },
            Term::Sum(t1, t2) => {
                let s1 = simplify_within(*t1, next, trace, log, Ghost(f));
                let s2 = simplify_within(*t2, next, trace, log, Ghost(f));
                let left = simplify_within(Term::Scale { coefficient: c, term: Box::new(s1) }, next, trace, log, Ghost(f));
                let right = simplify_within(Term::Scale { coefficient: c, term: Box::new(s2) }, next, trace, log, Ghost(f));
                simplify_within(Term::Sum(Box::new(left), Box::new(right)), next, trace, log, Ghost(f))
            },
            Term::Product(p1, p2) => {
                let inner = simplify_within(Term::Product(p1, p2), next, trace, log, Ghost(f));
                Term::Scale { coefficient: c, term: Box::new(inner) }
            },
            other => Term::Scale { coefficient: c, term: Box::new(other) },
        },
        Term::Product(a, b) => {
            if let Term::Constant(x) = *a {
                if let Term::Constant(y) = *b {
                    if let Some(z) = x.mul(&y) {
                        return Term::Constant(z);
                    }
                }
            }
            if is_zero_term(&a) || is_zero_term(&b) {
                Term::Constant(Num::zero())
            } else if is_one_term(&a) {
                *b
            } else if is_one_term(&b) {
                *a
            } else {
                let sa = simplify_within(*a, next, trace, log, Ghost(f));
                let sb = simplify_within(*b, next, trace, log, Ghost(f));
                Term::Product(Box::new(sa), Box::new(sb))
            }
        },
        Term::Power { base, exponent } => {
            if let Term::Constant(x) = *base {
                if let Term::Constant(y) = *exponent {
                    if let Some(z) = x.pow(&y) {
                        return Term::Constant(z);
                    }
                } else {
                    return Term::Exponential(x, exponent);
                }
            }
            let sb = simplify_within(*base, next, trace, log, Ghost(f));
            let se = simplify_within(*exponent, next, trace, log, Ghost(f));
            Term::Power { base: Box::new(sb), exponent: Box::new(se) }
        },
        Term::Exponential(b, term) => {
            if let Term::Constant(k) = *term {
                if let Some(z) = b.pow(&k) {
                    return Term::Constant(z);
                }
            }
            Term::Exponential(b, Box::new(simplify_within(*term, next, trace, log, Ghost(f))))
        },
        Term::Sin(term) => if is_zero_term(&term) {
            Term::Constant(Num::zero())
        } else {
            Term::Sin(Box::new(simplify_within(*term, next, trace, log, Ghost(f))))
        },
        Term::Cos(term) => if is_zero_term(&term) {
            Term::Constant(Num::one())
        } else {
            Term::Cos(Box::new(simplify_within(*term, next, trace, log, Ghost(f))))
        },
        Term::Derivative { order, wrt, term } => {
            let s = simplify_within(*term, next, trace, log, Ghost(f));
            make_derivative(order, *wrt, s)
        },
    };
    assert(log@ =~= old(log)@ + traced(trace, node_trace(t0, depth, fuel)));
    r
}

/// Rewriting within a sufficient budget never makes a term heavier.
pub proof fn lemma_simp_measure(t: Term, fuel: nat)
    requires
        measure(t) <= fuel,
    ensures
        measure(simp(t, fuel)) <= measure(t),
    decreases fuel,
{
    reveal_with_fuel(measure, 3);
    let f = (fuel - 1) as nat;
    match t {
        Term::Sum(a, b) => {
            lemma_simp_measure(*a, f);
            lemma_simp_measure(*b, f);
        },
        Term::Scale { coefficient: c, term } => match *term {
            Term::Scale { coefficient: c2, term: t2 } => {
                if let Some(p) = num_mul(c, c2) {
                    lemma_simp_measure(Term::Scale { coefficient: p, term: t2 }, f);
                } else {
                    lemma_simp_measure(*term, f);
                }
            },
            Term::Sum(t1, t2) => {
                lemma_simp_measure(*t1, f);
                lemma_simp_measure(*t2, f);
                let l = Term::Scale { coefficient: c, term: Box::new(simp(*t1, f)) };
                let r = Term::Scale { coefficient: c, term: Box::new(simp(*t2, f)) };
                lemma_simp_measure(l, f);
                lemma_simp_measure(r, f);
                lemma_simp_measure(Term::Sum(Box::new(simp(l, f)), Box::new(simp(r, f))), f);
            },
            Term::Product(_, _) => lemma_simp_measure(*term, f),
            _ => {},
        },
        Term::Product(a, b) => {
            lemma_simp_measure(*a, f);
            lemma_simp_measure(*b, f);
        },
        Term::Power { base, exponent } => {
            lemma_simp_measure(*base, f);
            lemma_simp_measure(*exponent, f);
        },
        Term::Exponential(_, term) => lemma_simp_measure(*term, f),
        Term::Sin(term) => lemma_simp_measure(*term, f),
        Term::Cos(term) => lemma_simp_measure(*term, f),
        Term::Derivative { order, wrt, term } => lemma_simp_measure(*term, f),
        _ => {},
    }
}

/// Simplifying never makes a term heavier.
pub proof fn lemma_simplified_measure(t: Term)
    ensures
        measure(simplified(t)) <= measure(t),
{
    lemma_simp_measure(t, measure(t));
}

/// Rewriting keeps every constant a well-formed fraction.
pub proof fn lemma_simp_wf(t: Term, fuel: nat)
    requires
        nums_wf(t),
    ensures
        nums_wf(simp(t, fuel)),
    decreases fuel,
{
    reveal_with_fuel(nums_wf, 3);
    if fuel > 0 {
        let f = (fuel - 1) as nat;
        match t {
            Term::Sum(a, b) => {
                if *a is Constant && *b is Constant {
                    lemma_arith_wf(a->Constant_0, b->Constant_0);
                }
                lemma_simp_wf(*a, f);
                lemma_simp_wf(*b, f);
            },
            Term::Scale { coefficient: c, term } => {
                match *term {
                    Term::Constant(k) => lemma_arith_wf(c, k),
                    Term::Scale { coefficient: c2, term: t2 } => {
                        lemma_arith_wf(c, c2);
                        if let Some(p) = num_mul(c, c2) {
                            lemma_simp_wf(Term::Scale { coefficient: p, term: t2 }, f);
                        } else {
                            lemma_simp_wf(*term, f);
                        }
                    },
                    Term::Sum(t1, t2) => {
                        lemma_simp_wf(*t1, f);
                        lemma_simp_wf(*t2, f);
                        let l = Term::Scale { coefficient: c, term: Box::new(simp(*t1, f)) };
                        let r = Term::Scale { coefficient: c, term: Box::new(simp(*t2, f)) };
                        lemma_simp_wf(l, f);
                        lemma_simp_wf(r, f);
                        lemma_simp_wf(Term::Sum(Box::new(simp(l, f)), Box::new(simp(r, f))), f);
                    },
                    _ => lemma_simp_wf(*term, f),
                }
            },
            Term::Product(a, b) => {
                if *a is Constant && *b is Constant {
                    lemma_arith_wf(a->Constant_0, b->Constant_0);
                }
                lemma_simp_wf(*a, f);
                lemma_simp_wf(*b, f);
            },
            Term::Power { base, exponent } => {
                if *base is Constant && *exponent is Constant {
                    lemma_arith_wf(base->Constant_0, exponent->Constant_0);
                }
                lemma_simp_wf(*base, f);
                lemma_simp_wf(*exponent, f);
            },
            Term::Exponential(b, term) => {
                if *term is Constant {
                    lemma_arith_wf(b, term->Constant_0);
                }
                lemma_simp_wf(*term, f);
            },
            Term::Sin(term) => lemma_simp_wf(*term, f),
            Term::Cos(term) => lemma_simp_wf(*term, f),
            Term::Derivative { order, wrt, term } => lemma_simp_wf(*term, f),
            _ => {},
        }
    }
}

/// Simplifying keeps every constant a well-formed fraction.
pub proof fn lemma_simplified_wf(t: Term)
    requires
        nums_wf(t),
    ensures
        nums_wf(simplified(t)),
{
    lemma_simp_wf(t, measure(t));
}

/// `cs[0] * (cs[1] * (... * inner))`: a chain of nested scales.
pub open spec fn nested_scales(cs: Seq<Num>, inner: Term) -> Term
    decreases cs.len(),
{
    if cs.len() == 0 {
        inner
    } else {
        Term::Scale { coefficient: cs[0], term: Box::new(nested_scales(cs.drop_first(), inner)) }
    }
}

/// `((acc * rest[0]) * rest[1]) * ...`, when each step fits.
pub open spec fn fused(acc: Num, rest: Seq<Num>) -> Option<Num>
    decreases rest.len(),
{
    if rest.len() == 0 {
        Some(acc)
    } else {
        match num_mul(acc, rest[0]) {
            Some(p) => fused(p, rest.drop_first()),
            None => None,
        }
    }
}

/// The product of the coefficients, outermost first: `((cs[0] * cs[1]) * ...)`.
pub open spec fn coefficient_product(cs: Seq<Num>) -> Option<Num> {
    if cs.len() == 0 {
        None
    } else {
        fused(cs[0], cs.drop_first())
    }
}

proof fn lemma_fuse_from(acc: Num, rest: Seq<Num>, inner: Term, fuel: nat)
    requires
        kept_under_scale(inner),
        fused(acc, rest) is Some,
        measure(Term::Scale { coefficient: acc, term: Box::new(nested_scales(rest, inner)) }) <= fuel,
    ensures
        simp(Term::Scale { coefficient: acc, term: Box::new(nested_scales(rest, inner)) }, fuel)
            == (Term::Scale { coefficient: fused(acc, rest)->Some_0, term: Box::new(inner) }),
    decreases rest.len(),
{
    if rest.len() == 0 {
        assert(nested_scales(rest, inner) == inner);
    } else {
        let p = num_mul(acc, rest[0])->Some_0;
        let r2 = nested_scales(rest.drop_first(), inner);
        assert(nested_scales(rest, inner) == Term::Scale { coefficient: rest[0], term: Box::new(r2) });
        assert(measure(Term::Scale { coefficient: p, term: Box::new(r2) }) == 2 * measure(r2) + 1);
        assert(measure(Term::Scale { coefficient: rest[0], term: Box::new(r2) }) == 2 * measure(r2) + 1);
        lemma_fuse_from(p, rest.drop_first(), inner, (fuel - 1) as nat);
    }
}

/// Nested scales over a shape that a coefficient keeps as given (a variable,
/// a sine, a cosine, a power, an exponential or a pending derivative) fuse
/// into one scale by the product of their coefficients, at any depth.
pub proof fn lemma_scales_fuse(cs: Seq<Num>, inner: Term)
    requires
        kept_under_scale(inner),
        coefficient_product(cs) is Some,
    ensures
        simplified(nested_scales(cs, inner)) == (Term::Scale {
            coefficient: coefficient_product(cs)->Some_0,
            term: Box::new(inner),
        }),
{
    assert(nested_scales(cs, inner) == Term::Scale {
        coefficient: cs[0],
        term: Box::new(nested_scales(cs.drop_first(), inner)),
    });
    lemma_fuse_from(cs[0], cs.drop_first(), inner, measure(nested_scales(cs, inner)));
}

impl Term {
    /// Rewrites the expression to its simplified form.
    ///
    /// Constants are exact fractions, so folding is exact and limited to
    /// what stays exact and fits: a sine folds only at zero and a cosine only
    /// at zero; a power folds only for a whole exponent of absolute value at
    /// most `MAX_FOLDED_EXPONENT`; a fold whose result would overflow leaves
    /// its node unfolded.
    pub fn simplify(self) -> (r: Term)
        ensures
            r == simplified(self),
            nums_wf(self) ==> nums_wf(r),
            measure(r) <= measure(self),
    {
        proof {
            if nums_wf(self) {
                lemma_simplified_wf(self);
            }
        }
        let mut unused: Vec<TraceEvent> = Vec::new();
        simplify_within(self, 0, false, &mut unused, Ghost(measure(self)))
    }

    /// Rewrites the expression to its simplified form, as `simplify` does,
    /// and appends to `trace` an `Enter` event for every subterm the
    /// simplifier visits and a matching `Leave` event when it is done, each
    /// with its depth of recursion.
    pub fn debug_simplify(self, trace: &mut Vec<TraceEvent>) -> (r: Term)
        ensures
            r == simplified(self),
            final(trace)@ == old(trace)@ + simp_trace(self, 0, measure(self)),
    {
        simplify_within(self, 0, true, trace, Ghost(measure(self)))
    }
}

} // verus!
