use symalg::{Num, Term, TraceEvent};

fn c(n: i64) -> Term {
    Term::Constant(Num::integer(n))
}

fn x() -> Term {
    Term::Var('x')
}

fn sum(a: Term, b: Term) -> Term {
    Term::Sum(Box::new(a), Box::new(b))
}

fn product(a: Term, b: Term) -> Term {
    Term::Product(Box::new(a), Box::new(b))
}

fn scale(k: i64, t: Term) -> Term {
    Term::Scale { coefficient: Num::integer(k), term: Box::new(t) }
}

fn power(b: Term, e: Term) -> Term {
    Term::Power { base: Box::new(b), exponent: Box::new(e) }
}

fn derivative(order: usize, t: Term) -> Term {
    Term::Derivative { order, wrt: Box::new(x()), term: Box::new(t) }
}

#[test]
fn lib_it_works() {
    let fterm = scale(5, sum(c(5), c(10)));
    let terms = [
        scale(2, scale(3, scale(2, x()))),
        scale(2, scale(3, scale(7, Term::Sin(Box::new(x()))))),
        derivative(3, fterm),
    ];
    for t in terms {
        let mut trace = Vec::new();
        let r = t.debug_simplify(&mut trace);
        for event in &trace {
            match event {
                TraceEvent::Enter { depth, term } => {
                    println!("{}<simplifying {}> {{", "   ".repeat(*depth), term.to_text())
                }
                TraceEvent::Leave { depth } => println!("{}}}", "   ".repeat(*depth)),
            }
        }
        println!("= {}\n\n", r.to_text());
    }
}

#[test]
fn trace_records_each_visit() {
    let mut trace = Vec::new();
    let r = sum(c(2), c(3)).debug_simplify(&mut trace);
    assert_eq!(r, c(5));
    assert_eq!(
        trace,
        vec![
            TraceEvent::Enter { depth: 0, term: sum(c(2), c(3)) },
            TraceEvent::Leave { depth: 0 },
        ]
    );
    let mut trace = Vec::new();
    let r = sum(x(), Term::Var('y')).debug_simplify(&mut trace);
    assert_eq!(r, sum(x(), Term::Var('y')));
    assert_eq!(
        trace,
        vec![
            TraceEvent::Enter { depth: 0, term: sum(x(), Term::Var('y')) },
            TraceEvent::Enter { depth: 1, term: x() },
            TraceEvent::Leave { depth: 1 },
            TraceEvent::Enter { depth: 1, term: Term::Var('y') },
            TraceEvent::Leave { depth: 1 },
            TraceEvent::Leave { depth: 0 },
        ]
    );
}

#[test]
fn sum_of_constants_folds() {
    assert_eq!(sum(c(2), c(3)).simplify(), c(5));
}

#[test]
fn product_with_zero_annihilates() {
    assert_eq!(product(c(0), x()).simplify(), c(0));
    assert_eq!(product(x(), c(0)).simplify(), c(0));
}

#[test]
fn power_of_constants_folds() {
    assert_eq!(power(c(2), c(3)).simplify(), c(8));
    assert_eq!(power(c(7), c(0)).simplify(), c(1));
}

#[test]
fn nested_scales_fuse() {
    assert_eq!(scale(2, scale(3, x())).simplify(), scale(6, x()));
    assert_eq!(scale(2, scale(3, scale(2, x()))).simplify(), scale(12, x()));
    assert_eq!(
        scale(2, scale(3, scale(5, scale(7, x())))).simplify(),
        scale(210, x())
    );
}

#[test]
fn scale_distributes_over_sum() {
    assert_eq!(scale(2, sum(c(5), c(10))).simplify(), c(30));
    assert_eq!(scale(2, sum(x(), c(3))).simplify(), sum(scale(2, x()), c(6)));
    assert_eq!(scale(5, sum(c(5), c(10))).simplify(), c(75));
}

#[test]
fn zero_summand_drops_out() {
    assert_eq!(sum(c(0), x()).simplify(), x());
    assert_eq!(sum(x(), c(0)).simplify(), x());
}

#[test]
fn unit_factor_drops_out() {
    assert_eq!(product(c(1), x()).simplify(), x());
    assert_eq!(product(x(), c(1)).simplify(), x());
    assert_eq!(product(x(), Term::Var('y')).simplify(), product(x(), Term::Var('y')));
}

#[test]
fn constant_base_becomes_exponential() {
    assert_eq!(
        power(c(2), x()).simplify(),
        Term::Exponential(Num::integer(2), Box::new(x()))
    );
    assert_eq!(Term::Exponential(Num::integer(2), Box::new(c(3))).simplify(), c(8));
    assert_eq!(power(x(), c(2)).simplify(), power(x(), c(2)));
    assert_eq!(
        power(c(2), sum(c(1), c(2))).simplify(),
        Term::Exponential(Num::integer(2), Box::new(sum(c(1), c(2))))
    );
}

#[test]
fn scale_keeps_its_terminal_term_as_given() {
    let sine = Term::Sin(Box::new(sum(c(1), c(2))));
    assert_eq!(scale(2, sine.clone()).simplify(), scale(2, sine));
    let p = power(x(), sum(c(1), c(2)));
    assert_eq!(scale(3, p.clone()).simplify(), scale(3, p));
    assert_eq!(
        scale(2, product(x(), sum(c(1), c(2)))).simplify(),
        scale(2, product(x(), c(3)))
    );
}

#[test]
fn neutral_child_leaves_the_other_as_given() {
    assert_eq!(sum(c(0), sum(c(1), c(2))).simplify(), sum(c(1), c(2)));
    assert_eq!(product(c(1), sum(c(1), c(2))).simplify(), sum(c(1), c(2)));
    assert_eq!(product(sum(c(1), c(2)), c(1)).simplify(), sum(c(1), c(2)));
}

#[test]
fn simplify_twice_can_fold_further() {
    let e = sum(sum(c(2), c(3)), c(1));
    let once = e.simplify();
    assert_eq!(once, sum(c(5), c(1)));
    assert_eq!(once.simplify(), c(6));
    let e = sum(c(0), sum(c(1), c(2)));
    let once = e.simplify();
    assert_eq!(once, sum(c(1), c(2)));
    assert_eq!(once.simplify(), c(3));
}

#[test]
fn trig_folds_at_zero_only() {
    assert_eq!(Term::Sin(Box::new(c(0))).simplify(), c(0));
    assert_eq!(Term::Cos(Box::new(c(0))).simplify(), c(1));
    assert_eq!(Term::Sin(Box::new(c(1))).simplify(), Term::Sin(Box::new(c(1))));
    assert_eq!(
        Term::Cos(Box::new(sum(c(1), c(2)))).simplify(),
        Term::Cos(Box::new(c(3)))
    );
}

#[test]
fn pending_derivative_of_leaves() {
    assert_eq!(derivative(0, c(4)).simplify(), c(4));
    assert_eq!(derivative(3, c(4)).simplify(), c(0));
    assert_eq!(derivative(0, Term::Var('y')).simplify(), Term::Var('y'));
    assert_eq!(derivative(1, x()).simplify(), c(1));
    assert_eq!(derivative(2, x()).simplify(), c(0));
    assert_eq!(derivative(3, scale(5, sum(c(5), c(10)))).simplify(), c(0));
    let sine = Term::Sin(Box::new(x()));
    assert_eq!(derivative(2, sine.clone()).simplify(), derivative(2, sine));
}

#[test]
fn overflow_leaves_node_unfolded() {
    let big = c(i64::MAX);
    assert_eq!(sum(big.clone(), c(1)).simplify(), sum(big.clone(), c(1)));
    assert_eq!(scale(2, big.clone()).simplify(), scale(2, big.clone()));
    assert_eq!(power(c(2), c(63)).simplify(), power(c(2), c(63)));
    assert_eq!(power(c(2), c(62)).simplify(), c(1i64 << 62));
}

#[test]
fn fractions_fold_exactly() {
    let half = Term::Constant(Num::new(1, 2).unwrap());
    let third = Term::Constant(Num::new(1, 3).unwrap());
    assert_eq!(sum(half.clone(), third).simplify(), Term::Constant(Num::new(5, 6).unwrap()));
    let r = sum(half.clone(), half.clone()).simplify();
    assert_eq!(r, c(1));
    assert_eq!(power(c(2), c(-1)).simplify(), half.clone());
    assert_eq!(Num::new(4, 4).unwrap(), Num::integer(1));
    assert_eq!(product(r, x()).simplify(), x());
    assert_eq!(power(c(4), half.clone()).simplify(), power(c(4), half));
}

#[test]
fn simplify_is_idempotent() {
    let cases = [
        scale(2, sum(scale(3, x()), sum(c(1), Term::Sin(Box::new(x()))))),
        scale(2, sum(scale(3, scale(7, Term::Sin(Box::new(x())))), scale(3, scale(7, Term::Cos(Box::new(x())))))),
        product(sum(x(), c(0)), power(c(2), sum(x(), c(1)))),
        derivative(2, product(x(), x())),
        scale(2, big_scale()),
    ];
    for e in cases {
        let once = e.simplify();
        let twice = once.clone().simplify();
        assert_eq!(once, twice);
    }
}

fn big_scale() -> Term {
    scale(i64::MAX, scale(3, x()))
}
