use symalg::{Num, Term};

fn c(n: i64) -> Term {
    Term::Constant(Num::integer(n))
}

fn var(v: char) -> Term {
    Term::Var(v)
}

fn sum(a: Term, b: Term) -> Term {
    Term::Sum(Box::new(a), Box::new(b))
}

fn product(a: Term, b: Term) -> Term {
    Term::Product(Box::new(a), Box::new(b))
}

fn scale(k: i64, t: Term) -> Term {
    Term::Scale { coefficient: Num::integer(k), term: Box::new(t) }
}

fn power(b: Term, e: Term) -> Term {
    Term::Power { base: Box::new(b), exponent: Box::new(e) }
}

#[test]
fn numbers_render_in_decimal() {
    assert_eq!(c(0).to_text(), "0");
    assert_eq!(c(120).to_text(), "120");
    assert_eq!(c(-7).to_text(), "-7");
    assert_eq!(c(i64::MIN).to_text(), "-9223372036854775808");
    assert_eq!(Term::Constant(Num::new(1, 2).unwrap()).to_text(), "0.5");
    assert_eq!(Term::Constant(Num::new(5, 2).unwrap()).to_text(), "2.5");
    assert_eq!(Term::Constant(Num::new(-7, 4).unwrap()).to_text(), "-1.75");
    assert_eq!(Term::Constant(Num::new(6, 3).unwrap()).to_text(), "2");
    assert_eq!(Term::Constant(Num::new(1, 3).unwrap()).to_text(), "(1/3)");
    assert_eq!(Term::Constant(Num::new(-1, 1024).unwrap()).to_text(), "-0.0009765625");
}

#[test]
fn sums_and_scales_render() {
    assert_eq!(sum(var('x'), c(2)).to_text(), "x + 2");
    assert_eq!(scale(2, sum(var('x'), c(1))).to_text(), "2(x + 1)");
    assert_eq!(scale(2, scale(3, var('x'))).to_text(), "2*3*x");
}

#[test]
fn products_render_by_juxtaposition() {
    assert_eq!(product(var('x'), sum(var('a'), var('b'))).to_text(), "x * (a + b)");
    assert_eq!(product(sum(var('a'), var('b')), var('x')).to_text(), "(a + b) * x");
    assert_eq!(product(var('x'), scale(3, var('y'))).to_text(), "x * 3*y");
    assert_eq!(product(var('x'), var('y')).to_text(), "x * y");
}

#[test]
fn powers_group_their_operands() {
    assert_eq!(power(sum(var('x'), c(1)), c(2)).to_text(), "(x + 1)^2");
    assert_eq!(power(var('x'), product(c(2), var('y'))).to_text(), "x^(2 * y)");
    assert_eq!(power(product(var('a'), var('b')), c(3)).to_text(), "(a * b)^3");
    assert_eq!(
        power(product(sum(var('x'), var('y')), var('z')), c(2)).to_text(),
        "((x + y) * z)^2"
    );
    assert_eq!(
        Term::Exponential(Num::integer(2), Box::new(product(var('z'), sum(var('x'), c(1))))).to_text(),
        "2^(z * (x + 1))"
    );
    assert_eq!(product(c(2), c(3)).to_text(), "2 * 3");
    assert_eq!(
        Term::Exponential(Num::integer(2), Box::new(sum(var('x'), c(1)))).to_text(),
        "2^(x + 1)"
    );
}

#[test]
fn functions_and_derivatives_render() {
    assert_eq!(Term::Sin(Box::new(var('x'))).to_text(), "sin(x)");
    assert_eq!(Term::Cos(Box::new(var('t'))).to_text(), "cos(t)");
    let d = Term::Derivative {
        order: 3,
        wrt: Box::new(var('x')),
        term: Box::new(Term::Sin(Box::new(var('x')))),
    };
    assert_eq!(d.to_text(), "(sin(x), wrt: x)'''");
}

#[test]
fn rendered_result_of_differentiation() {
    let e = power(var('x'), c(3));
    assert_eq!(e.differentiate(var('x')).unwrap().to_text(), "3*x^2");
}
