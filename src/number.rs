//! Exact numeric constants.
//!
//! A constant is the fraction `num / den`, kept in lowest terms by every
//! operation here. Arithmetic is exact; an operation whose result does not
//! fit the machine integers yields `None`, and the rewrite rules then leave
//! the node unfolded.
use vstd::prelude::*;

verus! {

/// The largest exponent, in absolute value, to which a constant base is
/// raised when a power folds.
pub const MAX_FOLDED_EXPONENT: i64 = 64;

/// The fraction `num / den`.
#[derive(Clone, Copy, Debug, PartialEq, Eq)]
pub struct Num {
    pub num: i64,
    pub den: i64,
}

/// Whether an integer fits in an `i64`.
pub open spec fn fits(x: int) -> bool {
    i64::MIN <= x <= i64::MAX
}

/// The fraction `n / d` as a spec value.
pub open spec fn frac(n: int, d: int) -> Num {
    Num { num: n as i64, den: d as i64 }
}

/// The absolute value of `n`.
pub open spec fn magnitude(n: int) -> nat {
    if n < 0 { (-n) as nat } else { n as nat }
}

/// The greatest common divisor, by Euclid's algorithm.
pub open spec fn gcd(a: nat, b: nat) -> nat
    decreases b,
{
    if b == 0 { a } else { gcd(b, a % b) }
}

/// `n / d` in lowest terms, for a positive `d`.
pub open spec fn lowest(n: int, d: int) -> Num {
    if d > 0 {
        let g = gcd(magnitude(n), d as nat) as int;
        let m = magnitude(n) as int / g;
        frac(if n < 0 { -m } else { m }, d / g)
    } else {
        frac(n, d)
    }
}

/// `1 / p`, when `p` is not zero and the result fits.
pub open spec fn num_inv(p: Num) -> Option<Num> {
    if p.num > 0 {
        Some(frac(p.den as int, p.num as int))
    } else if p.num < 0 && fits(-p.num) && fits(-p.den) {
        Some(frac(-p.den, -p.num))
    } else {
        None
    }
}

/// `a + b`, when every intermediate product and the result fit.
pub open spec fn num_add(a: Num, b: Num) -> Option<Num> {
    let l = a.num * b.den;
    let r = b.num * a.den;
    let d = a.den * b.den;
    if fits(l) && fits(r) && fits(l + r) && fits(d) {
        Some(lowest(l + r, d))
    } else {
        None
    }
}

/// `a * b`, when numerator and denominator fit.
pub open spec fn num_mul(a: Num, b: Num) -> Option<Num> {
    let n = a.num * b.num;
    let d = a.den * b.den;
    if fits(n) && fits(d) {
        Some(lowest(n, d))
    } else {
        None
    }
}

/// `c - 1`, when the numerator fits.
pub open spec fn num_sub_one(c: Num) -> Option<Num> {
    if fits(c.num - c.den) {
        Some(frac(c.num - c.den, c.den as int))
    } else {
        None
    }
}

/// `b` multiplied by itself `k` times, when every step fits.
pub open spec fn num_pow_nat(b: Num, k: nat) -> Option<Num>
    decreases k,
{
    if k == 0 {
        Some(Num::one_spec())
    } else {
        match num_pow_nat(b, (k - 1) as nat) {
            Some(p) => num_mul(p, b),
            None => None,
        }
    }
}

/// `b ^ e`, folded only for a whole exponent `e` (denominator one) with
/// `|e| <= MAX_FOLDED_EXPONENT`; a negative exponent inverts the power.
pub open spec fn num_pow(b: Num, e: Num) -> Option<Num> {
    if e.den == 1 && 0 <= e.num <= MAX_FOLDED_EXPONENT {
        num_pow_nat(b, e.num as nat)
    } else if e.den == 1 && -MAX_FOLDED_EXPONENT <= e.num < 0 {
        match num_pow_nat(b, (-e.num) as nat) {
            Some(p) => num_inv(p),
            None => None,
        }
    } else {
        None
    }
}

proof fn lemma_gcd_bounds(a: nat, b: nat)
    requires
        b > 0,
    ensures
        0 < gcd(a, b) <= b,
    decreases b,
{
    let r = a % b;
    assert(r < b) by (nonlinear_arith)
        requires
            b > 0,
            r == a % b,
    ;
    if r > 0 {
        lemma_gcd_bounds(b, r);
    }
}

proof fn lemma_lowest_wf(n: int, d: int)
    requires
        d > 0,
        fits(n),
        fits(d),
    ensures
        lowest(n, d).wf(),
        lowest(n, d).den as int == d / gcd(magnitude(n), d as nat) as int,
{
    let g = gcd(magnitude(n), d as nat) as int;
    lemma_gcd_bounds(magnitude(n), d as nat);
    assert(1 <= d / g <= d) by (nonlinear_arith)
        requires
            0 < g <= d,
    ;
}

/// Sums, products, powers and decrements of well-formed fractions are well formed.
pub proof fn lemma_arith_wf(a: Num, b: Num)
    requires
        a.wf(),
        b.wf(),
    ensures
        num_add(a, b) matches Some(r) ==> r.wf(),
        num_mul(a, b) matches Some(r) ==> r.wf(),
        num_sub_one(a) matches Some(r) ==> r.wf(),
        num_pow(a, b) matches Some(r) ==> r.wf(),
{
    assert(a.den * b.den > 0) by (nonlinear_arith)
        requires
            a.den > 0,
            b.den > 0,
    ;
    let l = a.num * b.den;
    let r = b.num * a.den;
    if fits(l) && fits(r) && fits(l + r) && fits(a.den * b.den) {
        lemma_lowest_wf(l + r, a.den * b.den);
    }
    if fits(a.num * b.num) && fits(a.den * b.den) {
        lemma_lowest_wf(a.num * b.num, a.den * b.den);
    }
    if b.den == 1 && 0 <= b.num <= MAX_FOLDED_EXPONENT {
        lemma_pow_wf(a, b.num as nat);
    }
    if b.den == 1 && -MAX_FOLDED_EXPONENT <= b.num < 0 {
        lemma_pow_wf(a, (-b.num) as nat);
    }
}

proof fn lemma_pow_wf(b: Num, k: nat)
    requires
        b.wf(),
    ensures
        num_pow_nat(b, k) matches Some(r) ==> r.wf(),
    decreases k,
{
    if k > 0 {
        lemma_pow_wf(b, (k - 1) as nat);
        if let Some(p) = num_pow_nat(b, (k - 1) as nat) {
            assert(p.den * b.den > 0) by (nonlinear_arith)
                requires
                    p.den > 0,
                    b.den > 0,
            ;
            if fits(p.num * b.num) && fits(p.den * b.den) {
                lemma_lowest_wf(p.num * b.num, p.den * b.den);
            }
        }
    }
}

fn gcd_exec(a: u64, b: u64) -> (g: u64)
    ensures
        g as nat == gcd(a as nat, b as nat),
{
    let mut x = a;
    let mut y = b;
    while y != 0
        invariant
            gcd(x as nat, y as nat) == gcd(a as nat, b as nat),
        decreases y,
    {
        let t = x % y;
        assert(t < y) by (nonlinear_arith)
            requires
                y > 0,
                t == x % y,
        ;
        x = y;
        y = t;
    }
    x
}

fn to_lowest(n: i64, d: i64) -> (r: Num)
    ensures
        r == lowest(n as int, d as int),
{
    if d <= 0 {
        return Num { num: n, den: d };
    }
    let m: u64 = if n == i64::MIN {
        9223372036854775808u64
    } else if n < 0 {
        (-n) as u64
    } else {
        n as u64
    };
    let g = gcd_exec(m, d as u64);
    proof {
        lemma_gcd_bounds(m as nat, d as nat);
    }
    let q: u64 = m / g;
    let e: u64 = (d as u64) / g;
    assert(q <= m && e <= d) by (nonlinear_arith)
        requires
            0 < g,
            q as int == m as int / g as int,
            e as int == d as int / g as int,
            d > 0,
    ;
    let num: i64 = if n < 0 {
        if q == 9223372036854775808u64 {
            i64::MIN
        } else {
            -(q as i64)
        }
    } else {
        q as i64
    };
    Num { num, den: e as i64 }
}

impl Num {
    /// A well-formed fraction has a positive denominator.
    pub open spec fn wf(self) -> bool {
        self.den > 0
    }

    pub open spec fn zero_spec() -> Num {
        Num { num: 0, den: 1 }
    }

    pub open spec fn one_spec() -> Num {
        Num { num: 1, den: 1 }
    }

    /// The fraction is zero.
    pub open spec fn is_zero_spec(self) -> bool {
        self.num == 0
    }

    /// The fraction is one.
    pub open spec fn is_one_spec(self) -> bool {
        self.num == self.den
    }

    /// The fraction `num / den` in lowest terms; `None` unless `den` is positive.
    pub fn new(num: i64, den: i64) -> (r: Option<Num>)
        ensures
            r == (if den > 0 { Some(lowest(num as int, den as int)) } else { None::<Num> }),
            r matches Some(n) ==> n.wf(),
    {
        if den > 0 {
            proof {
                lemma_lowest_wf(num as int, den as int);
            }
            Some(to_lowest(num, den))
        } else {
            None
        }
    }

    /// The whole number `n`.
    pub fn integer(n: i64) -> (r: Num)
        ensures
            r == (Num { num: n, den: 1 }),
            r.wf(),
    {
        Num { num: n, den: 1 }
    }

    pub fn zero() -> (r: Num)
        ensures
            r == Num::zero_spec(),
    {
        Num { num: 0, den: 1 }
    }

    pub fn one() -> (r: Num)
        ensures
            r == Num::one_spec(),
    {
        Num { num: 1, den: 1 }
    }

    pub fn is_zero(&self) -> (r: bool)
        ensures
            r == self.is_zero_spec(),
    {
        self.num == 0
    }

    pub fn is_one(&self) -> (r: bool)
        ensures
            r == self.is_one_spec(),
    {
        self.num == self.den
    }

    /// Exact sum.
    pub fn add(&self, o: &Num) -> (r: Option<Num>)
        ensures
            r == num_add(*self, *o),
    {
        let l = self.num.checked_mul(o.den);
        let r = o.num.checked_mul(self.den);
        let d = self.den.checked_mul(o.den);
        match (l, r, d) {
            (Some(l), Some(r), Some(d)) => match l.checked_add(r) {
                Some(n) => Some(to_lowest(n, d)),
                None => None,
            },
            _ => None,
        }
    }

    /// Exact product.
    pub fn mul(&self, o: &Num) -> (r: Option<Num>)
        ensures
            r == num_mul(*self, *o),
    {
        let n = self.num.checked_mul(o.num);
        let d = self.den.checked_mul(o.den);
        match (n, d) {
            (Some(n), Some(d)) => Some(to_lowest(n, d)),
            _ => None,
        }
    }

    /// Exact `self - 1`.
    pub fn sub_one(&self) -> (r: Option<Num>)
        ensures
            r == num_sub_one(*self),
    {
        match self.num.checked_sub(self.den) {
            Some(n) => Some(Num { num: n, den: self.den }),
            None => None,
        }
    }

    /// Exact `1 / self`.
    pub fn inv(&self) -> (r: Option<Num>)
        ensures
            r == num_inv(*self),
    {
        if self.num > 0 {
            Some(Num { num: self.den, den: self.num })
        } else if self.num < 0 && self.num != i64::MIN && self.den != i64::MIN {
            Some(Num { num: -self.den, den: -self.num })
        } else {
            None
        }
    }

    /// Exact `self ^ e` for a small whole exponent.
    pub fn pow(&self, e: &Num) -> (r: Option<Num>)
        ensures
            r == num_pow(*self, *e),
    {
        if e.den != 1 || e.num < -MAX_FOLDED_EXPONENT || e.num > MAX_FOLDED_EXPONENT {
            return None;
        }
        if e.num < 0 {
            let p = self.pow_whole(-e.num);
            return match p {
                Some(p) => p.inv(),
                None => None,
            };
        }
        self.pow_whole(e.num)
    }

    fn pow_whole(&self, k: i64) -> (r: Option<Num>)
        requires
            0 <= k,
        ensures
            r == num_pow_nat(*self, k as nat),
    {
        let mut acc: Option<Num> = Some(Num::one());
        let mut i: i64 = 0;
        while i < k
            invariant
                0 <= i <= k,
                acc == num_pow_nat(*self, i as nat),
            decreases k - i,
        {
            acc = match acc {
                Some(p) => p.mul(self),
                None => None,
            };
            i = i + 1;
        }
        acc
    }
}

} // verus!
