use symalg::Num;

#[test]
fn fraction_needs_positive_denominator() {
    assert_eq!(Num::new(1, 0), None);
    assert_eq!(Num::new(1, -2), None);
    assert_eq!(Num::new(3, 4), Some(Num { num: 3, den: 4 }));
    assert_eq!(Num::new(4, 8), Some(Num { num: 1, den: 2 }));
    assert_eq!(Num::new(-6, 4), Some(Num { num: -3, den: 2 }));
    assert_eq!(Num::new(0, 7), Some(Num { num: 0, den: 1 }));
    assert_eq!(Num::new(i64::MIN, 1), Some(Num { num: i64::MIN, den: 1 }));
}

#[test]
fn fraction_arithmetic() {
    let a = Num::new(1, 2).unwrap();
    let b = Num::new(2, 3).unwrap();
    assert_eq!(a.add(&b), Some(Num { num: 7, den: 6 }));
    assert_eq!(a.mul(&b), Some(Num { num: 1, den: 3 }));
    assert_eq!(a.add(&a), Some(Num::integer(1)));
    assert_eq!(b.sub_one(), Some(Num { num: -1, den: 3 }));
    assert_eq!(a.pow(&Num::integer(3)), Some(Num { num: 1, den: 8 }));
    assert_eq!(a.pow(&Num::integer(-1)), Some(Num::integer(2)));
    assert_eq!(Num::integer(-2).pow(&Num::integer(-3)), Some(Num { num: -1, den: 8 }));
    assert_eq!(Num::integer(0).pow(&Num::integer(-1)), None);
    assert_eq!(a.pow(&Num::integer(-65)), None);
    assert_eq!(Num::integer(4).pow(&a), None);
    assert_eq!(Num::integer(1).pow(&Num::integer(65)), None);
    assert_eq!(Num::integer(1).pow(&Num::integer(64)), Some(Num::integer(1)));
    assert_eq!(Num::integer(i64::MAX).add(&Num::integer(1)), None);
    assert_eq!(Num::integer(i64::MIN).sub_one(), None);
}

#[test]
fn inverse_of_fraction() {
    assert_eq!(Num::new(2, 3).unwrap().inv(), Some(Num { num: 3, den: 2 }));
    assert_eq!(Num::new(-2, 3).unwrap().inv(), Some(Num { num: -3, den: 2 }));
    assert_eq!(Num::integer(0).inv(), None);
}

#[test]
fn zero_and_one_tests() {
    assert!(Num::new(0, 5).unwrap().is_zero());
    assert!(Num::new(3, 3).unwrap().is_one());
    assert!(!Num::new(1, 3).unwrap().is_one());
}
