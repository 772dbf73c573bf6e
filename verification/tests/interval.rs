use rand::SeedableRng;
use rng_query::interval::{
    Interval, IntervalFault, IntervalKind, IntervalParseError, IntervalResult, Num,
};

fn rng(seed: u64) -> rand_pcg::Pcg64 {
    rand_pcg::Pcg64::seed_from_u64(seed)
}

fn int_range(s: &str) -> (i32, i32) {
    match Interval::from_str(s).expect("failed to parse").kind {
        IntervalKind::Int { start, end } => (start, end),
        IntervalKind::Real { .. } => panic!("not int"),
    }
}

const UNIT: i64 = 1_000_000_000;

fn real_range(s: &str) -> (i64, i64, bool, bool) {
    let i = Interval::from_str(s).expect("failed to parse");
    match i.kind {
        IntervalKind::Int { .. } => panic!("not real"),
        IntervalKind::Real { start, end } => (start, end, i.low_inc, i.high_inc),
    }
}

fn invalid(f: IntervalFault) -> Result<Interval, IntervalParseError> {
    Err(IntervalParseError::Invalid(f))
}

#[test]
fn whole_numbers_in_brackets() {
    assert_eq!(int_range("[1..10]"), (1, 11));
    assert_eq!(int_range("[1..10)"), (1, 10));
    assert_eq!(int_range("(1..10]"), (2, 11));
    assert_eq!(int_range("(1..10)"), (2, 10));
    assert_eq!(int_range("[-5..-3)"), (-5, -3));
    assert_eq!(int_range("[-5..-3]"), (-5, -2));
    assert_eq!(int_range("[ +1 .. 10 ]"), (1, 11));
    assert_eq!(int_range("[1..=10)"), (1, 10));
    assert_eq!(int_range("[1..=10]"), (1, 11));
}

#[test]
fn whole_numbers_without_brackets() {
    assert_eq!(int_range("1..10"), (1, 10));
    assert_eq!(int_range("1..=10"), (1, 11));
    assert_eq!(int_range("-5..-3"), (-5, -3));
    assert_eq!(int_range("-5..=-3"), (-5, -2));
    assert_eq!(int_range("+1..+2"), (1, 2));
}

#[test]
fn both_notations_give_the_same_range() {
    assert_eq!(int_range("[1..10]"), int_range("1..=10"));
    assert_eq!(int_range("[1..10)"), int_range("1..10"));
    let a = Interval::from_str("[1..10]").unwrap();
    let b = Interval::from_str("1..=10").unwrap();
    assert_eq!(a, b);
}

#[test]
fn brackets_are_kept() {
    let i = Interval::from_str("(1..10]").unwrap();
    assert!(!i.low_inc);
    assert!(i.high_inc);
    let i = Interval::from_str("1..10").unwrap();
    assert!(i.low_inc);
    assert!(!i.high_inc);
}

#[test]
fn decimal_numbers() {
    assert_eq!(real_range("[1,10]"), (UNIT, 10 * UNIT + 1, true, true));
    assert_eq!(real_range("[1,10)"), (UNIT, 10 * UNIT, true, false));
    assert_eq!(real_range("(1,10]"), (UNIT + 1, 10 * UNIT + 1, false, true));
    assert_eq!(real_range("(1,10)"), (UNIT + 1, 10 * UNIT, false, false));
    assert_eq!(real_range("(1.0,10.0)"), (UNIT + 1, 10 * UNIT, false, false));
    assert_eq!(real_range("(1.0,10)"), (UNIT + 1, 10 * UNIT, false, false));
    assert_eq!(real_range("(1,10.0)"), (UNIT + 1, 10 * UNIT, false, false));
    assert_eq!(real_range("[0,.9)"), (0, 900_000_000, true, false));
    assert_eq!(real_range("[1.0..10.0)"), (UNIT, 10 * UNIT, true, false));
    assert_eq!(real_range("[.5..1)"), (500_000_000, UNIT, true, false));
    assert_eq!(real_range("[-1, 1)"), (-UNIT, UNIT, true, false));
    assert_eq!(real_range("[-2, -1)"), (-2 * UNIT, -UNIT, true, false));
    assert_eq!(real_range("[ -0.25 , +0.000000001 ]"), (-250_000_000, 2, true, true));
    assert_eq!(real_range("[4000000000, 4000000000.999999999]"), (
        4_000_000_000 * UNIT,
        4_000_000_000 * UNIT + 999_999_999 + 1,
        true,
        true
    ));
}

#[test]
fn whole_numbers_with_two_dots_are_not_decimal() {
    assert!(matches!(
        Interval::from_str("(1..10)").unwrap().kind,
        IntervalKind::Int { .. }
    ));
    assert!(matches!(
        Interval::from_str("(1..10.0)").unwrap().kind,
        IntervalKind::Real { .. }
    ));
}

#[test]
fn no_match() {
    for s in [
        "", "1", "a..b", "1..", "..2", "1.5..2", "1...2", "1..2 ", " 1..2", "1 .. 2", "[1..2",
        "1..2]", "[1 2]", "[1;2]", "(1.,10)", "[1..2]]", "[[1..2]", "{1..2}", "[a,b]", "[1,]",
        "[,1]", "1,2", "[1..==2]", "1..=", "1ab10", "1234", "[1.2.3, 4]", "d6",
    ] {
        assert_eq!(Interval::from_str(s), Err(IntervalParseError::NoMatch), "{s:?}");
    }
}

#[test]
fn faults_of_whole_numbers() {
    assert_eq!(Interval::from_str("2147483648..5"), invalid(IntervalFault::BadStart));
    assert_eq!(Interval::from_str("-2147483649..5"), invalid(IntervalFault::BadStart));
    assert_eq!(Interval::from_str("1..2147483648"), invalid(IntervalFault::BadEnd));
    assert_eq!(Interval::from_str("[99999999999..99999999999999]"), invalid(IntervalFault::BadStart));
    assert_eq!(Interval::from_str("(2147483647..5)"), invalid(IntervalFault::StartTooBig));
    assert_eq!(Interval::from_str("1..=2147483647"), invalid(IntervalFault::EndTooBig));
    assert_eq!(Interval::from_str("[1..2147483647]"), invalid(IntervalFault::EndTooBig));
    assert_eq!(Interval::from_str("5..5"), invalid(IntervalFault::Empty));
    assert_eq!(Interval::from_str("5..1"), invalid(IntervalFault::Empty));
    assert_eq!(Interval::from_str("(1..2)"), invalid(IntervalFault::Empty));
    assert_eq!(Interval::from_str("(1..1]"), invalid(IntervalFault::Empty));
    assert_eq!(int_range("[1..1]"), (1, 2));
    assert_eq!(int_range("-2147483648..2147483647"), (-2147483648, 2147483647));
}

#[test]
fn faults_of_decimal_numbers() {
    assert_eq!(Interval::from_str("(2, -1)"), invalid(IntervalFault::Empty));
    assert_eq!(Interval::from_str("[1, 1]"), invalid(IntervalFault::Empty));
    assert_eq!(Interval::from_str("(0, 0.000000001)"), invalid(IntervalFault::Empty));
    assert_eq!(Interval::from_str("[4000000001, 5000000000]"), invalid(IntervalFault::BadStart));
    assert_eq!(Interval::from_str("[0, 4000000001]"), invalid(IntervalFault::BadEnd));
    assert_eq!(Interval::from_str("[0.0000000001, 1]"), invalid(IntervalFault::BadStart));
    assert_eq!(Interval::from_str("[0, 1.0000000000]"), invalid(IntervalFault::BadEnd));
}

#[test]
fn rendering_of_intervals() {
    for s in ["[1..10]", "(1..10)", "[1..10)", "(-5..-3]", "[0.5, 1.25]", "(-1, 1)", "[0, 0.000000001]"] {
        assert_eq!(Interval::from_str(s).unwrap().render(), s, "{s:?}");
    }
    assert_eq!(Interval::from_str("1..=10").unwrap().render(), "[1..10]");
    assert_eq!(Interval::from_str("1..10").unwrap().render(), "[1..10)");
    assert_eq!(Interval::from_str("( 1.50 ,  2.000 ]").unwrap().render(), "(1.5, 2]");
    assert_eq!(Interval::from_str("[.5..+1.0]").unwrap().render(), "[0.5, 1]");
    assert_eq!(Interval::from_str("[-.5,-0.0]").unwrap().render(), "[-0.5, 0]");
}

#[test]
fn rendering_of_numbers() {
    assert_eq!(Num::Int(0).render(), "0");
    assert_eq!(Num::Int(-17).render(), "-17");
    assert_eq!(Num::Int(i32::MIN).render(), "-2147483648");
    assert_eq!(Num::Real(0).render(), "0");
    assert_eq!(Num::Real(UNIT).render(), "1");
    assert_eq!(Num::Real(1).render(), "0.000000001");
    assert_eq!(Num::Real(-1).render(), "-0.000000001");
    assert_eq!(Num::Real(1_500_000_000).render(), "1.5");
    assert_eq!(Num::Real(-12_345_678_900).render(), "-12.3456789");
    assert_eq!(Num::Real(100 * UNIT).render(), "100");
    assert_eq!(Num::Real(1_000_000_010).render(), "1.00000001");
    assert_eq!(Num::Real(i64::MIN).render(), "-9223372036.854775808");
    assert_eq!(Num::Real(i64::MAX).render(), "9223372036.854775807");
}

#[test]
fn samples_of_whole_numbers_lie_in_the_interval() {
    let inclusive = Interval::from_str("[1..10]").unwrap();
    let alt = Interval::from_str("1..=10").unwrap();
    let open = Interval::from_str("(1..10)").unwrap();
    let mut seen = [false; 11];
    for seed in 0..300 {
        let IntervalResult { interval, value } = inclusive.eval(&mut rng(seed));
        assert_eq!(interval, inclusive);
        let Num::Int(x) = value else { panic!("not int") };
        assert!((1..=10).contains(&x));
        seen[x as usize] = true;
        assert_eq!(alt.eval(&mut rng(seed)).value, value);
        let Num::Int(y) = open.eval(&mut rng(seed)).value else { panic!("not int") };
        assert!((2..=9).contains(&y));
    }
    assert!(seen[1..].iter().all(|s| *s));
}

#[test]
fn samples_of_decimal_numbers_lie_in_the_interval() {
    let closed = Interval::from_str("[0, 0.000000002]").unwrap();
    let half = Interval::from_str("[0, 0.000000002)").unwrap();
    let other = Interval::from_str("(0, 0.000000002]").unwrap();
    let open = Interval::from_str("(0, 0.000000002)").unwrap();
    let mut seen = [false; 3];
    for seed in 0..100 {
        let Num::Real(x) = closed.eval(&mut rng(seed)).value else { panic!("not real") };
        assert!((0..=2).contains(&x));
        seen[x as usize] = true;
        let Num::Real(x) = half.eval(&mut rng(seed)).value else { panic!("not real") };
        assert!((0..=1).contains(&x));
        let Num::Real(x) = other.eval(&mut rng(seed)).value else { panic!("not real") };
        assert!((1..=2).contains(&x));
        assert_eq!(open.eval(&mut rng(seed)).value, Num::Real(1));
    }
    assert_eq!(seen, [true; 3]);
    let wide = Interval::from_str("(-1.5, 2.25)").unwrap();
    for seed in 0..100 {
        let Num::Real(x) = wide.eval(&mut rng(seed)).value else { panic!("not real") };
        assert!(-1_500_000_000 < x && x < 2_250_000_000);
    }
}

#[test]
fn interval_validity() {
    assert!(Interval::from_str("1..2").unwrap().is_valid());
    let empty = Interval { low_inc: true, high_inc: false, kind: IntervalKind::Int { start: 3, end: 3 } };
    assert!(!empty.is_valid());
    let low = Interval { low_inc: false, high_inc: false, kind: IntervalKind::Real { start: i64::MIN, end: 3 } };
    assert!(!low.is_valid());
}
