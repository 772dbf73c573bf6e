use rand::SeedableRng;
use rng_query::dice::{
    Die, Roll, RollFault, RollParseError, SelectAction, SelectDice, SelectWhich, MAX_EXPLOSIONS,
};

fn plain(amount: u16, sides: u16) -> Roll {
    Roll { amount, sides, exploding: false, select: None, modifier: 0 }
}

fn rng(seed: u64) -> rand_pcg::Pcg64 {
    rand_pcg::Pcg64::seed_from_u64(seed)
}

fn invalid(f: RollFault) -> Result<Roll, RollParseError> {
    Err(RollParseError::Invalid(f))
}

#[test]
fn parse_plain() {
    assert_eq!(Roll::from_str("d6"), Ok(plain(1, 6)));
    assert_eq!(Roll::from_str("2d20"), Ok(plain(2, 20)));
    assert_eq!(Roll::from_str("65535d65535"), Ok(plain(65535, 65535)));
    assert_eq!(Roll::from_str("d%"), Ok(plain(1, 100)));
    assert_eq!(Roll::from_str("3d%"), Ok(plain(3, 100)));
    assert_eq!(Roll::from_str("007d6"), Ok(plain(7, 6)));
}

#[test]
fn parse_exploding_select_modifier() {
    assert_eq!(Roll::from_str("4d6!"), Ok(Roll { exploding: true, ..plain(4, 6) }));
    let sel = |amount, action, which| Some(SelectDice { amount, action, which });
    assert_eq!(
        Roll::from_str("4d6k3"),
        Ok(Roll { select: sel(3, SelectAction::Keep, SelectWhich::High), ..plain(4, 6) })
    );
    assert_eq!(
        Roll::from_str("4d6kh"),
        Ok(Roll { select: sel(1, SelectAction::Keep, SelectWhich::High), ..plain(4, 6) })
    );
    assert_eq!(
        Roll::from_str("4d6kl2"),
        Ok(Roll { select: sel(2, SelectAction::Keep, SelectWhich::Low), ..plain(4, 6) })
    );
    assert_eq!(
        Roll::from_str("4d6d"),
        Ok(Roll { select: sel(1, SelectAction::Drop, SelectWhich::Low), ..plain(4, 6) })
    );
    assert_eq!(
        Roll::from_str("4d6dl"),
        Ok(Roll { select: sel(1, SelectAction::Drop, SelectWhich::Low), ..plain(4, 6) })
    );
    assert_eq!(
        Roll::from_str("4d6dh2"),
        Ok(Roll { select: sel(2, SelectAction::Drop, SelectWhich::High), ..plain(4, 6) })
    );
    assert_eq!(Roll::from_str("d20+5"), Ok(Roll { modifier: 5, ..plain(1, 20) }));
    assert_eq!(Roll::from_str("d20-5+2-10"), Ok(Roll { modifier: -13, ..plain(1, 20) }));
    assert_eq!(
        Roll::from_str("2d%!dh3-1"),
        Ok(Roll {
            exploding: true,
            select: sel(3, SelectAction::Drop, SelectWhich::High),
            modifier: -1,
            ..plain(2, 100)
        })
    );
}

#[test]
fn parse_no_match() {
    for s in [
        "", "d", "6", "2d", "dd6", "d6x", "d6!!", "d6k3k3", "d6+", "d6+-1", "d6 ", " d6", "D6",
        "d6kx", "d6k3!", "d%%", "d6+1k", "a, b", "1..5", "d-6", "２d6",
    ] {
        assert_eq!(Roll::from_str(s), Err(RollParseError::NoMatch), "{s:?}");
    }
}

#[test]
fn parse_faults() {
    assert_eq!(Roll::from_str("0d6"), invalid(RollFault::ZeroAmount));
    assert_eq!(Roll::from_str("65536d6"), invalid(RollFault::BadAmount));
    assert_eq!(Roll::from_str("d0"), invalid(RollFault::ZeroSides));
    assert_eq!(Roll::from_str("d65536"), invalid(RollFault::BadSides));
    assert_eq!(Roll::from_str("d6k0"), invalid(RollFault::ZeroSelect));
    assert_eq!(Roll::from_str("d6dl99999"), invalid(RollFault::BadSelect));
    assert_eq!(Roll::from_str("d6+2147483648"), invalid(RollFault::BadModifier));
    assert_eq!(Roll::from_str("d6-2147483649"), invalid(RollFault::BadModifier));
    assert_eq!(Roll::from_str("d6+2147483647+1"), invalid(RollFault::BadModifier));
    assert_eq!(Roll::from_str("d6-2147483648-1"), invalid(RollFault::BadModifier));
    assert_eq!(Roll::from_str("d6+1+2147483648-5"), invalid(RollFault::BadModifier));
    assert_eq!(
        Roll::from_str("d6-2147483648"),
        Ok(Roll { modifier: -2147483648, ..plain(1, 6) })
    );
    assert_eq!(
        Roll::from_str("d6+2147483647"),
        Ok(Roll { modifier: 2147483647, ..plain(1, 6) })
    );
}

#[test]
fn first_fault_from_the_left_is_reported() {
    assert_eq!(Roll::from_str("0d0k0"), invalid(RollFault::ZeroAmount));
    assert_eq!(Roll::from_str("1d0k0"), invalid(RollFault::ZeroSides));
    assert_eq!(Roll::from_str("1d1k0+9999999999"), invalid(RollFault::ZeroSelect));
}

#[test]
fn render_round_trips() {
    for (n, s) in [(1u16, 1u16), (1, 6), (2, 6), (10, 100), (65535, 65535), (1, 65535)] {
        let text = format!("{n}d{s}");
        let roll = Roll::from_str(&text).unwrap();
        let expected = if n > 1 { text.clone() } else { format!("d{s}") };
        assert_eq!(roll.render(), expected);
    }
}

#[test]
fn render_full_notation() {
    for s in ["4d6!kl2-3", "d20+5", "2d100dh", "3d8k", "d4d2", "12d12!"] {
        assert_eq!(Roll::from_str(s).unwrap().render(), s);
    }
    assert_eq!(Roll::from_str("1d%kh1+2-2").unwrap().render(), "d100k");
    assert_eq!(Roll::from_str("d6dl+1+1").unwrap().render(), "d6d+2");
}

#[test]
fn roll_validity() {
    assert!(plain(1, 1).is_valid());
    assert!(!plain(0, 6).is_valid());
    assert!(!plain(1, 0).is_valid());
    let sel = SelectDice { amount: 0, action: SelectAction::Keep, which: SelectWhich::High };
    assert!(!Roll { select: Some(sel), ..plain(1, 6) }.is_valid());
}

#[test]
fn dice_lie_on_their_faces_and_total_is_their_sum() {
    for seed in 0..50 {
        let roll = Roll::from_str("5d6+3").unwrap();
        let res = roll.eval(&mut rng(seed));
        assert_eq!(res.roll(), &roll);
        let dice = res.rolled_dice();
        assert_eq!(dice.len(), 5);
        assert!(dice.iter().all(|d| 1 <= d.val && d.val <= 6 && !d.drop));
        let sum: i64 = dice.iter().map(|d| d.val as i64).sum();
        assert_eq!(res.total(), sum + 3);
        assert_eq!(res.taken_dice(), dice.iter().map(|d| d.val).collect::<Vec<_>>());
    }
}

#[test]
fn one_sided_die() {
    let res = plain(3, 1).eval(&mut rng(1));
    assert_eq!(res.rolled_dice(), &vec![Die { val: 1, drop: false }; 3]);
    assert_eq!(res.total(), 3);
}

#[test]
fn exploding_one_sided_die_stops() {
    let roll = Roll::from_str("1d1!").unwrap();
    let res = roll.eval(&mut rng(7));
    assert_eq!(res.rolled_dice().len(), MAX_EXPLOSIONS + 1);
    assert_eq!(res.total(), 65);
    let roll = Roll::from_str("3d1!").unwrap();
    assert_eq!(roll.eval(&mut rng(7)).rolled_dice().len(), 3 * 65);
}

#[test]
fn every_top_face_brings_one_more_die() {
    let mut exploded = false;
    for seed in 0..200 {
        let roll = Roll::from_str("4d3!").unwrap();
        let res = roll.eval(&mut rng(seed));
        let dice = res.rolled_dice();
        let top = dice.iter().filter(|d| d.val == 3).count();
        assert_eq!(dice.len(), 4 + top);
        assert!(dice.len() >= 4);
        exploded |= top > 0;
        let mut chains = 0;
        for d in dice {
            if d.val != 3 {
                chains += 1;
            }
        }
        assert_eq!(chains, 4);
    }
    assert!(exploded);
}

#[test]
fn select_marks_the_sorted_dice() {
    for seed in 0..100 {
        for (text, dropped) in [
            ("6d10k2", [true, true, true, true, false, false]),
            ("6d10kl2", [false, false, true, true, true, true]),
            ("6d10dh2", [false, false, false, false, true, true]),
            ("6d10d2", [true, true, false, false, false, false]),
        ] {
            let res = Roll::from_str(text).unwrap().eval(&mut rng(seed));
            let dice = res.rolled_dice();
            assert!(dice.windows(2).all(|w| w[0].val <= w[1].val));
            assert_eq!(dice.iter().map(|d| d.drop).collect::<Vec<_>>(), dropped);
            let kept: i64 = dice.iter().filter(|d| !d.drop).map(|d| d.val as i64).sum();
            assert_eq!(res.total(), kept);
            assert_eq!(
                res.taken_dice(),
                dice.iter().filter(|d| !d.drop).map(|d| d.val).collect::<Vec<_>>()
            );
        }
    }
}

#[test]
fn select_more_than_there_are() {
    let res = Roll::from_str("2d6k5").unwrap().eval(&mut rng(3));
    assert!(res.rolled_dice().iter().all(|d| !d.drop));
    let res = Roll::from_str("2d6d5").unwrap().eval(&mut rng(3));
    assert!(res.rolled_dice().iter().all(|d| d.drop));
    assert_eq!(res.total(), 0);
}

#[test]
fn sorting_changes_an_unsorted_roll() {
    let mut changed = false;
    for seed in 0..20 {
        let unsorted = Roll::from_str("8d100").unwrap().eval(&mut rng(seed));
        let sorted = Roll::from_str("8d100k8").unwrap().eval(&mut rng(seed));
        let mut vals: Vec<u16> = unsorted.rolled_dice().iter().map(|d| d.val).collect();
        let got: Vec<u16> = sorted.rolled_dice().iter().map(|d| d.val).collect();
        changed |= vals != got;
        vals.sort();
        assert_eq!(vals, got);
    }
    assert!(changed);
}

#[test]
fn largest_roll_does_not_overflow() {
    let res = Roll::from_str("65535d65535+2147483647").unwrap().eval(&mut rng(11));
    let sum: i64 = res.rolled_dice().iter().map(|d| d.val as i64).sum();
    assert_eq!(res.total(), sum + 2147483647);
    assert!(res.total() > 2147483647);
}

#[test]
fn same_seed_same_roll() {
    let roll = Roll::from_str("10d20!k3").unwrap();
    assert_eq!(roll.eval(&mut rng(42)), roll.eval(&mut rng(42)));
    assert_eq!(roll.eval(&mut rng(42)).duplicate(), roll.eval(&mut rng(42)));
}

fn die(val: u16, drop: bool) -> Die {
    Die { val, drop }
}

#[test]
fn faces_without_select_stay_as_they_came() {
    let roll = Roll::from_str("4d6+1").unwrap();
    let res = rng_query::RollResult::from_faces(roll, vec![3, 1, 6, 2]).unwrap();
    assert_eq!(
        res.rolled_dice(),
        &vec![die(3, false), die(1, false), die(6, false), die(2, false)]
    );
    assert_eq!(res.total(), 13);
    assert_eq!(res.taken_dice(), vec![3, 1, 6, 2]);
    assert_eq!(res.all_dice(), vec![(3, true), (1, true), (6, true), (2, true)]);
    assert_eq!(res.amount(), (4, 4));
    assert_eq!(res.sides(), 6);
    assert_eq!(res.modifier(), 1);
    assert!(!res.was_exploding());
}

#[test]
fn faces_under_select_are_sorted_and_marked() {
    let faces = vec![3, 1, 6, 2];
    let arranged = |text: &str| {
        let roll = Roll::from_str(text).unwrap();
        let res = rng_query::RollResult::from_faces(roll, faces.clone()).unwrap();
        (res.rolled_dice().clone(), res.total())
    };
    assert_eq!(
        arranged("4d6k3"),
        (vec![die(1, true), die(2, false), die(3, false), die(6, false)], 11)
    );
    assert_eq!(
        arranged("4d6kl"),
        (vec![die(1, false), die(2, true), die(3, true), die(6, true)], 1)
    );
    assert_eq!(
        arranged("4d6dh2-4"),
        (vec![die(1, false), die(2, false), die(3, true), die(6, true)], -1)
    );
    assert_eq!(
        arranged("4d6d+10"),
        (vec![die(1, true), die(2, false), die(3, false), die(6, false)], 21)
    );
    assert_eq!(
        arranged("4d6k9"),
        (vec![die(1, false), die(2, false), die(3, false), die(6, false)], 12)
    );
}

#[test]
fn faces_that_cannot_come() {
    let from = |text: &str, faces: Vec<u16>| {
        rng_query::RollResult::from_faces(Roll::from_str(text).unwrap(), faces).is_some()
    };
    assert!(from("2d6", vec![1, 6]));
    assert!(!from("2d6", vec![1]));
    assert!(!from("2d6", vec![1, 2, 3]));
    assert!(!from("2d6", vec![0, 2]));
    assert!(!from("2d6", vec![7, 2]));
    assert!(from("2d6!", vec![6, 2, 1]));
    assert!(from("2d6!", vec![6, 6, 2, 1]));
    assert!(!from("2d6!", vec![6, 2]));
    assert!(!from("2d6!", vec![5, 2, 1]));
    assert!(!from("2d6!", vec![6, 6, 1]));
    assert!(!from("2d6!", vec![1, 2, 6]));
    assert!(!from("2d6!", vec![1, 6]));
    assert!(from("2d6!", vec![1, 6, 3]));
    assert!(from("2d6", vec![6, 6]));
    assert!(from("2d6!k1", vec![6, 6, 1, 3]));
    assert!(!from("2d6!k1", vec![1, 3, 6, 6]));
    assert!(from("1d1!", vec![1; 65]));
    assert!(!from("1d1!", vec![1; 64]));
    assert!(!from("1d1!", vec![1; 66]));
    assert!(!from("1d1", vec![1; 65]));
    let invalid = Roll { amount: 0, sides: 6, exploding: false, select: None, modifier: 0 };
    assert!(rng_query::RollResult::from_faces(invalid, vec![]).is_none());
}

#[test]
fn exploded_faces_render_in_full() {
    let roll = Roll::from_str("2d6!").unwrap();
    let res = rng_query::RollResult::from_faces(roll, vec![6, 6, 2, 1]).unwrap();
    assert_eq!(res.amount(), (2, 4));
    assert!(res.was_exploding());
    assert_eq!(res.total(), 15);
    let mut out = Vec::new();
    res.push_text(&mut out);
    assert_eq!(out.iter().collect::<String>(), "2d6!: [6+6+2+1] = 15");
}

#[test]
fn evaluation_gives_what_its_faces_make() {
    for seed in 0..30 {
        for text in ["5d6", "6d4!", "4d6k3", "8d10!dh2+1"] {
            let roll = Roll::from_str(text).unwrap();
            let plain = Roll { select: None, ..roll };
            let drawn: Vec<u16> =
                plain.eval(&mut rng(seed)).rolled_dice().iter().map(|d| d.val).collect();
            let res = roll.eval(&mut rng(seed));
            assert_eq!(Some(res), rng_query::RollResult::from_faces(roll, drawn));
        }
    }
}

#[test]
fn modifiers_are_summed_before_the_sum_is_judged() {
    let net = |s: &str| Roll::from_str(s).map(|r| r.modifier);
    assert_eq!(net("d6+2147483647+1-5"), Ok(2147483643));
    assert_eq!(net("d6+2147483647+1-1"), Ok(2147483647));
    assert_eq!(net("d6-2147483648-2147483648+2147483647+2147483647"), Ok(-2));
    assert_eq!(net("d6+2147483647+2147483647+2147483647-2147483647-2147483647"), Ok(2147483647));
    assert_eq!(net("d6-1-2147483648+1"), Ok(-2147483648));
    assert_eq!(net("d6+2147483647+2147483647"), Err(RollParseError::Invalid(RollFault::BadModifier)));
}
