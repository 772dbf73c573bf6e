use rand::SeedableRng;
use rng_query::coin::{coin_of, toss_coin, CoinResult};
use rng_query::color::{color_of, gen_color, Rgb};
use rng_query::uuid::{format_uuid, gen_uuid, mark_uuid};
use rng_query::dice::{Roll, RollFault};
use rng_query::entry::{parse_expr, Entry, Expr, SampleData};
use rng_query::error::{Error, ExprError};
use rng_query::interval::{Interval, IntervalFault, Num};

fn rng(seed: u64) -> rand_pcg::Pcg64 {
    rand_pcg::Pcg64::seed_from_u64(seed)
}

#[test]
fn keywords() {
    assert_eq!(parse_expr("coin"), Ok(Some(Expr::Coin)));
    assert_eq!(parse_expr("color"), Ok(Some(Expr::Color)));
    assert_eq!(parse_expr("uuid"), Ok(Some(Expr::Uuid)));
    assert_eq!(parse_expr("Coin"), Ok(None));
    assert_eq!(parse_expr("coin "), Ok(None));
}

#[test]
fn dice_before_intervals_before_text() {
    assert_eq!(parse_expr("2d6"), Ok(Some(Expr::Dice(Roll::from_str("2d6").unwrap()))));
    assert_eq!(
        parse_expr("[1..6]"),
        Ok(Some(Expr::Interval(Interval::from_str("[1..6]").unwrap())))
    );
    assert_eq!(parse_expr("hello"), Ok(None));
    assert_eq!(parse_expr(""), Ok(None));
    assert_eq!(parse_expr("2 d6"), Ok(None));
}

#[test]
fn faulty_expressions_are_not_text() {
    assert_eq!(parse_expr("d0"), Err(ExprError::Dice(RollFault::ZeroSides)));
    assert_eq!(parse_expr("0d6"), Err(ExprError::Dice(RollFault::ZeroAmount)));
    assert_eq!(parse_expr("5..1"), Err(ExprError::Interval(IntervalFault::Empty)));
    assert_eq!(parse_expr("[1, 1]"), Err(ExprError::Interval(IntervalFault::Empty)));
}

#[test]
fn entry_parse_and_data() {
    assert_eq!(Entry::parse("coin"), Ok(Entry::Expr(Expr::Coin)));
    assert_eq!(Entry::parse("hello"), Ok(Entry::Text("hello".to_string())));
    assert_eq!(Entry::parse("d0"), Err(Error::Expr(ExprError::Dice(RollFault::ZeroSides))));
    assert_eq!(Entry::data("coin"), Entry::Text("coin".to_string()));
    assert_eq!(Entry::data("d0"), Entry::Text("d0".to_string()));
}

#[test]
fn text_gives_itself_and_draws_nothing() {
    let mut a = rng(5);
    let s = Entry::data("hello").eval(&mut a);
    assert_eq!(s.data(), &SampleData::Text("hello".to_string()));
    assert_eq!(s.full(), "hello");
    assert_eq!(s.value(), "hello");
    assert_eq!(a, rng(5));
    assert_eq!(s.into_raw(), "hello");
}

#[test]
fn coin() {
    assert_eq!(coin_of(true), CoinResult::Heads);
    assert_eq!(coin_of(false), CoinResult::Tails);
    let mut heads = 0;
    for seed in 0..100 {
        let c = toss_coin(&mut rng(seed));
        let s = Entry::parse("coin").unwrap().eval(&mut rng(seed));
        assert_eq!(s.data(), &SampleData::Coin(c));
        let text = if c == CoinResult::Heads { "heads" } else { "tails" };
        assert_eq!(s.full(), text);
        assert_eq!(s.value(), text);
        if c == CoinResult::Heads {
            heads += 1;
        }
    }
    assert!(heads > 20 && heads < 80);
}

#[test]
fn color() {
    assert_eq!(color_of(1, 2, 3), Rgb { r: 1, g: 2, b: 3 });
    let c = gen_color(&mut rng(9));
    let s = Entry::parse("color").unwrap().eval(&mut rng(9));
    assert_eq!(s.data(), &SampleData::Color(c));
    assert_eq!(s.full(), format!("{:02X}{:02X}{:02X}", c.r, c.g, c.b));
    assert_eq!(s.value(), s.full());
    assert_ne!(gen_color(&mut rng(1)), gen_color(&mut rng(2)));
}

#[test]
fn uuid_marks() {
    let zero = mark_uuid([0; 16]);
    assert_eq!(zero, [0, 0, 0, 0, 0, 0, 0x40, 0, 0x80, 0, 0, 0, 0, 0, 0, 0]);
    let ones = mark_uuid([0xff; 16]);
    let mut expected = [0xff; 16];
    expected[6] = 0x4f;
    expected[8] = 0xbf;
    assert_eq!(ones, expected);
}

#[test]
fn uuid_text() {
    let bytes = [
        0x01, 0x23, 0x45, 0x67, 0x89, 0xab, 0xcd, 0xef, 0x00, 0x11, 0x22, 0x33, 0x44, 0x55, 0x66,
        0x77,
    ];
    assert_eq!(format_uuid(&bytes), "01234567-89ab-cdef-0011-223344556677");
    assert_eq!(format_uuid(&[0; 16]), "00000000-0000-0000-0000-000000000000");
    assert_eq!(format_uuid(&[0xff; 16]), "ffffffff-ffff-ffff-ffff-ffffffffffff");
}

#[test]
fn uuid_sample() {
    for seed in 0..50 {
        let u = gen_uuid(&mut rng(seed));
        assert_eq!(u[6] >> 4, 4);
        assert_eq!(u[8] >> 6, 2);
        let s = Entry::parse("uuid").unwrap().eval(&mut rng(seed));
        assert_eq!(s.data(), &SampleData::Uuid(u));
        let text = s.full();
        assert_eq!(text, format_uuid(&u));
        assert_eq!(text.len(), 36);
        assert_eq!(text.as_bytes()[14], b'4');
        assert!(matches!(text.as_bytes()[19], b'8' | b'9' | b'a' | b'b'));
        assert_eq!(
            text.char_indices().filter(|(_, c)| *c == '-').map(|(i, _)| i).collect::<Vec<_>>(),
            vec![8, 13, 18, 23]
        );
        assert_eq!(s.value(), text);
    }
    assert_ne!(gen_uuid(&mut rng(1)), gen_uuid(&mut rng(2)));
}

#[test]
fn dice_sample_rendering() {
    for seed in 0..30 {
        let s = Entry::parse("3d6").unwrap().eval(&mut rng(seed));
        let SampleData::Dice(res) = s.data() else { panic!("not dice") };
        assert_eq!(s.full(), format!("3d6: {}", res.total()));
        assert_eq!(s.value(), format!("{}", res.total()));

        let s = Entry::parse("3d6+2").unwrap().eval(&mut rng(seed));
        let SampleData::Dice(res) = s.data() else { panic!("not dice") };
        let d = res.rolled_dice();
        assert_eq!(
            s.full(),
            format!("3d6+2: [{}+{}+{}]+2 = {}", d[0].val, d[1].val, d[2].val, res.total())
        );

        let s = Entry::parse("3d6k2-10").unwrap().eval(&mut rng(seed));
        let SampleData::Dice(res) = s.data() else { panic!("not dice") };
        let d = res.rolled_dice();
        assert_eq!(
            s.full(),
            format!("3d6k2-10: [{}d+{}+{}]-10 = {}", d[0].val, d[1].val, d[2].val, res.total())
        );
        assert_eq!(s.value(), format!("{}", res.total()));

        let s = Entry::parse("d4!").unwrap().eval(&mut rng(seed));
        let SampleData::Dice(res) = s.data() else { panic!("not dice") };
        let dice: Vec<String> = res.rolled_dice().iter().map(|d| d.val.to_string()).collect();
        assert_eq!(s.full(), format!("d4!: [{}] = {}", dice.join("+"), res.total()));
    }
}

#[test]
fn interval_sample_rendering() {
    for seed in 0..30 {
        let s = Entry::parse("(1..10]").unwrap().eval(&mut rng(seed));
        let SampleData::Interval(res) = s.data() else { panic!("not interval") };
        let Num::Int(x) = res.value else { panic!("not int") };
        assert_eq!(s.full(), format!("(1..10]: {x}"));
        assert_eq!(s.value(), format!("{x}"));

        let s = Entry::parse("[0, 1)").unwrap().eval(&mut rng(seed));
        let SampleData::Interval(res) = s.data() else { panic!("not interval") };
        assert_eq!(s.full(), format!("[0, 1): {}", res.value.render()));
        assert!(s.value().starts_with("0"));
    }
}
