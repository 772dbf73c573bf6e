use rand::SeedableRng;
use rng_query::options::{Amount, ChooseOptions, EvalExpr};
use rng_query::select::select;

fn rng(seed: u64) -> rand_pcg::Pcg64 {
    rand_pcg::Pcg64::seed_from_u64(seed)
}

fn options(amount: Amount, repeating: bool, keep_order: bool) -> ChooseOptions {
    ChooseOptions { amount, repeating, keep_order, eval_expr: EvalExpr::Auto, push: false }
}

fn distinct(ids: &[usize]) -> bool {
    let mut sorted = ids.to_vec();
    sorted.sort();
    sorted.dedup();
    sorted.len() == ids.len()
}

#[test]
fn nothing_to_select_from() {
    for o in [
        options(Amount::All, false, false),
        options(Amount::N(3), true, false),
        options(Amount::N(3), false, true),
    ] {
        assert_eq!(select(&mut rng(1), 0, &o), Vec::<usize>::new());
    }
}

#[test]
fn all_in_order() {
    for seed in 0..20 {
        let ids = select(&mut rng(seed), 10, &options(Amount::All, false, true));
        assert_eq!(ids, (0..10).collect::<Vec<_>>());
        let ids = select(&mut rng(seed), 10, &options(Amount::N(10), false, true));
        assert_eq!(ids, (0..10).collect::<Vec<_>>());
        let ids = select(&mut rng(seed), 10, &options(Amount::N(25), false, true));
        assert_eq!(ids, (0..10).collect::<Vec<_>>());
    }
}

#[test]
fn all_in_order_draws_nothing() {
    let mut a = rng(3);
    select(&mut a, 10, &options(Amount::All, false, true));
    assert_eq!(a, rng(3));
}

#[test]
fn all_shuffled() {
    let mut moved = false;
    for seed in 0..20 {
        let ids = select(&mut rng(seed), 20, &options(Amount::All, false, false));
        let mut sorted = ids.clone();
        sorted.sort();
        assert_eq!(sorted, (0..20).collect::<Vec<_>>());
        moved |= ids != sorted;
    }
    assert!(moved);
}

#[test]
fn more_than_there_are_without_repeating() {
    for seed in 0..20 {
        let ids = select(&mut rng(seed), 5, &options(Amount::N(50), false, false));
        let mut sorted = ids.clone();
        sorted.sort();
        assert_eq!(sorted, vec![0, 1, 2, 3, 4]);
    }
}

#[test]
fn some_without_repeating() {
    let mut seen = [false; 10];
    let mut unordered = false;
    for seed in 0..100 {
        let ids = select(&mut rng(seed), 10, &options(Amount::N(4), false, false));
        assert_eq!(ids.len(), 4);
        assert!(ids.iter().all(|id| *id < 10));
        assert!(distinct(&ids));
        ids.iter().for_each(|id| seen[*id] = true);
        unordered |= ids.windows(2).any(|w| w[0] > w[1]);
    }
    assert!(seen.iter().all(|s| *s));
    assert!(unordered);
}

#[test]
fn some_without_repeating_in_order() {
    for seed in 0..100 {
        let ids = select(&mut rng(seed), 10, &options(Amount::N(4), false, true));
        assert_eq!(ids.len(), 4);
        assert!(ids.windows(2).all(|w| w[0] < w[1]));
        assert!(ids.iter().all(|id| *id < 10));
        let mut unordered = select(&mut rng(seed), 10, &options(Amount::N(4), false, false));
        unordered.sort();
        assert_eq!(ids, unordered);
    }
}

#[test]
fn none() {
    assert_eq!(select(&mut rng(1), 5, &options(Amount::N(0), false, false)), Vec::<usize>::new());
    assert_eq!(select(&mut rng(1), 5, &options(Amount::N(0), true, true)), Vec::<usize>::new());
}

#[test]
fn repeating() {
    let mut repeated = false;
    for seed in 0..50 {
        let ids = select(&mut rng(seed), 3, &options(Amount::N(8), true, false));
        assert_eq!(ids.len(), 8);
        assert!(ids.iter().all(|id| *id < 3));
        repeated |= !distinct(&ids);
        let ids = select(&mut rng(seed), 3, &options(Amount::N(2), true, false));
        assert_eq!(ids.len(), 2);
    }
    assert!(repeated);
}

#[test]
fn repeating_all_takes_as_many_as_there_are() {
    let mut repeated = false;
    for seed in 0..50 {
        let ids = select(&mut rng(seed), 6, &options(Amount::All, true, false));
        assert_eq!(ids.len(), 6);
        assert!(ids.iter().all(|id| *id < 6));
        repeated |= !distinct(&ids);
    }
    assert!(repeated);
}

#[test]
fn repeating_in_order() {
    for seed in 0..50 {
        let ids = select(&mut rng(seed), 4, &options(Amount::N(9), true, true));
        assert_eq!(ids.len(), 9);
        assert!(ids.windows(2).all(|w| w[0] <= w[1]));
        let mut unordered = select(&mut rng(seed), 4, &options(Amount::N(9), true, false));
        unordered.sort();
        assert_eq!(ids, unordered);
    }
}

#[test]
fn same_seed_same_selection() {
    let o = options(Amount::N(5), false, false);
    assert_eq!(select(&mut rng(77), 30, &o), select(&mut rng(77), 30, &o));
}

#[test]
fn selections_that_need_no_draw_leave_the_generator() {
    for (count, o) in [
        (0, options(Amount::All, false, false)),
        (0, options(Amount::N(3), true, false)),
        (0, options(Amount::N(3), false, false)),
        (4, options(Amount::All, false, true)),
        (4, options(Amount::N(9), false, true)),
        (4, options(Amount::N(0), true, false)),
        (4, options(Amount::N(0), true, true)),
    ] {
        let mut a = rng(13);
        select(&mut a, count, &o);
        assert_eq!(a, rng(13));
    }
    let mut a = rng(13);
    select(&mut a, 4, &options(Amount::N(2), true, false));
    assert_ne!(a, rng(13));
}
