use rand::SeedableRng;
use rng_query::dice::RollFault;
use rng_query::entry::SampleData;
use rng_query::error::{Error, ExprError};
use rng_query::interval::IntervalFault;
use rng_query::options::OptionsError;
use rng_query::parse::{Bracket, Separators, SplitPartsError};
use rng_query::state::{run, split_lines, State, StmtOutput};

fn values(out: &StmtOutput) -> Vec<String> {
    out.0.iter().map(|s| s.value()).collect()
}

fn fulls(out: &StmtOutput) -> Vec<String> {
    out.0.iter().map(|s| s.full()).collect()
}

fn run_seeded(seed: u64, lines: &[&str]) -> Result<Vec<Vec<String>>, Error> {
    let mut state = State::with_seed(seed);
    let mut all = Vec::new();
    for line in lines {
        for out in state.run_line(line)? {
            all.push(fulls(&out));
        }
    }
    if let Some(out) = state.eof()? {
        all.push(fulls(&out));
    }
    Ok(all)
}

#[test]
fn new_state() {
    let state = State::with_seed(1);
    assert_eq!(state.pending_len(), 0);
    assert_eq!(state.sep, Separators { stmt: ';', entry: ',', options: '/' });
    assert_eq!(Separators::default(), state.sep);
}

#[test]
fn add_entry_trims_and_drops_empty() {
    let mut state = State::with_seed(1);
    state.add_entry("  a  ");
    state.add_entry("");
    state.add_entry(" \t ");
    state.add_entry("b, c");
    assert_eq!(state.pending_len(), 2);
    let out = state.run_line("/ list").unwrap();
    assert_eq!(out.len(), 1);
    assert_eq!(values(&out[0]), vec!["a", "b, c"]);
    assert_eq!(state.pending_len(), 0);
}

#[test]
fn one_of_three() {
    let mut seen = std::collections::BTreeSet::new();
    for seed in 0..60 {
        let mut state = State::with_seed(seed);
        let out = state.run_line("a, b, c").unwrap();
        assert_eq!(out.len(), 1);
        let v = values(&out[0]);
        assert_eq!(v.len(), 1);
        assert!(["a", "b", "c"].contains(&v[0].as_str()));
        seen.insert(v[0].clone());
        assert_eq!(state.pending_len(), 0);
        assert_eq!(state.eof().unwrap(), None);
    }
    assert_eq!(seen.len(), 3);
}

#[test]
fn empty_line_does_nothing() {
    let mut state = State::with_seed(1);
    assert_eq!(state.run_line("").unwrap(), vec![]);
    assert_eq!(state.run_line("  , ,").unwrap(), vec![]);
    state.add_entry("x");
    assert_eq!(state.run_line("").unwrap(), vec![]);
    assert_eq!(state.pending_len(), 1);
    let out = state.eof().unwrap().unwrap();
    assert_eq!(values(&out), vec!["x"]);
    assert_eq!(state.pending_len(), 0);
}

#[test]
fn eof_without_entries() {
    let mut state = State::with_seed(1);
    assert_eq!(state.eof().unwrap(), None);
}

#[test]
fn statements_of_one_line() {
    let mut state = State::with_seed(4);
    let out = state.run_line("a, b / list; c / list; ; d, e / 0").unwrap();
    assert_eq!(out.len(), 4);
    assert_eq!(values(&out[0]), vec!["a", "b"]);
    assert_eq!(values(&out[1]), vec!["c"]);
    assert_eq!(values(&out[2]), Vec::<String>::new());
    assert_eq!(values(&out[3]), Vec::<String>::new());
    assert_eq!(state.pending_len(), 0);
}

#[test]
fn boundary_without_entries_gives_an_empty_output() {
    let mut state = State::with_seed(4);
    let out = state.run_line(";").unwrap();
    assert_eq!(out.len(), 1);
    assert!(out[0].0.is_empty());
}

#[test]
fn options_alone_apply_to_pending_entries() {
    let mut state = State::with_seed(4);
    state.add_entry("x");
    state.add_entry("y");
    state.add_entry("z");
    let out = state.run_line("/ all o").unwrap();
    assert_eq!(out.len(), 1);
    assert_eq!(values(&out[0]), vec!["x", "y", "z"]);
}

#[test]
fn shuffle_preset() {
    let mut moved = false;
    for seed in 0..20 {
        let mut state = State::with_seed(seed);
        let out = state.run_line("a, b, c, d, e, f / shuffle").unwrap();
        let mut v = values(&out[0]);
        moved |= v != ["a", "b", "c", "d", "e", "f"];
        v.sort();
        assert_eq!(v, vec!["a", "b", "c", "d", "e", "f"]);
    }
    assert!(moved);
}

#[test]
fn single_entry_is_an_expression() {
    let mut state = State::with_seed(2);
    let out = state.run_line("d6").unwrap();
    assert!(matches!(out[0].0[0].data(), SampleData::Dice(_)));
    let out = state.run_line("coin").unwrap();
    assert!(matches!(out[0].0[0].data(), SampleData::Coin(_)));
    let out = state.run_line("[1..3]").unwrap();
    assert!(matches!(out[0].0[0].data(), SampleData::Interval(_)));
    let out = state.run_line("hello").unwrap();
    assert_eq!(out[0].0[0].data(), &SampleData::Text("hello".to_string()));
}

#[test]
fn several_entries_are_text_unless_forced() {
    let mut state = State::with_seed(2);
    let out = state.run_line("d6, d8 / list").unwrap();
    assert_eq!(values(&out[0]), vec!["d6", "d8"]);
    let out = state.run_line("d6, d8 / all o").unwrap();
    assert_eq!(values(&out[0]), vec!["d6", "d8"]);
    let out = state.run_line("d6, d8 / eval").unwrap();
    assert!(out[0].0.iter().all(|s| matches!(s.data(), SampleData::Dice(_))));
    let out = state.run_line("d6, text / all o e").unwrap();
    assert!(matches!(out[0].0[0].data(), SampleData::Dice(_)));
    assert_eq!(out[0].0[1].data(), &SampleData::Text("text".to_string()));
}

#[test]
fn single_entry_as_text_when_forbidden() {
    let mut state = State::with_seed(2);
    let out = state.run_line("d6 / E").unwrap();
    assert_eq!(values(&out[0]), vec!["d6"]);
    let out = state.run_line("d0 / E").unwrap();
    assert_eq!(values(&out[0]), vec!["d0"]);
}

#[test]
fn quoted_expression_is_evaluated_after_unquoting() {
    let mut state = State::with_seed(2);
    let out = state.run_line("\"a, b\"").unwrap();
    assert_eq!(values(&out[0]), vec!["a, b"]);
}

#[test]
fn repeated_entry_is_evaluated_again_each_time() {
    let mut state = State::with_seed(8);
    let out = state.run_line("d1000 / 20r").unwrap();
    let v = values(&out[0]);
    assert_eq!(v.len(), 20);
    assert!(out[0].0.iter().all(|s| matches!(s.data(), SampleData::Dice(_))));
    let mut distinct = v.clone();
    distinct.sort();
    distinct.dedup();
    assert!(distinct.len() > 10);
}

#[test]
fn faulty_expression_fails_the_statement() {
    let mut state = State::with_seed(2);
    state.add_entry("pending");
    assert_eq!(
        state.run_line("hello / list; d0 / e"),
        Err(Error::Expr(ExprError::Dice(RollFault::ZeroSides)))
    );
    assert_eq!(state.pending_len(), 0);
    assert_eq!(
        state.run_line("5..1"),
        Err(Error::Expr(ExprError::Interval(IntervalFault::Empty)))
    );
    assert_eq!(
        state.run_line("a, b, 0d6 / eval"),
        Err(Error::Expr(ExprError::Dice(RollFault::ZeroAmount)))
    );
}

#[test]
fn faulty_expression_that_is_not_selected_does_not_fail() {
    let mut state = State::with_seed(2);
    let out = state.run_line("a, d0 / 0e").unwrap();
    assert!(out[0].0.is_empty());
}

#[test]
fn bad_options_fail_the_line_and_clear_the_entries() {
    let mut state = State::with_seed(2);
    state.add_entry("pending");
    assert_eq!(state.run_line("a, b / 3rr"), Err(Error::Options(OptionsError::DuplicateFlags(
        rng_query::options::FlagSet {
            repeating: true,
            keep_order: false,
            eval: false,
            no_eval: false,
            push: false
        }
    ))));
    assert_eq!(state.pending_len(), 0);
    assert_eq!(state.run_line("a / 3eE"), Err(Error::Options(OptionsError::IncompatibleFlags)));
    assert_eq!(state.run_line("a / x"), Err(Error::Options(OptionsError::BadOptions)));
    assert_eq!(state.run_line("a").map(|o| o.len()), Ok(1));
}

#[test]
fn line_that_cannot_be_split_changes_nothing() {
    let mut state = State::with_seed(2);
    state.add_entry("pending");
    let before = State::with_seed(2);
    assert_eq!(
        state.run_line("a; b; (c"),
        Err(Error::SplitError(SplitPartsError::UnclosedBracket { offset: 6, kind: Bracket::Round }))
    );
    assert_eq!(state.pending_len(), 1);
    let mut untouched = State::with_seed(2);
    untouched.add_entry("pending");
    assert_eq!(state, untouched);
    assert_eq!(
        state.run_line("\"abc"),
        Err(Error::SplitError(SplitPartsError::UnclosedString { start: 0 }))
    );
    let out = state.run_line("/ list").unwrap();
    assert_eq!(values(&out[0]), vec!["pending"]);
    let mut fresh = before;
    fresh.add_entry("pending");
    fresh.add_entry("other");
    state.add_entry("pending");
    state.add_entry("other");
    assert_eq!(
        state.run_line("/ shuffle").unwrap(),
        fresh.run_line("/ shuffle").unwrap()
    );
}

#[test]
fn push_sends_values_back() {
    let mut state = State::with_seed(6);
    let out = state.run_line("a, b, c / all o p").unwrap();
    assert_eq!(out.len(), 1);
    assert!(out[0].0.is_empty());
    assert_eq!(state.pending_len(), 3);
    let out = state.run_line("d / list").unwrap();
    assert_eq!(values(&out[0]), vec!["a", "b", "c", "d"]);
}

#[test]
fn push_pipeline_of_values() {
    let mut state = State::with_seed(6);
    let out = state.run_line("d6+10 / p; / list").unwrap();
    assert_eq!(out.len(), 2);
    assert!(out[0].0.is_empty());
    let v = values(&out[1]);
    assert_eq!(v.len(), 1);
    let n: i64 = v[0].parse().unwrap();
    assert!((11..=16).contains(&n));
    assert_eq!(out[1].0[0].data(), &SampleData::Text(v[0].clone()));
}

#[test]
fn interpreter_with_other_separators() {
    let mut state = State::with_seed(6);
    state.sep = Separators { stmt: '.', entry: '|', options: ':' };
    let out = state.run_line("a, b | c : list. d; e").unwrap();
    assert_eq!(out.len(), 2);
    assert_eq!(values(&out[0]), vec!["a, b", "c"]);
    assert_eq!(values(&out[1]), vec!["d; e"]);
}

#[test]
fn lines() {
    let texts = |s: &str| split_lines(s);
    assert_eq!(texts(""), Vec::<String>::new());
    assert_eq!(texts("a"), vec!["a"]);
    assert_eq!(texts("a\n"), vec!["a"]);
    assert_eq!(texts("a\nb"), vec!["a", "b"]);
    assert_eq!(texts("a\r\nb\r\n"), vec!["a", "b"]);
    assert_eq!(texts("\n\na\n\n"), vec!["", "", "a", ""]);
    assert_eq!(texts("a\rb\r"), vec!["a\rb\r"]);
    assert_eq!(texts("\r\n"), vec![""]);
    for s in ["", "a", "a\n", "a\nb", "a\r\nb\r\n", "\n\na\n\n", "a\rb\r", "\r\n", "x\r\r\ny"] {
        assert_eq!(texts(s), s.lines().collect::<Vec<_>>(), "{s:?}");
    }
}

#[test]
fn program_runs_line_by_line() {
    let mut state = State::with_seed(3);
    let out = state.run_program("a, b / list\n\nc / list; d / list\r\ne").unwrap();
    assert_eq!(out.len(), 4);
    assert_eq!(values(&out[0]), vec!["a", "b"]);
    assert_eq!(values(&out[1]), vec!["c"]);
    assert_eq!(values(&out[2]), vec!["d"]);
    assert_eq!(values(&out[3]), vec!["e"]);
}

#[test]
fn program_ends_the_input() {
    let mut state = State::with_seed(3);
    state.add_entry("x");
    let out = state.run_program("").unwrap();
    assert_eq!(out.len(), 1);
    assert_eq!(values(&out[0]), vec!["x"]);
    let mut state = State::with_seed(3);
    let out = state.run_program("a / p\nb / p").unwrap();
    assert_eq!(out.len(), 3);
    assert!(out[0].0.is_empty());
    assert!(out[1].0.is_empty());
    assert_eq!(out[2].0.len(), 1);
}

#[test]
fn program_fails_with_its_first_fault() {
    let mut state = State::with_seed(3);
    assert_eq!(
        state.run_program("a\nb / rr\n(c"),
        Err(Error::Options(OptionsError::DuplicateFlags(rng_query::options::FlagSet {
            repeating: true,
            keep_order: false,
            eval: false,
            no_eval: false,
            push: false
        })))
    );
}

#[test]
fn run_with_system_entropy() {
    let out = run("a, b, c / list\nd6\n[1..=3]").unwrap();
    assert_eq!(out.len(), 3);
    assert_eq!(values(&out[0]), vec!["a", "b", "c"]);
    let n: i64 = values(&out[1])[0].parse().unwrap();
    assert!((1..=6).contains(&n));
    let n: i64 = values(&out[2])[0].parse().unwrap();
    assert!((1..=3).contains(&n));
    assert!(run("(").is_err());
}

#[test]
fn same_seed_same_outputs() {
    let lines = [
        "a, b, c, d / 2",
        "10d20!k3+4",
        "[1..1000], (0, 1), coin, color, uuid, 3d6 / all e",
        "x, y, z / 10r",
        "d100 / 5rp; / shuffle",
        "1..=6",
    ];
    for seed in [0, 1, 42, u64::MAX] {
        let a = run_seeded(seed, &lines).unwrap();
        let b = run_seeded(seed, &lines).unwrap();
        assert_eq!(a, b);
        assert_eq!(a.len(), 7);
    }
    assert_ne!(run_seeded(1, &lines).unwrap(), run_seeded(2, &lines).unwrap());
}

#[test]
fn same_seed_same_samples() {
    let mut a = State::with_seed(99);
    let mut b = State::with_seed(99);
    for line in ["4d6k3", "a, b, c / shuffle", "(0.5, 0.75]", "uuid"] {
        assert_eq!(a.run_line(line).unwrap(), b.run_line(line).unwrap());
    }
}

#[test]
fn messages() {
    assert_eq!(
        Error::Options(OptionsError::IncompatibleFlags).message(),
        "options: Flags 'e' and 'E' are incompatible"
    );
    assert_eq!(Error::Options(OptionsError::BadOptions).message(), "options: Bad options");
    assert_eq!(
        Error::Options(OptionsError::BadAmount).message(),
        "options: Bad amount: number too large to fit in target type"
    );
    assert_eq!(
        rng_query::options::ChooseOptions::from_str("poEerr").unwrap_err().message(),
        "Duplicate flags: Eeopr"
    );
    assert_eq!(
        Error::Expr(ExprError::Dice(RollFault::ZeroSides)).message(),
        "expression: invalid dice roll: number of sides can't be 0"
    );
    assert_eq!(
        Error::Expr(ExprError::Dice(RollFault::BadAmount)).message(),
        "expression: invalid dice roll: bad amount: number too large to fit in target type"
    );
    assert_eq!(
        Error::Expr(ExprError::Interval(IntervalFault::Empty)).message(),
        "expression: invalid interval: the interval is empty"
    );
    assert_eq!(
        Error::Expr(ExprError::Interval(IntervalFault::EndTooBig)).message(),
        "expression: invalid interval: end value is too big"
    );
    assert_eq!(
        Error::SplitError(SplitPartsError::UnclosedString { start: 12 }).message(),
        "inline entries: unclosed string starting at byte 12"
    );
    assert_eq!(
        Error::SplitError(SplitPartsError::UnopenedBracket { offset: 6, kind: Bracket::Square })
            .message(),
        "inline entries: unopened square bracket closed at byte 6"
    );
    assert_eq!(
        SplitPartsError::MismatchedBracket { offset: 0, kind: Bracket::Curly }.message(),
        "mismatched curly brace at byte 0"
    );
    assert_eq!(
        SplitPartsError::UnclosedBracket { offset: 3, kind: Bracket::Round }.message(),
        "unclosed parenthesis opened at byte 3"
    );
    assert_eq!(
        rng_query::dice::RollParseError::NoMatch.message(),
        "the input is not a dice roll"
    );
    assert_eq!(
        rng_query::interval::IntervalParseError::NoMatch.message(),
        "the input is not an interval"
    );
    assert_eq!(Error::NoEntropy.message(), "the system gave no entropy");
}

#[test]
fn outputs_can_be_copied() {
    let mut state = State::with_seed(5);
    let out = state.run_line("4d6k3, coin, [1, 2], uuid, color, text / eval").unwrap();
    let copy = out[0].clone();
    assert_eq!(copy, out[0]);
    assert_eq!(fulls(&copy), fulls(&out[0]));
    assert_eq!(copy.0[0].data().clone(), *out[0].0[0].data());
}

#[test]
fn same_seed_same_interpreter() {
    assert_eq!(State::with_seed(7), State::with_seed(7));
    assert_ne!(State::with_seed(7), State::with_seed(8));
    assert_eq!(State::from_rng(rand_pcg::Pcg64::seed_from_u64(7)), State::with_seed(7));
    assert_ne!(State::from_rng(rand_pcg::Pcg64::seed_from_u64(9)), State::with_seed(7));
}

#[test]
fn interpreter_draws_from_the_generator_it_was_given() {
    let mut given = State::from_rng(rand_pcg::Pcg64::seed_from_u64(21));
    let mut seeded = State::with_seed(21);
    let line = "10d1000!k4, [1..1000000], uuid / eval";
    assert_eq!(given.run_line(line).unwrap(), seeded.run_line(line).unwrap());
    assert_eq!(given, seeded);
}

#[test]
fn adding_an_entry_draws_nothing() {
    let mut state = State::with_seed(3);
    state.add_entry("x");
    assert_eq!(state.eof().unwrap().map(|o| values(&o)), Some(vec!["x".to_string()]));
    assert_eq!(state, State::with_seed(3));
    assert_eq!(state.eof().unwrap(), None);
    assert_eq!(state, State::with_seed(3));
}

#[test]
fn listing_draws_nothing() {
    let mut state = State::with_seed(17);
    let out = state.run_line("d6, coin, c / list; x / 0rE; / list").unwrap();
    assert_eq!(values(&out[0]), vec!["d6", "coin", "c"]);
    assert!(out[1].0.is_empty());
    assert!(out[2].0.is_empty());
    assert_eq!(state, State::with_seed(17));
    state.run_line("d6").unwrap();
    assert_ne!(state, State::with_seed(17));
}
