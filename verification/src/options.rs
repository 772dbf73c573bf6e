//! The options of a statement: how many entries to take, and how.

use crate::numeral::{digit_run, digits_value, lemma_digit_run, parse_digits, scan_digits};
use crate::text::{char_is_space, chars_of, is_digit, is_space, is_word};
use vstd::prelude::*;

verus! {

/// How many entries a statement takes.
#[derive(Debug, Clone, Copy, PartialEq, Eq, Structural)]
pub enum Amount {
    All,
    N(u32),
}

/// Whether the entries of a statement are read as expressions.
#[derive(Debug, Clone, Copy, PartialEq, Eq, Structural)]
pub enum EvalExpr {
    /// They are, if the statement has exactly one entry.
    Auto,
    /// They are, or are not, whatever their number.
    Custom(bool),
}

/// The options of a statement.
#[derive(Debug, Clone, Copy, PartialEq, Eq, Structural)]
pub struct ChooseOptions {
    /// An entry can be taken more than once.
    pub repeating: bool,
    /// What is taken comes out in the order in which it was put in.
    pub keep_order: bool,
    pub amount: Amount,
    pub eval_expr: EvalExpr,
    /// What the statement gives goes back among the entries, not out.
    pub push: bool,
}

/// Which of the five flags a text holds.
#[derive(Debug, Clone, Copy, PartialEq, Eq, Structural)]
pub struct FlagSet {
    /// `r`
    pub repeating: bool,
    /// `o`
    pub keep_order: bool,
    /// `e`
    pub eval: bool,
    /// `E`
    pub no_eval: bool,
    /// `p`
    pub push: bool,
}

/// Why a text holds no options.
#[derive(Debug, Clone, Copy, PartialEq, Eq, Structural)]
pub enum OptionsError {
    /// The text is not an amount followed by flags.
    BadOptions,
    /// The amount does not fit in 32 bits.
    BadAmount,
    /// A flag stands more than once; the flags that the text holds.
    DuplicateFlags(FlagSet),
    /// Both `e` and `E` are there.
    IncompatibleFlags,
}

impl ChooseOptions {
    /// One entry, taken at random, read as an expression if it is alone.
    pub open spec fn standard() -> ChooseOptions {
        ChooseOptions {
            repeating: false,
            keep_order: false,
            amount: Amount::N(1),
            eval_expr: EvalExpr::Auto,
            push: false,
        }
    }

    /// All entries in random order, as text.
    pub open spec fn shuffle_preset() -> ChooseOptions {
        ChooseOptions {
            amount: Amount::All,
            eval_expr: EvalExpr::Custom(false),
            ..ChooseOptions::standard()
        }
    }

    /// All entries in their own order, as text.
    pub open spec fn list_preset() -> ChooseOptions {
        ChooseOptions {
            amount: Amount::All,
            eval_expr: EvalExpr::Custom(false),
            keep_order: true,
            ..ChooseOptions::standard()
        }
    }

    /// All entries in their own order, as expressions.
    pub open spec fn eval_preset() -> ChooseOptions {
        ChooseOptions {
            amount: Amount::All,
            eval_expr: EvalExpr::Custom(true),
            keep_order: true,
            ..ChooseOptions::standard()
        }
    }

    /// The options that the word `shuffle` stands for.
    pub fn shuffle() -> (r: Self)
        ensures
            r == ChooseOptions::shuffle_preset(),
    {
        ChooseOptions {
            repeating: false,
            keep_order: false,
            amount: Amount::All,
            eval_expr: EvalExpr::Custom(false),
            push: false,
        }
    }

    /// The options that the word `list` stands for.
    pub fn list() -> (r: Self)
        ensures
            r == ChooseOptions::list_preset(),
    {
        ChooseOptions {
            repeating: false,
            keep_order: true,
            amount: Amount::All,
            eval_expr: EvalExpr::Custom(false),
            push: false,
        }
    }

    /// The options that the word `eval` stands for.
    pub fn eval() -> (r: Self)
        ensures
            r == ChooseOptions::eval_preset(),
    {
        ChooseOptions {
            repeating: false,
            keep_order: true,
            amount: Amount::All,
            eval_expr: EvalExpr::Custom(true),
            push: false,
        }
    }
}

impl Default for ChooseOptions {
    fn default() -> (r: Self)
        ensures
            r == ChooseOptions::standard(),
    {
        ChooseOptions {
            repeating: false,
            keep_order: false,
            amount: Amount::N(1),
            eval_expr: EvalExpr::Auto,
            push: false,
        }
    }
}

/// One of the five flag letters.
pub open spec fn is_flag(c: char) -> bool {
    c == 'r' || c == 'o' || c == 'e' || c == 'E' || c == 'p'
}

/// From `from` on, `s` holds nothing but flags and white space.
pub open spec fn is_flags(s: Seq<char>, from: int) -> bool {
    forall|i: int| from <= i < s.len() ==> is_flag(#[trigger] s[i]) || is_space(s[i])
}

/// How often `c` stands in `s[lo..hi]`.
pub open spec fn occurrences(s: Seq<char>, c: char, lo: int, hi: int) -> nat
    decreases hi - lo,
{
    if hi <= lo || hi > s.len() {
        0
    } else {
        occurrences(s, c, lo, hi - 1) + if s[hi - 1] == c {
            1nat
        } else {
            0nat
        }
    }
}

/// How often `c` stands in `s` from `from` on.
pub open spec fn flag_count(s: Seq<char>, c: char, from: int) -> nat {
    occurrences(s, c, from, s.len() as int)
}

/// The flags that `s` holds from `from` on.
pub open spec fn flags_of(s: Seq<char>, from: int) -> FlagSet {
    FlagSet {
        repeating: flag_count(s, 'r', from) > 0,
        keep_order: flag_count(s, 'o', from) > 0,
        eval: flag_count(s, 'e', from) > 0,
        no_eval: flag_count(s, 'E', from) > 0,
        push: flag_count(s, 'p', from) > 0,
    }
}

/// A flag stands more than once in `s` from `from` on.
pub open spec fn has_duplicate(s: Seq<char>, from: int) -> bool {
    ||| flag_count(s, 'r', from) > 1
    ||| flag_count(s, 'o', from) > 1
    ||| flag_count(s, 'e', from) > 1
    ||| flag_count(s, 'E', from) > 1
    ||| flag_count(s, 'p', from) > 1
}

/// Where the amount at the start of `s` ends: behind `all`, behind a single
/// `0`, behind a run of digits that starts with another digit; at 0 where
/// `s` starts with none of these.
pub open spec fn amount_end(s: Seq<char>) -> int {
    if "all"@.is_prefix_of(s) {
        "all"@.len() as int
    } else if s.len() > 0 && s[0] == '0' {
        1
    } else {
        digit_run(s, 0)
    }
}

/// The amount written in `s[0..end]`, as a number that may be too large; one
/// entry where nothing is written.
pub open spec fn amount_of(s: Seq<char>, end: int) -> Option<Amount> {
    if end == 0 {
        Some(Amount::N(1))
    } else if is_digit(s[0]) {
        if digits_value(s.subrange(0, end)) <= u32::MAX {
            Some(Amount::N(digits_value(s.subrange(0, end)) as u32))
        } else {
            None
        }
    } else {
        Some(Amount::All)
    }
}

/// The options that the flags `flags` and the amount `amount` make.
pub open spec fn options_of(amount: Amount, flags: FlagSet) -> ChooseOptions {
    ChooseOptions {
        repeating: flags.repeating,
        keep_order: flags.keep_order,
        amount,
        eval_expr: if flags.eval {
            EvalExpr::Custom(true)
        } else if flags.no_eval {
            EvalExpr::Custom(false)
        } else {
            EvalExpr::Auto
        },
        push: flags.push,
    }
}

/// What reading `s` as options gives.
///
/// The words `shuffle`, `list` and `eval` stand for fixed options. Any other
/// text is an amount, which may be missing, and then flags and white space
/// in any order. A text of another form is refused; then an amount that is
/// too large; then a flag that stands twice; then `e` together with `E`.
pub open spec fn parse_options(s: Seq<char>) -> Result<ChooseOptions, OptionsError> {
    let end = amount_end(s);
    if s == "shuffle"@ {
        Ok(ChooseOptions::shuffle_preset())
    } else if s == "list"@ {
        Ok(ChooseOptions::list_preset())
    } else if s == "eval"@ {
        Ok(ChooseOptions::eval_preset())
    } else if !is_flags(s, end) {
        Err(OptionsError::BadOptions)
    } else if amount_of(s, end) is None {
        Err(OptionsError::BadAmount)
    } else if has_duplicate(s, end) {
        Err(OptionsError::DuplicateFlags(flags_of(s, end)))
    } else if flags_of(s, end).eval && flags_of(s, end).no_eval {
        Err(OptionsError::IncompatibleFlags)
    } else {
        Ok(options_of(amount_of(s, end)->Some_0, flags_of(s, end)))
    }
}

fn scan_amount(v: &Vec<char>) -> (end: usize)
    ensures
        end == amount_end(v@),
        end <= v.len(),
        end > 0 && is_digit(v@[0]) ==> crate::numeral::all_digits(v@.subrange(0, end as int)),
{
    proof {
        reveal_strlit("all");
        lemma_digit_run(v@, 0);
    }
    if v.len() >= 3 && v[0] == 'a' && v[1] == 'l' && v[2] == 'l' {
        3
    } else if v.len() > 0 && v[0] == '0' {
        1
    } else {
        assert(!"all"@.is_prefix_of(v@)) by {
            if "all"@.is_prefix_of(v@) {
                assert(v@.subrange(0, 3)[0] == 'a');
                assert(v@.subrange(0, 3)[1] == 'l');
                assert(v@.subrange(0, 3)[2] == 'l');
            }
        }
        scan_digits(v, 0)
    }
}

/// The flags of `v` from `from` on, each with the number of times it
/// stands there; `None` where something else than a flag or white space
/// stands there.
fn scan_flags(v: &Vec<char>, from: usize) -> (r: Option<(FlagSet, bool)>)
    requires
        from <= v.len(),
    ensures
        match r {
            Some((flags, twice)) => is_flags(v@, from as int) && flags == flags_of(
                v@,
                from as int,
            ) && twice == has_duplicate(v@, from as int),
            None => !is_flags(v@, from as int),
        },
{
    let mut r: usize = 0;
    let mut o: usize = 0;
    let mut e: usize = 0;
    let mut big_e: usize = 0;
    let mut p: usize = 0;
    let mut i: usize = from;
    while i < v.len()
        invariant
            from <= i <= v.len(),
            forall|k: int| from <= k < i ==> is_flag(#[trigger] v@[k]) || is_space(v@[k]),
            r == occurrences(v@, 'r', from as int, i as int),
            o == occurrences(v@, 'o', from as int, i as int),
            e == occurrences(v@, 'e', from as int, i as int),
            big_e == occurrences(v@, 'E', from as int, i as int),
            p == occurrences(v@, 'p', from as int, i as int),
            r <= i - from,
            o <= i - from,
            e <= i - from,
            big_e <= i - from,
            p <= i - from,
        decreases v.len() - i,
    {
        let c = v[i];
        if c == 'r' {
            r += 1;
        } else if c == 'o' {
            o += 1;
        } else if c == 'e' {
            e += 1;
        } else if c == 'E' {
            big_e += 1;
        } else if c == 'p' {
            p += 1;
        } else if !char_is_space(c) {
            return None;
        }
        i += 1;
    }
    Some(
        (
            FlagSet {
                repeating: r > 0,
                keep_order: o > 0,
                eval: e > 0,
                no_eval: big_e > 0,
                push: p > 0,
            },
            r > 1 || o > 1 || e > 1 || big_e > 1 || p > 1,
        ),
    )
}

impl ChooseOptions {
    /// Reads options from the characters of their text.
    pub fn from_chars(v: &Vec<char>) -> (r: Result<ChooseOptions, OptionsError>)
        ensures
            r == parse_options(v@),
    {
        if is_word(v, "shuffle") {
            return Ok(ChooseOptions::shuffle());
        }
        if is_word(v, "list") {
            return Ok(ChooseOptions::list());
        }
        if is_word(v, "eval") {
            return Ok(ChooseOptions::eval());
        }
        let end = scan_amount(v);
        let (flags, twice) = match scan_flags(v, end) {
            None => {
                return Err(OptionsError::BadOptions);
            },
            Some(found) => found,
        };
        let amount = if end == 0 {
            Amount::N(1)
        } else if crate::text::char_is_digit(v[0]) {
            match parse_digits(v, 0, end, 4294967295) {
                None => {
                    return Err(OptionsError::BadAmount);
                },
                Some(n) => Amount::N(n as u32),
            }
        } else {
            Amount::All
        };
        if twice {
            return Err(OptionsError::DuplicateFlags(flags));
        }
        if flags.eval && flags.no_eval {
            return Err(OptionsError::IncompatibleFlags);
        }
        let eval_expr = if flags.eval {
            EvalExpr::Custom(true)
        } else if flags.no_eval {
            EvalExpr::Custom(false)
        } else {
            EvalExpr::Auto
        };
        Ok(
            ChooseOptions {
                repeating: flags.repeating,
                keep_order: flags.keep_order,
                amount,
                eval_expr,
                push: flags.push,
            },
        )
    }

    /// Reads options from their text: the options, or why the text holds none.
    pub fn from_str(s: &str) -> (r: Result<ChooseOptions, OptionsError>)
        ensures
            r == parse_options(s@),
    {
        let v = chars_of(s);
        ChooseOptions::from_chars(&v)
    }
}

/// A text in which a flag stands twice, or in which both `e` and `E` stand,
/// holds no options: reading it fails, whatever else it holds.
pub proof fn lemma_bad_flags_rejected(s: Seq<char>)
    ensures
        has_duplicate(s, amount_end(s)) ==> parse_options(s) is Err,
        flags_of(s, amount_end(s)).eval && flags_of(s, amount_end(s)).no_eval ==> parse_options(
            s,
        ) is Err,
{
    reveal_strlit("shuffle");
    reveal_strlit("list");
    reveal_strlit("eval");
    if s == "shuffle"@ || s == "list"@ || s == "eval"@ {
        reveal_with_fuel(occurrences, 8);
    }
}

} // verus!
