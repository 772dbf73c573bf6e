//! Interval notation: a range of whole numbers, or of decimal numbers counted
//! in billionths, how it is written and how it is read.

use crate::numeral::{
    all_digits, char_of_digit, digit_char, digit_run, digits_value, int_digits, lemma_digit_run,
    nat_digits, parse_digits, push_int, push_nat, scan_digits,
};
use crate::rng::{draw_i32, draw_i64};
use crate::text::{
    at, chars_of, is_digit, is_space, lemma_first, lemma_pieces, skip_spaces, string_of,
};
use vstd::prelude::*;

verus! {

/// How many billionths make one: decimal bounds and samples are whole
/// numbers of billionths.
pub const UNIT: i64 = 1_000_000_000;

/// The largest whole part of a decimal bound.
pub const MAX_WHOLE: u64 = 4_000_000_000;

/// What an interval ranges over. Both kinds are kept half open: from
/// `start`, without `end`, whatever the brackets were.
#[allow(inconsistent_fields)]
#[derive(Debug, Clone, Copy, PartialEq, Eq, Structural)]
pub enum IntervalKind {
    /// Whole numbers.
    Int { start: i32, end: i32 },
    /// Decimal numbers, in billionths.
    Real { start: i64, end: i64 },
}

/// An interval as it was written: its two brackets, and what it ranges over.
#[derive(Debug, Clone, Copy, PartialEq, Eq, Structural)]
pub struct Interval {
    pub low_inc: bool,
    pub high_inc: bool,
    pub kind: IntervalKind,
}

/// Why a text in the shape of an interval describes none.
#[derive(Debug, Clone, Copy, PartialEq, Eq, Structural)]
pub enum IntervalFault {
    /// The lower bound cannot be held: a whole number outside 32 bits, or a
    /// decimal number with a whole part above `MAX_WHOLE` or with more than
    /// nine decimals.
    BadStart,
    /// The same of the upper bound.
    BadEnd,
    /// The lower bound is left out and is the largest number there is.
    StartTooBig,
    /// The upper bound is taken in and is the largest number there is.
    EndTooBig,
    /// No number lies in the interval.
    Empty,
}

/// What reading an interval can fail with.
#[derive(Debug, Clone, Copy, PartialEq, Eq, Structural)]
pub enum IntervalParseError {
    /// The text is not in interval notation at all.
    NoMatch,
    /// The text is in interval notation and describes no interval.
    Invalid(IntervalFault),
}

impl Interval {
    /// An interval holds a number, and where its lower bound is left out,
    /// there is a number for that bound to be.
    pub open spec fn wf(&self) -> bool {
        match self.kind {
            IntervalKind::Int { start, end } => start < end && (!self.low_inc ==> start
                > i32::MIN),
            IntervalKind::Real { start, end } => start < end && (!self.low_inc ==> start
                > i64::MIN),
        }
    }
}

/// Ten to the power `k`.
pub open spec fn pow10(k: nat) -> nat
    decreases k,
{
    if k == 0 {
        1
    } else {
        10 * pow10((k - 1) as nat)
    }
}

/// Where a number lies in a text.
pub struct NumberShape {
    /// A minus sign stands before it.
    pub negative: bool,
    /// Its whole part is the digits `s[from..to]`.
    pub from: int,
    pub to: int,
    /// A point stands at `to`, and the decimals are `s[to + 1..end]`.
    pub point: bool,
    pub end: int,
}

/// The whole number at `i`: a sign or none, then digits.
pub open spec fn whole_shape(s: Seq<char>, i: int) -> Option<NumberShape> {
    let negative = at(s, i, '-');
    let from = if negative || at(s, i, '+') {
        i + 1
    } else {
        i
    };
    let to = digit_run(s, from);
    if to > from {
        Some(NumberShape { negative, from, to, point: false, end: to })
    } else {
        None
    }
}

/// The number at `i`: a sign or none, then digits, or digits or none, a
/// point and digits.
pub open spec fn number_shape(s: Seq<char>, i: int) -> Option<NumberShape> {
    let negative = at(s, i, '-');
    let from = if negative || at(s, i, '+') {
        i + 1
    } else {
        i
    };
    let to = digit_run(s, from);
    if at(s, to, '.') && digit_run(s, to + 1) > to + 1 {
        Some(NumberShape { negative, from, to, point: true, end: digit_run(s, to + 1) })
    } else if to > from {
        Some(NumberShape { negative, from, to, point: false, end: to })
    } else {
        None
    }
}

/// The whole number written at `n`, if it fits in 32 bits.
pub open spec fn whole_value(s: Seq<char>, n: NumberShape) -> Option<i32> {
    let v = digits_value(s.subrange(n.from, n.to)) as int;
    let z = if n.negative {
        -v
    } else {
        v
    };
    if i32::MIN <= z <= i32::MAX {
        Some(z as i32)
    } else {
        None
    }
}

/// The number written at `n` in billionths, if its whole part is at most
/// `MAX_WHOLE` and it has at most nine decimals.
pub open spec fn real_value(s: Seq<char>, n: NumberShape) -> Option<i64> {
    let whole = digits_value(s.subrange(n.from, n.to)) as int;
    let decimals = if n.point {
        n.end - n.to - 1
    } else {
        0
    };
    let part = if n.point {
        digits_value(s.subrange(n.to + 1, n.end)) as int
    } else {
        0
    };
    if whole > MAX_WHOLE || decimals > 9 {
        None
    } else {
        let v = whole * UNIT + part * pow10((9 - decimals) as nat);
        Some(
            (if n.negative {
                -v
            } else {
                v
            }) as i64,
        )
    }
}

/// Where the parts of a text in interval notation lie.
pub struct IntervalShape {
    pub low_inc: bool,
    pub high_inc: bool,
    /// The bounds are decimal numbers: a comma parts them, or one has a point.
    pub real: bool,
    pub low: NumberShape,
    pub high: NumberShape,
}

/// The shape of the form without brackets: a whole number, `..` or `..=`, a
/// whole number.
pub open spec fn range_shape(s: Seq<char>) -> Option<IntervalShape> {
    match whole_shape(s, 0) {
        None => None,
        Some(low) => {
            let high_inc = at(s, low.end + 2, '=');
            let next = if high_inc {
                low.end + 3
            } else {
                low.end + 2
            };
            match whole_shape(s, next) {
                None => None,
                Some(high) => if at(s, low.end, '.') && at(s, low.end + 1, '.') && high.end
                    == s.len() {
                    Some(IntervalShape { low_inc: true, high_inc, real: false, low, high })
                } else {
                    None
                },
            }
        },
    }
}

/// The shape of the form with brackets: `[` or `(`, a number, a comma or
/// `..` or `..=`, a number, `]` or `)`, with white space or none around the
/// numbers. A square bracket takes its bound in, a round one leaves it out.
pub open spec fn bracket_shape(s: Seq<char>) -> Option<IntervalShape> {
    let len = s.len() as int;
    let low_inc = at(s, 0, '[');
    match number_shape(s, skip_spaces(s, 1, len)) {
        None => None,
        Some(low) => {
            let i = skip_spaces(s, low.end, len);
            let comma = at(s, i, ',');
            let dots = at(s, i, '.') && at(s, i + 1, '.');
            let j = if comma {
                i + 1
            } else if at(s, i + 2, '=') {
                i + 3
            } else {
                i + 2
            };
            match number_shape(s, skip_spaces(s, j, len)) {
                None => None,
                Some(high) => {
                    let k = skip_spaces(s, high.end, len);
                    let high_inc = at(s, k, ']');
                    if (low_inc || at(s, 0, '(')) && (comma || dots) && (high_inc || at(s, k, ')'))
                        && k + 1 == len {
                        Some(
                            IntervalShape {
                                low_inc,
                                high_inc,
                                real: comma || low.point || high.point,
                                low,
                                high,
                            },
                        )
                    } else {
                        None
                    }
                },
            }
        },
    }
}

/// The interval that a text of the given shape describes. The bounds are
/// judged first, the lower before the upper; then the lower bound is moved up
/// by one where it is left out, and the upper where it is taken in, one
/// billionth for decimal numbers; what is then empty is refused.
pub open spec fn interval_of_shape(s: Seq<char>, sh: IntervalShape) -> Result<
    Interval,
    IntervalFault,
> {
    if sh.real {
        let low = real_value(s, sh.low);
        let high = real_value(s, sh.high);
        if low is None {
            Err(IntervalFault::BadStart)
        } else if high is None {
            Err(IntervalFault::BadEnd)
        } else {
            let start = low->Some_0 + if sh.low_inc {
                0int
            } else {
                1int
            };
            let end = high->Some_0 + if sh.high_inc {
                1int
            } else {
                0int
            };
            if low->Some_0 >= high->Some_0 || start >= end {
                Err(IntervalFault::Empty)
            } else {
                Ok(
                    Interval {
                        low_inc: sh.low_inc,
                        high_inc: sh.high_inc,
                        kind: IntervalKind::Real { start: start as i64, end: end as i64 },
                    },
                )
            }
        }
    } else {
        let low = whole_value(s, sh.low);
        let high = whole_value(s, sh.high);
        if low is None {
            Err(IntervalFault::BadStart)
        } else if high is None {
            Err(IntervalFault::BadEnd)
        } else if !sh.low_inc && low->Some_0 == i32::MAX {
            Err(IntervalFault::StartTooBig)
        } else if sh.high_inc && high->Some_0 == i32::MAX {
            Err(IntervalFault::EndTooBig)
        } else {
            let start = low->Some_0 + if sh.low_inc {
                0int
            } else {
                1int
            };
            let end = high->Some_0 + if sh.high_inc {
                1int
            } else {
                0int
            };
            if start >= end {
                Err(IntervalFault::Empty)
            } else {
                Ok(
                    Interval {
                        low_inc: sh.low_inc,
                        high_inc: sh.high_inc,
                        kind: IntervalKind::Int { start: start as i32, end: end as i32 },
                    },
                )
            }
        }
    }
}

/// What reading `s` as an interval gives: the form without brackets is
/// tried first, then the form with brackets.
pub open spec fn parse_interval(s: Seq<char>) -> Result<Interval, IntervalParseError> {
    let shape = if range_shape(s) is Some {
        range_shape(s)
    } else {
        bracket_shape(s)
    };
    match shape {
        None => Err(IntervalParseError::NoMatch),
        Some(sh) => match interval_of_shape(s, sh) {
            Ok(i) => Ok(i),
            Err(f) => Err(IntervalParseError::Invalid(f)),
        },
    }
}

/// The powers of ten up to the ninth.
pub proof fn lemma_pow10_table()
    ensures
        pow10(0) == 1,
        pow10(1) == 10,
        pow10(2) == 100,
        pow10(3) == 1_000,
        pow10(4) == 10_000,
        pow10(5) == 100_000,
        pow10(6) == 1_000_000,
        pow10(7) == 10_000_000,
        pow10(8) == 100_000_000,
        pow10(9) == 1_000_000_000,
{
    reveal_with_fuel(pow10, 11);
}

/// A run of `n` digits writes a number below the `n`th power of ten.
pub proof fn lemma_digits_value_bound(s: Seq<char>)
    requires
        all_digits(s),
    ensures
        digits_value(s) < pow10(s.len()),
    decreases s.len(),
{
    if s.len() > 0 {
        let t = s.drop_last();
        lemma_digits_value_bound(t);
    }
}

/// Where a number lies in a text, as the scanner found it.
struct Number {
    negative: bool,
    from: usize,
    to: usize,
    point: bool,
    end: usize,
}

impl Number {
    spec fn view(&self) -> NumberShape {
        NumberShape {
            negative: self.negative,
            from: self.from as int,
            to: self.to as int,
            point: self.point,
            end: self.end as int,
        }
    }

    spec fn within(&self, s: Seq<char>) -> bool {
        &&& self.from <= self.to <= self.end <= s.len()
        &&& all_digits(s.subrange(self.from as int, self.to as int))
        &&& self.point ==> self.to < self.end && all_digits(
            s.subrange(self.to + 1, self.end as int),
        )
        &&& !self.point ==> self.to == self.end
    }
}

fn scan_whole(v: &Vec<char>, i: usize) -> (r: Option<Number>)
    ensures
        match r {
            Some(n) => whole_shape(v@, i as int) == Some(n@) && n.within(v@) && i <= n.from,
            None => whole_shape(v@, i as int) is None,
        },
{
    if i >= v.len() {
        return None;
    }
    let negative = v[i] == '-';
    let from = if negative || v[i] == '+' {
        i + 1
    } else {
        i
    };
    let to = scan_digits(v, from);
    proof {
        lemma_digit_run(v@, from as int);
    }
    if to > from {
        Some(Number { negative, from, to, point: false, end: to })
    } else {
        None
    }
}

fn scan_number(v: &Vec<char>, i: usize) -> (r: Option<Number>)
    ensures
        match r {
            Some(n) => number_shape(v@, i as int) == Some(n@) && n.within(v@) && i <= n.from,
            None => number_shape(v@, i as int) is None,
        },
{
    if i >= v.len() {
        return None;
    }
    let negative = v[i] == '-';
    let from = if negative || v[i] == '+' {
        i + 1
    } else {
        i
    };
    let to = scan_digits(v, from);
    proof {
        lemma_digit_run(v@, from as int);
    }
    if to < v.len() && v[to] == '.' {
        let end = scan_digits(v, to + 1);
        proof {
            lemma_digit_run(v@, to + 1);
        }
        if end > to + 1 {
            return Some(Number { negative, from, to, point: true, end });
        }
    }
    if to > from {
        Some(Number { negative, from, to, point: false, end: to })
    } else {
        None
    }
}

fn whole_of(v: &Vec<char>, n: &Number) -> (r: Option<i32>)
    requires
        n.within(v@),
    ensures
        r == whole_value(v@, n@),
{
    match parse_digits(v, n.from, n.to, 2147483648) {
        None => None,
        Some(m) => {
            if n.negative {
                Some((-(m as i64)) as i32)
            } else if m <= 2147483647 {
                Some(m as i32)
            } else {
                None
            }
        },
    }
}

fn pow10_of(k: usize) -> (r: u64)
    requires
        k <= 9,
    ensures
        r == pow10(k as nat),
        r <= 1_000_000_000,
{
    proof {
        lemma_pow10_table();
    }
    let mut r: u64 = 1;
    let mut i: usize = 0;
    while i < k
        invariant
            i <= k <= 9,
            r == pow10(i as nat),
            r <= pow10(9),
            pow10(9) == 1_000_000_000,
        decreases k - i,
    {
        proof {
            lemma_pow10_table();
        }
        r = r * 10;
        i += 1;
    }
    r
}

fn real_of(v: &Vec<char>, n: &Number) -> (r: Option<i64>)
    requires
        n.within(v@),
    ensures
        r == real_value(v@, n@),
        r matches Some(x) ==> -5_000_000_000_000_000_000 <= x <= 5_000_000_000_000_000_000,
{
    let whole = match parse_digits(v, n.from, n.to, MAX_WHOLE) {
        None => {
            return None;
        },
        Some(w) => w,
    };
    let decimals: usize = if n.point {
        n.end - n.to - 1
    } else {
        0
    };
    if decimals > 9 {
        return None;
    }
    let part: u64 = if n.point {
        proof {
            lemma_digits_value_bound(v@.subrange(n.to + 1, n.end as int));
            lemma_pow10_table();
        }
        match parse_digits(v, n.to + 1, n.end, 999_999_999) {
            None => 0,
            Some(p) => p,
        }
    } else {
        0
    };
    let scale = pow10_of(9 - decimals);
    assert(part * scale <= 999_999_999 * 1_000_000_000) by (nonlinear_arith)
        requires
            part <= 999_999_999,
            scale <= 1_000_000_000,
    ;
    let x: i64 = (whole * 1_000_000_000 + part * scale) as i64;
    if n.negative {
        Some(-x)
    } else {
        Some(x)
    }
}

/// Where the parts of a text in interval notation lie, as the scanner found them.
struct Shape {
    low_inc: bool,
    high_inc: bool,
    real: bool,
    low: Number,
    high: Number,
}

impl Shape {
    spec fn view(&self) -> IntervalShape {
        IntervalShape {
            low_inc: self.low_inc,
            high_inc: self.high_inc,
            real: self.real,
            low: self.low@,
            high: self.high@,
        }
    }
}

fn scan_range(v: &Vec<char>) -> (r: Option<Shape>)
    ensures
        match r {
            Some(sh) => range_shape(v@) == Some(sh@) && sh.low.within(v@) && sh.high.within(v@),
            None => range_shape(v@) is None,
        },
{
    let n = v.len();
    let low = match scan_whole(v, 0) {
        None => {
            return None;
        },
        Some(low) => low,
    };
    if !(n - low.end > 1 && v[low.end] == '.' && v[low.end + 1] == '.') {
        return None;
    }
    let high_inc = n - low.end > 2 && v[low.end + 2] == '=';
    let next = if high_inc {
        low.end + 3
    } else {
        low.end + 2
    };
    let high = match scan_whole(v, next) {
        None => {
            return None;
        },
        Some(high) => high,
    };
    if high.end != n {
        return None;
    }
    Some(Shape { low_inc: true, high_inc, real: false, low, high })
}

/// The first index from `from` on that holds no white space.
fn skip(v: &Vec<char>, from: usize) -> (r: usize)
    requires
        from <= v.len(),
    ensures
        r == skip_spaces(v@, from as int, v@.len() as int),
        from <= r <= v.len(),
{
    let mut a: usize = from;
    while a < v.len() && crate::text::char_is_space(v[a])
        invariant
            from <= a <= v.len(),
            skip_spaces(v@, from as int, v@.len() as int) == skip_spaces(
                v@,
                a as int,
                v@.len() as int,
            ),
        decreases v.len() - a,
    {
        a += 1;
    }
    a
}

fn scan_bracket(v: &Vec<char>) -> (r: Option<Shape>)
    ensures
        match r {
            Some(sh) => bracket_shape(v@) == Some(sh@) && sh.low.within(v@) && sh.high.within(
                v@,
            ),
            None => bracket_shape(v@) is None,
        },
{
    let n = v.len();
    if n == 0 {
        return None;
    }
    let low_inc = v[0] == '[';
    let low = match scan_number(v, skip(v, 1)) {
        None => {
            return None;
        },
        Some(low) => low,
    };
    let i = skip(v, low.end);
    let comma = i < n && v[i] == ',';
    let dots = n - i > 1 && v[i] == '.' && v[i + 1] == '.';
    if !(comma || dots) {
        return None;
    }
    let j = if comma {
        i + 1
    } else if n - i > 2 && v[i + 2] == '=' {
        i + 3
    } else {
        i + 2
    };
    let high = match scan_number(v, skip(v, j)) {
        None => {
            return None;
        },
        Some(high) => high,
    };
    let k = skip(v, high.end);
    let high_inc = k < n && v[k] == ']';
    if (low_inc || v[0] == '(') && (comma || dots) && (high_inc || (k < n && v[k] == ')')) && k + 1
        == n {
        Some(Shape { low_inc, high_inc, real: comma || low.point || high.point, low, high })
    } else {
        None
    }
}

fn interval_of(v: &Vec<char>, sh: &Shape) -> (r: Result<Interval, IntervalFault>)
    requires
        sh.low.within(v@),
        sh.high.within(v@),
    ensures
        r == interval_of_shape(v@, sh@),
        r matches Ok(i) ==> i.wf(),
{
    if sh.real {
        let low = match real_of(v, &sh.low) {
            None => {
                return Err(IntervalFault::BadStart);
            },
            Some(x) => x,
        };
        let high = match real_of(v, &sh.high) {
            None => {
                return Err(IntervalFault::BadEnd);
            },
            Some(x) => x,
        };
        let start = if sh.low_inc {
            low
        } else {
            low + 1
        };
        let end = if sh.high_inc {
            high + 1
        } else {
            high
        };
        if low >= high || start >= end {
            return Err(IntervalFault::Empty);
        }
        Ok(
            Interval {
                low_inc: sh.low_inc,
                high_inc: sh.high_inc,
                kind: IntervalKind::Real { start, end },
            },
        )
    } else {
        let low = match whole_of(v, &sh.low) {
            None => {
                return Err(IntervalFault::BadStart);
            },
            Some(x) => x,
        };
        let high = match whole_of(v, &sh.high) {
            None => {
                return Err(IntervalFault::BadEnd);
            },
            Some(x) => x,
        };
        if !sh.low_inc && low == i32::MAX {
            return Err(IntervalFault::StartTooBig);
        }
        if sh.high_inc && high == i32::MAX {
            return Err(IntervalFault::EndTooBig);
        }
        let start = if sh.low_inc {
            low
        } else {
            low + 1
        };
        let end = if sh.high_inc {
            high + 1
        } else {
            high
        };
        if start >= end {
            return Err(IntervalFault::Empty);
        }
        Ok(
            Interval {
                low_inc: sh.low_inc,
                high_inc: sh.high_inc,
                kind: IntervalKind::Int { start, end },
            },
        )
    }
}

impl Interval {
    /// Reads an interval from the characters of its notation.
    pub fn from_chars(v: &Vec<char>) -> (r: Result<Interval, IntervalParseError>)
        ensures
            r == parse_interval(v@),
            r matches Ok(i) ==> i.wf(),
    {
        let shape = match scan_range(v) {
            Some(sh) => Some(sh),
            None => scan_bracket(v),
        };
        match shape {
            None => Err(IntervalParseError::NoMatch),
            Some(sh) => match interval_of(v, &sh) {
                Ok(i) => Ok(i),
                Err(f) => Err(IntervalParseError::Invalid(f)),
            },
        }
    }

    /// Reads an interval from its notation: `Err(NoMatch)` where the text is
    /// not in interval notation, `Err(Invalid(..))` with the first fault
    /// where it is and describes no interval.
    pub fn from_str(s: &str) -> (r: Result<Interval, IntervalParseError>)
        ensures
            r == parse_interval(s@),
            r matches Ok(i) ==> i.wf(),
    {
        let v = chars_of(s);
        Interval::from_chars(&v)
    }
}

/// A number drawn from an interval.
#[derive(Debug, Clone, Copy, PartialEq, Eq, Structural)]
pub enum Num {
    /// A whole number.
    Int(i32),
    /// A decimal number, in billionths.
    Real(i64),
}

/// An interval with a number drawn from it.
#[derive(Debug, Clone, Copy, PartialEq, Eq, Structural)]
pub struct IntervalResult {
    pub interval: Interval,
    pub value: Num,
}

impl Interval {
    /// The number `v` is of the kind of the interval and lies in it.
    pub open spec fn holds(&self, v: Num) -> bool {
        match (self.kind, v) {
            (IntervalKind::Int { start, end }, Num::Int(x)) => start <= x < end,
            (IntervalKind::Real { start, end }, Num::Real(x)) => start <= x < end,
            _ => false,
        }
    }

    /// The lower bound as it was written: in billionths for decimal numbers.
    pub open spec fn low(&self) -> int {
        let start = match self.kind {
            IntervalKind::Int { start, end } => start as int,
            IntervalKind::Real { start, end } => start as int,
        };
        if self.low_inc {
            start
        } else {
            start - 1
        }
    }

    /// The upper bound as it was written: in billionths for decimal numbers.
    pub open spec fn high(&self) -> int {
        let end = match self.kind {
            IntervalKind::Int { start, end } => end as int,
            IntervalKind::Real { start, end } => end as int,
        };
        if self.high_inc {
            end - 1
        } else {
            end
        }
    }
}

/// The low `width` digits of `n`, with zeros in front where `n` has fewer.
pub open spec fn padded(n: nat, width: nat) -> Seq<char>
    decreases width,
{
    if width == 0 {
        Seq::empty()
    } else {
        padded(n / 10, (width - 1) as nat).push(digit_char((n % 10) as int))
    }
}

/// The number `n / 10^scale` in decimal form, without zeros at the end of
/// its decimals, and without a point where no decimal is left.
pub open spec fn decimal_digits(n: nat, scale: nat) -> Seq<char>
    decreases scale,
{
    if scale == 0 {
        nat_digits(n)
    } else if n % 10 == 0 {
        decimal_digits(n / 10, (scale - 1) as nat)
    } else {
        nat_digits(n / pow10(scale)) + seq!['.'] + padded(n % pow10(scale), scale)
    }
}

/// A number of billionths in decimal form.
pub open spec fn real_text(x: int) -> Seq<char> {
    if x < 0 {
        seq!['-'] + decimal_digits((-x) as nat, 9)
    } else {
        decimal_digits(x as nat, 9)
    }
}

/// A drawn number as it is written.
pub open spec fn num_text(v: Num) -> Seq<char> {
    match v {
        Num::Int(x) => int_digits(x as int),
        Num::Real(x) => real_text(x as int),
    }
}

/// An interval in the notation with brackets: whole numbers two dots
/// apart, decimal numbers a comma and a blank apart.
pub open spec fn interval_text(i: Interval) -> Seq<char> {
    seq![
        if i.low_inc {
            '['
        } else {
            '('
        },
    ] + (match i.kind {
        IntervalKind::Int { .. } => int_digits(i.low()) + seq!['.', '.'] + int_digits(i.high()),
        IntervalKind::Real { .. } => real_text(i.low()) + seq![',', ' '] + real_text(i.high()),
    }) + seq![
        if i.high_inc {
            ']'
        } else {
            ')'
        },
    ]
}

/// An interval and the number drawn from it, a colon and a blank between.
pub open spec fn interval_result_text(r: IntervalResult) -> Seq<char> {
    interval_text(r.interval) + seq![':', ' '] + num_text(r.value)
}

fn push_padded(out: &mut Vec<char>, n: u64, width: usize)
    ensures
        final(out)@ == old(out)@ + padded(n as nat, width as nat),
    decreases width,
{
    if width > 0 {
        push_padded(out, n / 10, width - 1);
        out.push(char_of_digit((n % 10) as u8));
    }
}

/// Appends a number of billionths in decimal form.
pub fn push_real(out: &mut Vec<char>, x: i64)
    ensures
        final(out)@ == old(out)@ + real_text(x as int),
{
    let mag: u64 = if x == i64::MIN {
        9223372036854775808u64
    } else if x < 0 {
        (-x) as u64
    } else {
        x as u64
    };
    if x < 0 {
        out.push('-');
    }
    let mut n: u64 = mag;
    let mut scale: usize = 9;
    while scale > 0 && n % 10 == 0
        invariant
            scale <= 9,
            decimal_digits(mag as nat, 9) == decimal_digits(n as nat, scale as nat),
        decreases scale,
    {
        n = n / 10;
        scale -= 1;
    }
    if scale == 0 {
        push_nat(out, n);
    } else {
        let unit = pow10_of(scale);
        proof {
            lemma_pow10_table();
        }
        push_nat(out, n / unit);
        out.push('.');
        push_padded(out, n % unit, scale);
    }
}

impl Num {
    /// Appends the number as it is written.
    pub fn push_text(&self, out: &mut Vec<char>)
        ensures
            final(out)@ == old(out)@ + num_text(*self),
    {
        match self {
            Num::Int(x) => push_int(out, *x as i64),
            Num::Real(x) => push_real(out, *x),
        }
    }

    /// The number as it is written.
    pub fn render(&self) -> (s: String)
        ensures
            s@ == num_text(*self),
    {
        let mut out: Vec<char> = Vec::new();
        self.push_text(&mut out);
        string_of(&out)
    }
}

impl Interval {
    /// Whether the interval is one that can be drawn from.
    pub fn is_valid(&self) -> (r: bool)
        ensures
            r == self.wf(),
    {
        match self.kind {
            IntervalKind::Int { start, end } => start < end && (self.low_inc || start > i32::MIN),
            IntervalKind::Real { start, end } => start < end && (self.low_inc || start
                > i64::MIN),
        }
    }

    /// Appends the interval in the notation with brackets.
    pub fn push_text(&self, out: &mut Vec<char>)
        requires
            self.wf(),
        ensures
            final(out)@ == old(out)@ + interval_text(*self),
    {
        out.push(
            if self.low_inc {
                '['
            } else {
                '('
            },
        );
        match self.kind {
            IntervalKind::Int { start, end } => {
                push_int(
                    out,
                    if self.low_inc {
                        start as i64
                    } else {
                        start as i64 - 1
                    },
                );
                out.push('.');
                out.push('.');
                push_int(
                    out,
                    if self.high_inc {
                        end as i64 - 1
                    } else {
                        end as i64
                    },
                );
            },
            IntervalKind::Real { start, end } => {
                push_real(
                    out,
                    if self.low_inc {
                        start
                    } else {
                        start - 1
                    },
                );
                out.push(',');
                out.push(' ');
                push_real(
                    out,
                    if self.high_inc {
                        end - 1
                    } else {
                        end
                    },
                );
            },
        }
        out.push(
            if self.high_inc {
                ']'
            } else {
                ')'
            },
        );
    }

    /// The interval in the notation with brackets.
    pub fn render(&self) -> (s: String)
        requires
            self.wf(),
        ensures
            s@ == interval_text(*self),
    {
        let mut out: Vec<char> = Vec::new();
        self.push_text(&mut out);
        string_of(&out)
    }

    /// Draws a number from the interval: one draw from `start..end`.
    pub fn eval(&self, rng: &mut rand_pcg::Pcg64) -> (res: IntervalResult)
        requires
            self.wf(),
        ensures
            res.interval == *self,
            self.holds(res.value),
    {
        let value = match self.kind {
            IntervalKind::Int { start, end } => Num::Int(draw_i32(rng, start, end)),
            IntervalKind::Real { start, end } => Num::Real(draw_i64(rng, start, end)),
        };
        IntervalResult { interval: *self, value }
    }
}

impl IntervalResult {
    /// Appends the interval and the number drawn from it.
    pub fn push_text(&self, out: &mut Vec<char>)
        requires
            self.interval.wf(),
        ensures
            final(out)@ == old(out)@ + interval_result_text(*self),
    {
        self.interval.push_text(out);
        out.push(':');
        out.push(' ');
        self.value.push_text(out);
    }
}

/// A whole number written in `t[i..j]`, with no digit behind it and no
/// decimals, is read as that number, by both ways of reading a number.
proof fn lemma_whole_in_place(t: Seq<char>, i: int, j: int, z: int)
    requires
        0 <= i <= j <= t.len(),
        t.subrange(i, j) == int_digits(z),
        i32::MIN <= z <= i32::MAX,
        j < t.len() ==> !is_digit(t[j]),
        j + 1 < t.len() && t[j] == '.' ==> !is_digit(t[j + 1]),
    ensures
        i < j,
        !is_space(t[i]),
        t[i] != '=',
        whole_shape(t, i) is Some,
        whole_shape(t, i) == number_shape(t, i),
        whole_shape(t, i)->Some_0.end == j,
        !whole_shape(t, i)->Some_0.point,
        whole_value(t, whole_shape(t, i)->Some_0) == Some(z as i32),
{
    let magnitude = if z < 0 {
        (-z) as nat
    } else {
        z as nat
    };
    let from = if z < 0 {
        i + 1
    } else {
        i
    };
    crate::numeral::lemma_nat_digits(magnitude);
    lemma_first(t, i, j, int_digits(z));
    assert(t.subrange(from, j) =~= nat_digits(magnitude)) by {
        assert forall|k: int| 0 <= k < j - from implies t.subrange(from, j)[k] == nat_digits(
            magnitude,
        )[k] by {
            assert(t.subrange(i, j)[k + (from - i)] == int_digits(z)[k + (from - i)]);
        }
    }
    crate::numeral::lemma_digit_run_is(t, from, j);
    lemma_first(t, from, j, nat_digits(magnitude));
    assert(is_digit(t[from]));
    if z < 0 {
        assert(t[i] == '-');
    }
    if j + 1 < t.len() && t[j] == '.' {
        assert(digit_run(t, j + 1) == j + 1);
    }
    if j + 1 == t.len() {
        assert(digit_run(t, j + 1) == j + 1);
    }
}

/// No white space stands at `i`: nothing is skipped there.
proof fn lemma_no_space(t: Seq<char>, i: int)
    requires
        0 <= i <= t.len(),
        i < t.len() ==> !is_space(t[i]),
    ensures
        skip_spaces(t, i, t.len() as int) == i,
{
}

/// The interval of the whole numbers from `low` to `high`, with the given
/// brackets.
pub open spec fn whole_interval(low_inc: bool, low: int, high: int, high_inc: bool) -> Interval {
    Interval {
        low_inc,
        high_inc,
        kind: IntervalKind::Int {
            start: (if low_inc {
                low
            } else {
                low + 1
            }) as i32,
            end: (if high_inc {
                high + 1
            } else {
                high
            }) as i32,
        },
    }
}

/// The brackets, bounds and stops are such that the interval holds a
/// number and all its parts fit in 32 bits.
pub open spec fn whole_bounds(low_inc: bool, low: int, high: int, high_inc: bool) -> bool {
    &&& i32::MIN <= low <= i32::MAX
    &&& i32::MIN <= high <= i32::MAX
    &&& !low_inc ==> low < i32::MAX
    &&& high_inc ==> high < i32::MAX
    &&& (if low_inc {
        low
    } else {
        low + 1
    }) < (if high_inc {
        high + 1
    } else {
        high
    })
}

proof fn lemma_bracket_of_pieces(
    t: Seq<char>,
    low_inc: bool,
    low: int,
    high: int,
    high_inc: bool,
    b: int,
    d: int,
)
    requires
        whole_bounds(low_inc, low, high, high_inc),
        1 <= b,
        b + 2 <= d,
        d + 1 == t.len(),
        t[0] == if low_inc {
            '['
        } else {
            '('
        },
        t.subrange(1, b) == int_digits(low),
        t[b] == '.',
        t[b + 1] == '.',
        t.subrange(b + 2, d) == int_digits(high),
        t[d] == if high_inc {
            ']'
        } else {
            ')'
        },
    ensures
        parse_interval(t) == Ok::<Interval, IntervalParseError>(
            whole_interval(low_inc, low, high, high_inc),
        ),
{
    let len = t.len() as int;
    assert(digit_run(t, 0) == 0);
    assert(whole_shape(t, 0) is None);
    assert(range_shape(t) is None);
    lemma_whole_in_place(t, 1, b, low);
    lemma_whole_in_place(t, b + 2, d, high);
    lemma_no_space(t, 1);
    lemma_no_space(t, b);
    lemma_no_space(t, b + 2);
    lemma_no_space(t, d);
    let lo = number_shape(t, 1)->Some_0;
    let hi = number_shape(t, b + 2)->Some_0;
    let sh = IntervalShape { low_inc, high_inc, real: false, low: lo, high: hi };
    assert(bracket_shape(t) == Some(sh));
    assert(interval_of_shape(t, sh) == Ok::<Interval, IntervalFault>(
        whole_interval(low_inc, low, high, high_inc),
    ));
}

/// The opening bracket of an interval.
spec fn opening_text(i: Interval) -> Seq<char> {
    seq![
        if i.low_inc {
            '['
        } else {
            '('
        },
    ]
}

/// The closing bracket of an interval.
spec fn closing_text(i: Interval) -> Seq<char> {
    seq![
        if i.high_inc {
            ']'
        } else {
            ')'
        },
    ]
}

proof fn lemma_interval_text_pieces(i: Interval)
    requires
        i.kind is Int,
    ensures
        interval_text(i) == opening_text(i) + int_digits(i.low()) + seq!['.', '.'] + int_digits(
            i.high(),
        ) + closing_text(i) + Seq::<char>::empty() + Seq::<char>::empty(),
{
    assert(interval_text(i) =~= opening_text(i) + int_digits(i.low()) + seq!['.', '.']
        + int_digits(i.high()) + closing_text(i) + Seq::<char>::empty() + Seq::<char>::empty());
}

/// Writing an interval of whole numbers and reading the text back gives
/// the interval.
pub proof fn lemma_interval_text_round_trip(i: Interval)
    requires
        i.wf(),
        i.kind is Int,
    ensures
        parse_interval(interval_text(i)) == Ok::<Interval, IntervalParseError>(i),
{
    let t = interval_text(i);
    let low = int_digits(i.low());
    let high = int_digits(i.high());
    let none = Seq::<char>::empty();
    lemma_interval_text_pieces(i);
    lemma_pieces(t, opening_text(i), low, seq!['.', '.'], high, closing_text(i), none, none);
    let b = 1 + low.len() as int;
    let d = b + 2 + high.len() as int;
    lemma_first(t, 0, 1, opening_text(i));
    lemma_first(t, b, b + 2, seq!['.', '.']);
    lemma_first(t, d, d + 1, closing_text(i));
    assert(whole_bounds(i.low_inc, i.low(), i.high(), i.high_inc));
    assert(whole_interval(i.low_inc, i.low(), i.high(), i.high_inc) == i);
    lemma_bracket_of_pieces(t, i.low_inc, i.low(), i.high(), i.high_inc, b, d);
}

/// The form without brackets is read as the interval that takes its lower
/// bound in, and its upper bound where an equals sign stands before it.
pub proof fn lemma_range_text(low: int, high: int, inclusive: bool)
    requires
        whole_bounds(true, low, high, inclusive),
    ensures
        parse_interval(
            int_digits(low) + (if inclusive {
                seq!['.', '.', '=']
            } else {
                seq!['.', '.']
            }) + int_digits(high),
        ) == Ok::<Interval, IntervalParseError>(whole_interval(true, low, high, inclusive)),
{
    let stops = if inclusive {
        seq!['.', '.', '=']
    } else {
        seq!['.', '.']
    };
    let t = int_digits(low) + stops + int_digits(high);
    let none = Seq::<char>::empty();
    assert(t =~= none + int_digits(low) + stops + int_digits(high) + none + none + none);
    lemma_pieces(t, none, int_digits(low), stops, int_digits(high), none, none, none);
    let b = int_digits(low).len() as int;
    let c = b + stops.len();
    let d = c + int_digits(high).len();
    lemma_first(t, b, c, stops);
    assert(t[b] == '.' && t[b + 1] == '.');
    assert(inclusive ==> t.subrange(b, c)[2] == t[b + 2]);
    lemma_whole_in_place(t, 0, b, low);
    lemma_whole_in_place(t, c, d, high);
    assert(at(t, b + 2, '=') == inclusive);
    let lo = whole_shape(t, 0)->Some_0;
    let hi = whole_shape(t, c)->Some_0;
    let sh = IntervalShape { low_inc: true, high_inc: inclusive, real: false, low: lo, high: hi };
    assert(range_shape(t) == Some(sh));
    assert(interval_of_shape(t, sh) == Ok::<Interval, IntervalFault>(
        whole_interval(true, low, high, inclusive),
    ));
}

/// The two ways to write the whole numbers from `low` to `high`, both
/// taken in, are read as the same interval, which holds exactly these
/// numbers; with round brackets the interval holds exactly the numbers
/// between the two.
pub proof fn lemma_interval_forms(low: int, high: int)
    requires
        i32::MIN <= low <= high < i32::MAX,
    ensures
        parse_interval(interval_text(whole_interval(true, low, high, true))) == parse_interval(
            int_digits(low) + seq!['.', '.', '='] + int_digits(high),
        ),
        parse_interval(interval_text(whole_interval(true, low, high, true))) == Ok::<
            Interval,
            IntervalParseError,
        >(whole_interval(true, low, high, true)),
        forall|v: i32|
            whole_interval(true, low, high, true).holds(Num::Int(v)) <==> low <= v <= high,
        low + 1 < high ==> parse_interval(interval_text(whole_interval(false, low, high, false)))
            == Ok::<Interval, IntervalParseError>(whole_interval(false, low, high, false)),
        forall|v: i32|
            whole_interval(false, low, high, false).holds(Num::Int(v)) <==> low < v < high,
{
    lemma_interval_text_round_trip(whole_interval(true, low, high, true));
    lemma_range_text(low, high, true);
    if low + 1 < high {
        lemma_interval_text_round_trip(whole_interval(false, low, high, false));
    }
}

} // verus!
