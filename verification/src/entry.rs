//! Entries: text to pick from, or an expression to evaluate; and the
//! samples that evaluating them gives.

use crate::coin::{coin_text, toss_coin, CoinResult};
use crate::color::{color_text, gen_color, Rgb};
use crate::uuid::{gen_uuid, is_uuid_v4, push_uuid, uuid_text};
use crate::dice::{
    is_outcome, parse_roll, rolled_text, rolled_total, Roll, RollParseError, RollResult, Rolled,
};
use crate::error::{Error, ExprError};
use crate::interval::{
    interval_result_text, num_text, parse_interval, Interval, IntervalParseError, IntervalResult,
};
use crate::numeral::{int_digits, push_int};
use crate::text::{chars_of, is_word, string_of};
use vstd::prelude::*;

verus! {

/// An expression: something that gives a new sample each time it is evaluated.
#[derive(Debug, Clone, Copy, PartialEq, Eq, Structural)]
pub enum Expr {
    Coin,
    Color,
    Uuid,
    Dice(Roll),
    Interval(Interval),
}

impl Expr {
    /// The roll or the interval of the expression, if it has one, is valid.
    pub open spec fn wf(&self) -> bool {
        match self {
            Expr::Dice(r) => r.wf(),
            Expr::Interval(i) => i.wf(),
            _ => true,
        }
    }
}

/// What reading `s` as an expression gives: the expression, `None` where
/// `s` is plain text, or the fault of a text that is in the notation of an
/// expression and describes none.
///
/// The words `coin`, `color` and `uuid` come first, then dice notation, then
/// interval notation; a text in dice notation is never read as an interval,
/// nor a faulty one as plain text.
pub open spec fn classify(s: Seq<char>) -> Result<Option<Expr>, ExprError> {
    if s == "coin"@ {
        Ok(Some(Expr::Coin))
    } else if s == "color"@ {
        Ok(Some(Expr::Color))
    } else if s == "uuid"@ {
        Ok(Some(Expr::Uuid))
    } else {
        match parse_roll(s) {
            Ok(r) => Ok(Some(Expr::Dice(r))),
            Err(RollParseError::Invalid(f)) => Err(ExprError::Dice(f)),
            Err(RollParseError::NoMatch) => match parse_interval(s) {
                Ok(i) => Ok(Some(Expr::Interval(i))),
                Err(IntervalParseError::Invalid(f)) => Err(ExprError::Interval(f)),
                Err(IntervalParseError::NoMatch) => Ok(None),
            },
        }
    }
}

/// Reads an expression from the characters of a text.
pub fn parse_expr_chars(v: &Vec<char>) -> (r: Result<Option<Expr>, ExprError>)
    ensures
        r == classify(v@),
        r matches Ok(Some(e)) ==> e.wf(),
{
    if is_word(v, "coin") {
        return Ok(Some(Expr::Coin));
    }
    if is_word(v, "color") {
        return Ok(Some(Expr::Color));
    }
    if is_word(v, "uuid") {
        return Ok(Some(Expr::Uuid));
    }
    match Roll::from_chars(v) {
        Ok(r) => {
            return Ok(Some(Expr::Dice(r)));
        },
        Err(RollParseError::Invalid(f)) => {
            return Err(ExprError::Dice(f));
        },
        Err(RollParseError::NoMatch) => {},
    }
    match Interval::from_chars(v) {
        Ok(i) => Ok(Some(Expr::Interval(i))),
        Err(IntervalParseError::Invalid(f)) => Err(ExprError::Interval(f)),
        Err(IntervalParseError::NoMatch) => Ok(None),
    }
}

/// Reads an expression from a text: see `classify`.
pub fn parse_expr(expr: &str) -> (r: Result<Option<Expr>, ExprError>)
    ensures
        r == classify(expr@),
        r matches Ok(Some(e)) ==> e.wf(),
{
    let v = chars_of(expr);
    parse_expr_chars(&v)
}

/// An entry of a statement.
#[derive(Debug, Clone, PartialEq, Eq)]
pub enum Entry {
    /// Plain text.
    Text(String),
    /// An expression.
    Expr(Expr),
}

/// An entry, with its text as a sequence of characters.
pub enum EntryView {
    Text(Seq<char>),
    Expr(Expr),
}

impl View for Entry {
    type V = EntryView;

    open spec fn view(&self) -> EntryView {
        match self {
            Entry::Text(t) => EntryView::Text(t@),
            Entry::Expr(e) => EntryView::Expr(*e),
        }
    }
}

/// The entry that the text `s` is read as where expressions count.
pub open spec fn entry_of(s: Seq<char>) -> Result<EntryView, Error> {
    match classify(s) {
        Ok(Some(e)) => Ok(EntryView::Expr(e)),
        Ok(None) => Ok(EntryView::Text(s)),
        Err(f) => Err(Error::Expr(f)),
    }
}

impl EntryView {
    /// The expression of the entry, if it is one, is valid.
    pub open spec fn wf(&self) -> bool {
        match self {
            EntryView::Text(_) => true,
            EntryView::Expr(e) => e.wf(),
        }
    }
}

/// What a sample holds.
#[derive(Debug, PartialEq, Eq)]
pub enum SampleData {
    Text(String),
    Coin(CoinResult),
    Dice(RollResult),
    Interval(IntervalResult),
    Color(Rgb),
    Uuid([u8; 16]),
}

/// What a sample holds, in the terms of the contracts.
pub enum SampleView {
    Text(Seq<char>),
    Coin(CoinResult),
    Dice(Rolled),
    Interval(IntervalResult),
    Color(Rgb),
    Uuid(Seq<u8>),
}

impl View for SampleData {
    type V = SampleView;

    open spec fn view(&self) -> SampleView {
        match self {
            SampleData::Text(t) => SampleView::Text(t@),
            SampleData::Coin(c) => SampleView::Coin(*c),
            SampleData::Dice(d) => SampleView::Dice(d@),
            SampleData::Interval(i) => SampleView::Interval(*i),
            SampleData::Color(c) => SampleView::Color(*c),
            SampleData::Uuid(u) => SampleView::Uuid(u@),
        }
    }
}

/// The sample `s` is one that evaluating the entry `e` can give: the text
/// itself for plain text; for an expression a sample of its kind, with the
/// dice of an evaluation of the roll, a number of the interval, the marks
/// of a random UUID.
pub open spec fn sample_of(e: EntryView, s: SampleView) -> bool {
    match e {
        EntryView::Text(t) => s == SampleView::Text(t),
        EntryView::Expr(Expr::Coin) => s is Coin,
        EntryView::Expr(Expr::Color) => s is Color,
        EntryView::Expr(Expr::Uuid) => s matches SampleView::Uuid(b) && is_uuid_v4(b),
        EntryView::Expr(Expr::Dice(r)) => s matches SampleView::Dice(d) && d.roll == r
            && is_outcome(r, d.dice),
        EntryView::Expr(Expr::Interval(i)) => s matches SampleView::Interval(res) && res.interval
            == i && i.wf() && i.holds(res.value),
    }
}

/// A sample as it is written in full: an expression with what it gave.
pub open spec fn full_text(s: SampleView) -> Seq<char> {
    match s {
        SampleView::Text(t) => t,
        SampleView::Coin(c) => coin_text(c),
        SampleView::Dice(d) => rolled_text(d),
        SampleView::Interval(i) => interval_result_text(i),
        SampleView::Color(c) => color_text(c),
        SampleView::Uuid(u) => uuid_text(u),
    }
}

/// A sample as it is written by its value alone: the total of a roll, the
/// number drawn from an interval.
pub open spec fn value_text(s: SampleView) -> Seq<char> {
    match s {
        SampleView::Text(t) => t,
        SampleView::Coin(c) => coin_text(c),
        SampleView::Dice(d) => int_digits(rolled_total(d)),
        SampleView::Interval(i) => num_text(i.value),
        SampleView::Color(c) => color_text(c),
        SampleView::Uuid(u) => uuid_text(u),
    }
}

/// What evaluating an entry gave.
#[derive(Debug, PartialEq, Eq)]
pub struct Sample {
    data: SampleData,
}

impl View for Sample {
    type V = SampleView;

    closed spec fn view(&self) -> SampleView {
        self.data@
    }
}

impl Sample {
    #[verifier::type_invariant]
    spec fn inv(&self) -> bool {
        self.data matches SampleData::Interval(i) ==> i.interval.wf()
    }

    /// A sample of plain text.
    pub fn text(data: String) -> (s: Sample)
        ensures
            s@ == SampleView::Text(data@),
    {
        Sample { data: SampleData::Text(data) }
    }

    /// What the sample holds.
    pub fn data(&self) -> (d: &SampleData)
        ensures
            d@ == self@,
    {
        &self.data
    }

    /// Appends the sample: in full, or by its value alone.
    fn push_rendering(&self, out: &mut Vec<char>, full: bool)
        ensures
            final(out)@ == old(out)@ + if full {
                full_text(self@)
            } else {
                value_text(self@)
            },
    {
        proof {
            use_type_invariant(self);
        }
        match &self.data {
            SampleData::Text(t) => {
                let v = chars_of(t.as_str());
                let mut v = v;
                out.append(&mut v);
            },
            SampleData::Coin(c) => c.push_text(out),
            SampleData::Dice(d) => {
                if full {
                    d.push_text(out);
                } else {
                    push_int(out, d.total());
                }
            },
            SampleData::Interval(i) => {
                if full {
                    i.push_text(out);
                } else {
                    i.value.push_text(out);
                }
            },
            SampleData::Color(c) => c.push_text(out),
            SampleData::Uuid(u) => push_uuid(out, u),
        }
    }

    /// The sample as it is written in full.
    pub fn full(&self) -> (s: String)
        ensures
            s@ == full_text(self@),
    {
        let mut out: Vec<char> = Vec::new();
        self.push_rendering(&mut out, true);
        string_of(&out)
    }

    /// The sample as it is written by its value alone.
    pub fn value(&self) -> (s: String)
        ensures
            s@ == value_text(self@),
    {
        let mut out: Vec<char> = Vec::new();
        self.push_rendering(&mut out, false);
        string_of(&out)
    }

    /// The text that the sample leaves when it goes back among the entries:
    /// its value.
    pub fn into_raw(self) -> (s: String)
        ensures
            s@ == value_text(self@),
    {
        self.value()
    }
}

impl Clone for SampleData {
    fn clone(&self) -> (r: Self)
        ensures
            r@ == self@,
    {
        match self {
            SampleData::Text(t) => SampleData::Text(t.clone()),
            SampleData::Coin(c) => SampleData::Coin(*c),
            SampleData::Dice(d) => SampleData::Dice(d.clone()),
            SampleData::Interval(i) => SampleData::Interval(*i),
            SampleData::Color(c) => SampleData::Color(*c),
            SampleData::Uuid(u) => SampleData::Uuid(*u),
        }
    }
}

impl Clone for Sample {
    fn clone(&self) -> (r: Self)
        ensures
            r@ == self@,
    {
        proof {
            use_type_invariant(self);
        }
        Sample { data: self.data.clone() }
    }
}

impl Entry {
    /// The expression of the entry, if it is one, is valid.
    pub open spec fn wf(&self) -> bool {
        self@.wf()
    }

    /// The entry that a text is read as where expressions count: the
    /// expression that the text writes down, or the text itself.
    pub fn parse(entry: &str) -> (r: Result<Entry, Error>)
        ensures
            match r {
                Ok(e) => entry_of(entry@) == Ok::<EntryView, Error>(e@) && e.wf(),
                Err(f) => entry_of(entry@) == Err::<EntryView, Error>(f),
            },
    {
        match parse_expr(entry) {
            Ok(Some(e)) => Ok(Entry::Expr(e)),
            Ok(None) => Ok(Entry::data(entry)),
            Err(f) => Err(Error::Expr(f)),
        }
    }

    /// The entry that holds a text as it is.
    pub fn data(entry: &str) -> (e: Entry)
        ensures
            e@ == EntryView::Text(entry@),
    {
        Entry::Text(entry.to_owned())
    }

    /// Evaluates the entry: plain text gives itself and draws nothing; an
    /// expression draws what it needs.
    pub fn eval(&self, rng: &mut rand_pcg::Pcg64) -> (s: Sample)
        requires
            self.wf(),
        ensures
            sample_of(self@, s@),
            self@ is Text ==> *final(rng) == *old(rng),
    {
        let data = match self {
            Entry::Text(t) => SampleData::Text(t.clone()),
            Entry::Expr(Expr::Coin) => SampleData::Coin(toss_coin(rng)),
            Entry::Expr(Expr::Color) => SampleData::Color(gen_color(rng)),
            Entry::Expr(Expr::Uuid) => SampleData::Uuid(gen_uuid(rng)),
            Entry::Expr(Expr::Dice(r)) => SampleData::Dice(r.eval(rng)),
            Entry::Expr(Expr::Interval(i)) => SampleData::Interval(i.eval(rng)),
        };
        Sample { data }
    }
}

} // verus!
