//! What a query can fail with, and how each fault is put in words.

use crate::dice::{RollFault, RollParseError};
use crate::interval::{IntervalFault, IntervalParseError};
use crate::numeral::{nat_digits, push_nat};
use crate::options::{FlagSet, OptionsError};
use crate::parse::{Bracket, SplitPartsError};
use crate::text::{push_str, string_of};
use vstd::prelude::*;

verus! {

/// Why an entry in the notation of an expression describes none.
#[derive(Debug, Clone, Copy, PartialEq, Eq, Structural)]
pub enum ExprError {
    Dice(RollFault),
    Interval(IntervalFault),
}

/// Why a query failed.
#[derive(Debug, Clone, Copy, PartialEq, Eq, Structural)]
pub enum Error {
    /// The options of a statement could not be read.
    Options(OptionsError),
    /// An entry looked like an expression and was none.
    Expr(ExprError),
    /// A line could not be split into its parts.
    SplitError(SplitPartsError),
    /// The system gave no entropy to seed the generator with.
    NoEntropy,
}

/// A fault of a roll in words.
pub open spec fn roll_fault_text(f: RollFault) -> Seq<char> {
    match f {
        RollFault::BadAmount => "bad amount: number too large to fit in target type"@,
        RollFault::ZeroAmount => "amount can't be 0"@,
        RollFault::BadSides => "bad number of sides: number too large to fit in target type"@,
        RollFault::ZeroSides => "number of sides can't be 0"@,
        RollFault::BadSelect => "bad select amount: number too large to fit in target type"@,
        RollFault::ZeroSelect => "select amount can't be 0"@,
        RollFault::BadModifier => "bad modifier: number does not fit in target type"@,
    }
}

/// A failure to read a roll in words.
pub open spec fn roll_error_text(e: RollParseError) -> Seq<char> {
    match e {
        RollParseError::NoMatch => "the input is not a dice roll"@,
        RollParseError::Invalid(f) => "invalid dice roll: "@ + roll_fault_text(f),
    }
}

/// A fault of an interval in words.
pub open spec fn interval_fault_text(f: IntervalFault) -> Seq<char> {
    match f {
        IntervalFault::BadStart => "start: number does not fit"@,
        IntervalFault::BadEnd => "end: number does not fit"@,
        IntervalFault::StartTooBig => "start value is too big"@,
        IntervalFault::EndTooBig => "end value is too big"@,
        IntervalFault::Empty => "the interval is empty"@,
    }
}

/// A failure to read an interval in words.
pub open spec fn interval_error_text(e: IntervalParseError) -> Seq<char> {
    match e {
        IntervalParseError::NoMatch => "the input is not an interval"@,
        IntervalParseError::Invalid(f) => "invalid interval: "@ + interval_fault_text(f),
    }
}

/// The flags of a set, each by its letter, in the order of their codes.
pub open spec fn flags_text(flags: FlagSet) -> Seq<char> {
    (if flags.no_eval {
        seq!['E']
    } else {
        Seq::empty()
    }) + (if flags.eval {
        seq!['e']
    } else {
        Seq::empty()
    }) + (if flags.keep_order {
        seq!['o']
    } else {
        Seq::empty()
    }) + (if flags.push {
        seq!['p']
    } else {
        Seq::empty()
    }) + (if flags.repeating {
        seq!['r']
    } else {
        Seq::empty()
    })
}

/// A failure to read options in words.
pub open spec fn options_error_text(e: OptionsError) -> Seq<char> {
    match e {
        OptionsError::BadOptions => "Bad options"@,
        OptionsError::BadAmount => "Bad amount: number too large to fit in target type"@,
        OptionsError::DuplicateFlags(flags) => "Duplicate flags: "@ + flags_text(flags),
        OptionsError::IncompatibleFlags => "Flags 'e' and 'E' are incompatible"@,
    }
}

/// The name of a kind of bracket.
pub open spec fn bracket_text(b: Bracket) -> Seq<char> {
    match b {
        Bracket::Round => "parenthesis"@,
        Bracket::Square => "square bracket"@,
        Bracket::Curly => "curly brace"@,
    }
}

/// A failure to split a line in words: what is wrong, and the byte at which.
pub open spec fn split_error_text(e: SplitPartsError) -> Seq<char> {
    match e {
        SplitPartsError::UnclosedString { start } => "unclosed string starting at byte "@
            + nat_digits(start as nat),
        SplitPartsError::UnopenedBracket { offset, kind } => "unopened "@ + bracket_text(kind)
            + " closed at byte "@ + nat_digits(offset as nat),
        SplitPartsError::MismatchedBracket { offset, kind } => "mismatched "@ + bracket_text(kind)
            + " at byte "@ + nat_digits(offset as nat),
        SplitPartsError::UnclosedBracket { offset, kind } => "unclosed "@ + bracket_text(kind)
            + " opened at byte "@ + nat_digits(offset as nat),
    }
}

/// A fault of an expression in words.
pub open spec fn expr_error_text(e: ExprError) -> Seq<char> {
    match e {
        ExprError::Dice(f) => roll_error_text(RollParseError::Invalid(f)),
        ExprError::Interval(f) => interval_error_text(IntervalParseError::Invalid(f)),
    }
}

/// A failure of a query in words: where it arose, and what it is.
pub open spec fn error_text(e: Error) -> Seq<char> {
    match e {
        Error::Options(o) => "options: "@ + options_error_text(o),
        Error::Expr(x) => "expression: "@ + expr_error_text(x),
        Error::SplitError(s) => "inline entries: "@ + split_error_text(s),
        Error::NoEntropy => "the system gave no entropy"@,
    }
}

impl RollParseError {
    /// Appends the failure in words.
    pub fn push_text(&self, out: &mut Vec<char>)
        ensures
            final(out)@ == old(out)@ + roll_error_text(*self),
    {
        match self {
            RollParseError::NoMatch => push_str(out, "the input is not a dice roll"),
            RollParseError::Invalid(f) => {
                push_str(out, "invalid dice roll: ");
                push_str(
                    out,
                    match f {
                        RollFault::BadAmount => "bad amount: number too large to fit in target type",
                        RollFault::ZeroAmount => "amount can't be 0",
                        RollFault::BadSides => "bad number of sides: number too large to fit in target type",
                        RollFault::ZeroSides => "number of sides can't be 0",
                        RollFault::BadSelect => "bad select amount: number too large to fit in target type",
                        RollFault::ZeroSelect => "select amount can't be 0",
                        RollFault::BadModifier => "bad modifier: number does not fit in target type",
                    },
                );
            },
        }
    }

    /// The failure in words.
    pub fn message(&self) -> (s: String)
        ensures
            s@ == roll_error_text(*self),
    {
        let mut out: Vec<char> = Vec::new();
        self.push_text(&mut out);
        string_of(&out)
    }
}

impl IntervalParseError {
    /// Appends the failure in words.
    pub fn push_text(&self, out: &mut Vec<char>)
        ensures
            final(out)@ == old(out)@ + interval_error_text(*self),
    {
        match self {
            IntervalParseError::NoMatch => push_str(out, "the input is not an interval"),
            IntervalParseError::Invalid(f) => {
                push_str(out, "invalid interval: ");
                push_str(
                    out,
                    match f {
                        IntervalFault::BadStart => "start: number does not fit",
                        IntervalFault::BadEnd => "end: number does not fit",
                        IntervalFault::StartTooBig => "start value is too big",
                        IntervalFault::EndTooBig => "end value is too big",
                        IntervalFault::Empty => "the interval is empty",
                    },
                );
            },
        }
    }

    /// The failure in words.
    pub fn message(&self) -> (s: String)
        ensures
            s@ == interval_error_text(*self),
    {
        let mut out: Vec<char> = Vec::new();
        self.push_text(&mut out);
        string_of(&out)
    }
}

fn push_flags(out: &mut Vec<char>, flags: FlagSet)
    ensures
        final(out)@ == old(out)@ + flags_text(flags),
{
    if flags.no_eval {
        out.push('E');
    }
    if flags.eval {
        out.push('e');
    }
    if flags.keep_order {
        out.push('o');
    }
    if flags.push {
        out.push('p');
    }
    if flags.repeating {
        out.push('r');
    }
}

impl OptionsError {
    /// Appends the failure in words.
    pub fn push_text(&self, out: &mut Vec<char>)
        ensures
            final(out)@ == old(out)@ + options_error_text(*self),
    {
        match self {
            OptionsError::BadOptions => push_str(out, "Bad options"),
            OptionsError::BadAmount => push_str(
                out,
                "Bad amount: number too large to fit in target type",
            ),
            OptionsError::DuplicateFlags(flags) => {
                push_str(out, "Duplicate flags: ");
                push_flags(out, *flags);
            },
            OptionsError::IncompatibleFlags => push_str(out, "Flags 'e' and 'E' are incompatible"),
        }
    }

    /// The failure in words.
    pub fn message(&self) -> (s: String)
        ensures
            s@ == options_error_text(*self),
    {
        let mut out: Vec<char> = Vec::new();
        self.push_text(&mut out);
        string_of(&out)
    }
}

impl Bracket {
    /// The name of the kind of bracket.
    pub fn name(&self) -> (s: &'static str)
        ensures
            s@ == bracket_text(*self),
    {
        match self {
            Bracket::Round => "parenthesis",
            Bracket::Square => "square bracket",
            Bracket::Curly => "curly brace",
        }
    }
}

impl SplitPartsError {
    /// Appends the failure in words.
    pub fn push_text(&self, out: &mut Vec<char>)
        ensures
            final(out)@ == old(out)@ + split_error_text(*self),
    {
        match self {
            SplitPartsError::UnclosedString { start } => {
                push_str(out, "unclosed string starting at byte ");
                push_nat(out, *start as u64);
            },
            SplitPartsError::UnopenedBracket { offset, kind } => {
                push_str(out, "unopened ");
                push_str(out, kind.name());
                push_str(out, " closed at byte ");
                push_nat(out, *offset as u64);
            },
            SplitPartsError::MismatchedBracket { offset, kind } => {
                push_str(out, "mismatched ");
                push_str(out, kind.name());
                push_str(out, " at byte ");
                push_nat(out, *offset as u64);
            },
            SplitPartsError::UnclosedBracket { offset, kind } => {
                push_str(out, "unclosed ");
                push_str(out, kind.name());
                push_str(out, " opened at byte ");
                push_nat(out, *offset as u64);
            },
        }
    }

    /// The failure in words.
    pub fn message(&self) -> (s: String)
        ensures
            s@ == split_error_text(*self),
    {
        let mut out: Vec<char> = Vec::new();
        self.push_text(&mut out);
        string_of(&out)
    }
}

impl Error {
    /// Appends the failure in words.
    pub fn push_text(&self, out: &mut Vec<char>)
        ensures
            final(out)@ == old(out)@ + error_text(*self),
    {
        match self {
            Error::Options(o) => {
                push_str(out, "options: ");
                o.push_text(out);
            },
            Error::Expr(ExprError::Dice(f)) => {
                push_str(out, "expression: ");
                RollParseError::Invalid(*f).push_text(out);
            },
            Error::Expr(ExprError::Interval(f)) => {
                push_str(out, "expression: ");
                IntervalParseError::Invalid(*f).push_text(out);
            },
            Error::SplitError(s) => {
                push_str(out, "inline entries: ");
                s.push_text(out);
            },
            Error::NoEntropy => push_str(out, "the system gave no entropy"),
        }
    }

    /// The failure in words.
    pub fn message(&self) -> (s: String)
        ensures
            s@ == error_text(*self),
    {
        let mut out: Vec<char> = Vec::new();
        self.push_text(&mut out);
        string_of(&out)
    }
}

} // verus!
