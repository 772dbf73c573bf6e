//! A small interpreter for a line-oriented language of pseudorandom queries:
//! entries to pick from, dice rolls, intervals, coin flips, colours and UUIDs.
//!
//! A line holds statements; a statement holds entries and, behind the
//! options separator, options that say how many entries to take and how.
//! [`State`] runs lines one by one; [`run`] runs a whole program.

pub mod coin;
pub mod color;
pub mod dice;
pub mod entry;
pub mod error;
pub mod interval;
pub mod numeral;
pub mod options;
pub mod parse;
pub mod rng;
pub mod select;
pub mod state;
pub mod text;
pub mod uuid;

pub use coin::{toss_coin, CoinResult};
pub use color::{gen_color, Rgb};
pub use dice::{Die, Roll, RollParseError, RollResult};
pub use entry::{parse_expr, Entry, Expr, Sample, SampleData};
pub use error::{Error, ExprError};
pub use interval::{Interval, IntervalParseError, IntervalResult, Num};
pub use options::{Amount, ChooseOptions, EvalExpr, OptionsError};
pub use parse::{split_line_parts, QueryPart, Separators, SplitPartsError};
pub use select::select;
pub use state::{run, State, StmtOutput};
pub use uuid::{format_uuid, gen_uuid};
