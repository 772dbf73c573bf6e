//! The coin.

use crate::rng::draw_bool;
use vstd::prelude::*;

verus! {

/// A side of the coin.
#[derive(Debug, Clone, Copy, PartialEq, Eq, Structural)]
pub enum CoinResult {
    Heads,
    Tails,
}

/// The side that a draw stands for.
pub open spec fn coin_side(draw: bool) -> CoinResult {
    if draw {
        CoinResult::Heads
    } else {
        CoinResult::Tails
    }
}

/// A side of the coin as it is written.
pub open spec fn coin_text(c: CoinResult) -> Seq<char> {
    match c {
        CoinResult::Heads => seq!['h', 'e', 'a', 'd', 's'],
        CoinResult::Tails => seq!['t', 'a', 'i', 'l', 's'],
    }
}

/// The side that a draw stands for: heads for `true`.
pub fn coin_of(draw: bool) -> (c: CoinResult)
    ensures
        c == coin_side(draw),
{
    if draw {
        CoinResult::Heads
    } else {
        CoinResult::Tails
    }
}

/// Tosses the coin: one draw of a boolean, and the side it stands for.
pub fn toss_coin(rng: &mut rand_pcg::Pcg64) -> (c: CoinResult) {
    coin_of(draw_bool(rng))
}

impl CoinResult {
    /// Appends the side as it is written.
    pub fn push_text(&self, out: &mut Vec<char>)
        ensures
            final(out)@ == old(out)@ + coin_text(*self),
    {
        match self {
            CoinResult::Heads => {
                out.push('h');
                out.push('e');
                out.push('a');
                out.push('d');
                out.push('s');
            },
            CoinResult::Tails => {
                out.push('t');
                out.push('a');
                out.push('i');
                out.push('l');
                out.push('s');
            },
        }
    }
}

} // verus!
