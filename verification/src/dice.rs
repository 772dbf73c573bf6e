//! Dice notation: what a roll is, how it is written and how it is read.

use crate::numeral::{
    all_digits, digit_run, digits_value, int_digits, lemma_digit_run, nat_digits, parse_digits,
    push_int, push_nat, scan_digits,
};
use crate::rng::{draw_u16, sort_faces};
use crate::text::{at, chars_of, lemma_first, lemma_pieces, string_of};
use vstd::prelude::*;

verus! {

/// What a select clause does with the dice it picks.
#[derive(Debug, Clone, Copy, PartialEq, Eq, Structural)]
pub enum SelectAction {
    Keep,
    Drop,
}

/// Which end of the sorted dice a select clause picks from.
#[derive(Debug, Clone, Copy, PartialEq, Eq, Structural)]
pub enum SelectWhich {
    High,
    Low,
}

/// A select clause: keep or drop the `amount` highest or lowest dice.
#[derive(Debug, Clone, Copy, PartialEq, Eq, Structural)]
pub struct SelectDice {
    pub amount: u16,
    pub action: SelectAction,
    pub which: SelectWhich,
}

/// A description of a dice roll.
#[derive(Debug, Clone, Copy, PartialEq, Eq, Structural)]
pub struct Roll {
    /// Number of dice.
    pub amount: u16,
    /// Number of sides of each die.
    pub sides: u16,
    /// A die that lands on its highest face brings one more die.
    pub exploding: bool,
    pub select: Option<SelectDice>,
    /// What is added to the sum of the dice.
    pub modifier: i32,
}

/// Why a text in the shape of a dice roll describes no roll.
#[derive(Debug, Clone, Copy, PartialEq, Eq, Structural)]
pub enum RollFault {
    /// The number of dice does not fit in 16 bits.
    BadAmount,
    ZeroAmount,
    /// The number of sides does not fit in 16 bits.
    BadSides,
    ZeroSides,
    /// The number of dice to select does not fit in 16 bits.
    BadSelect,
    ZeroSelect,
    /// A modifier, or the sum of all the modifiers, does not fit in 32 bits.
    BadModifier,
}

/// What reading a dice roll can fail with.
#[derive(Debug, Clone, Copy, PartialEq, Eq, Structural)]
pub enum RollParseError {
    /// The text is not in dice notation at all.
    NoMatch,
    /// The text is in dice notation and describes no roll.
    Invalid(RollFault),
}

impl Roll {
    /// A roll has at least one die, of at least one side, and selects at
    /// least one die if it selects any.
    pub open spec fn wf(&self) -> bool {
        &&& self.amount >= 1
        &&& self.sides >= 1
        &&& self.select matches Some(sel) ==> sel.amount >= 1
    }
}

/// From `i` to its end, `s` is a chain of signed numbers; an empty chain counts.
pub open spec fn is_modifiers(s: Seq<char>, i: int) -> bool
    decreases s.len() - i,
{
    if i >= s.len() {
        true
    } else if i >= 0 && (s[i] == '+' || s[i] == '-') && i + 1 < digit_run(s, i + 1) <= s.len() {
        is_modifiers(s, digit_run(s, i + 1))
    } else {
        false
    }
}

/// The chain of signed numbers from `i` on, added to `acc`: the sum, however
/// large, or `None` where one of the numbers is outside the range of `i32`.
pub open spec fn modifier_sum(s: Seq<char>, i: int, acc: int) -> Option<int>
    decreases s.len() - i,
{
    if i >= s.len() || i < 0 {
        Some(acc)
    } else {
        let j = digit_run(s, i + 1);
        if !(i + 1 < j <= s.len()) {
            Some(acc)
        } else {
            let v = digits_value(s.subrange(i + 1, j)) as int;
            let t = if s[i] == '-' {
                -v
            } else {
                v
            };
            if i32::MIN <= t <= i32::MAX {
                modifier_sum(s, j, acc + t)
            } else {
                None
            }
        }
    }
}

/// The net modifier that the chain of signed numbers from `from` on makes:
/// their sum, or `None` where one of them or the sum is outside the range
/// of `i32`. A sum that leaves that range on the way and comes back counts.
pub open spec fn net_modifier(s: Seq<char>, from: int) -> Option<i32> {
    match modifier_sum(s, from, 0) {
        Some(sum) if i32::MIN <= sum <= i32::MAX => Some(sum as i32),
        _ => None,
    }
}

/// Where the parts of a text in dice notation lie.
pub struct RollShape {
    /// The digits of the number of dice are `s[0..amount_end]`; none if 0.
    pub amount_end: int,
    /// The sides are written `%`.
    pub percent: bool,
    /// The sides end here; they start behind the `d`, at `amount_end + 1`.
    pub sides_end: int,
    pub exploding: bool,
    /// The letters of the select clause, if there is one.
    pub select: Option<(SelectAction, SelectWhich)>,
    /// The digits of the number of dice to select: `s[select_from..select_end]`.
    pub select_from: int,
    /// The modifiers start here and run to the end.
    pub select_end: int,
}

/// The lexical shape of dice notation:
/// digits?, `d`, digits or `%`, `!`?, a select clause?, signed numbers.
/// A select clause is `k` or `d`, then `h` or `l` or neither, then digits or none.
pub open spec fn roll_shape(s: Seq<char>) -> Option<RollShape> {
    let a = digit_run(s, 0);
    let p = a + 1;
    let percent = at(s, p, '%');
    let e = if percent {
        p + 1
    } else {
        digit_run(s, p)
    };
    let exploding = at(s, e, '!');
    let y = if exploding {
        e + 1
    } else {
        e
    };
    let keep = at(s, y, 'k');
    let has_select = keep || at(s, y, 'd');
    let has_which = has_select && (at(s, y + 1, 'h') || at(s, y + 1, 'l'));
    let w = if has_which {
        y + 2
    } else if has_select {
        y + 1
    } else {
        y
    };
    let m = if has_select {
        digit_run(s, w)
    } else {
        w
    };
    let which = if keep {
        if at(s, y + 1, 'l') {
            SelectWhich::Low
        } else {
            SelectWhich::High
        }
    } else {
        if at(s, y + 1, 'h') {
            SelectWhich::High
        } else {
            SelectWhich::Low
        }
    };
    let action = if keep {
        SelectAction::Keep
    } else {
        SelectAction::Drop
    };
    if at(s, a, 'd') && e > p && is_modifiers(s, m) {
        Some(
            RollShape {
                amount_end: a,
                percent,
                sides_end: e,
                exploding,
                select: if has_select {
                    Some((action, which))
                } else {
                    None
                },
                select_from: w,
                select_end: m,
            },
        )
    } else {
        None
    }
}

/// A count written as the digits `s[lo..hi]`, 1 where there are none: the
/// count, or the fault `bad` where it is above 65535, `zero` where it is 0.
pub open spec fn count_of(s: Seq<char>, lo: int, hi: int, bad: RollFault, zero: RollFault) -> Result<
    u16,
    RollFault,
> {
    if hi <= lo {
        Ok(1u16)
    } else {
        let v = digits_value(s.subrange(lo, hi));
        if v > u16::MAX {
            Err(bad)
        } else if v == 0 {
            Err(zero)
        } else {
            Ok(v as u16)
        }
    }
}

/// The roll that a text of the given shape describes. The parts are judged
/// from left to right, and the first fault is the one reported.
pub open spec fn roll_of_shape(s: Seq<char>, sh: RollShape) -> Result<Roll, RollFault> {
    let amount = count_of(s, 0, sh.amount_end, RollFault::BadAmount, RollFault::ZeroAmount);
    let sides = if sh.percent {
        Ok(100u16)
    } else {
        let v = digits_value(s.subrange(sh.amount_end + 1, sh.sides_end));
        if v > u16::MAX {
            Err(RollFault::BadSides)
        } else if v == 0 {
            Err(RollFault::ZeroSides)
        } else {
            Ok(v as u16)
        }
    };
    let picked = count_of(
        s,
        sh.select_from,
        sh.select_end,
        RollFault::BadSelect,
        RollFault::ZeroSelect,
    );
    let modifier = net_modifier(s, sh.select_end);
    if amount is Err {
        Err(amount->Err_0)
    } else if sides is Err {
        Err(sides->Err_0)
    } else if sh.select is Some && picked is Err {
        Err(picked->Err_0)
    } else if modifier is None {
        Err(RollFault::BadModifier)
    } else {
        Ok(
            Roll {
                amount: amount->Ok_0,
                sides: sides->Ok_0,
                exploding: sh.exploding,
                select: match sh.select {
                    Some((action, which)) => Some(
                        SelectDice { amount: picked->Ok_0, action, which },
                    ),
                    None => None,
                },
                modifier: modifier->Some_0,
            },
        )
    }
}

/// What reading `s` as a dice roll gives.
pub open spec fn parse_roll(s: Seq<char>) -> Result<Roll, RollParseError> {
    match roll_shape(s) {
        None => Err(RollParseError::NoMatch),
        Some(sh) => match roll_of_shape(s, sh) {
            Ok(r) => Ok(r),
            Err(f) => Err(RollParseError::Invalid(f)),
        },
    }
}

/// A modifier as it is written behind a roll: nothing for 0, else a sign
/// and the digits.
pub open spec fn modifier_text(m: int) -> Seq<char> {
    if m == 0 {
        Seq::empty()
    } else if m > 0 {
        seq!['+'] + nat_digits(m as nat)
    } else {
        seq!['-'] + nat_digits((-m) as nat)
    }
}

/// A select clause as it is written: the shortest letters that mean it, and
/// the number of dice where it is not 1.
pub open spec fn select_text(sel: Option<SelectDice>) -> Seq<char> {
    match sel {
        None => Seq::empty(),
        Some(sel) => {
            let letters = match (sel.action, sel.which) {
                (SelectAction::Keep, SelectWhich::High) => seq!['k'],
                (SelectAction::Keep, SelectWhich::Low) => seq!['k', 'l'],
                (SelectAction::Drop, SelectWhich::High) => seq!['d', 'h'],
                (SelectAction::Drop, SelectWhich::Low) => seq!['d'],
            };
            if sel.amount > 1 {
                letters + nat_digits(sel.amount as nat)
            } else {
                letters
            }
        },
    }
}

/// A roll in dice notation. The number of dice is left out where it is 1.
pub open spec fn roll_text(r: Roll) -> Seq<char> {
    (if r.amount > 1 {
        nat_digits(r.amount as nat)
    } else {
        Seq::empty()
    }) + seq!['d'] + nat_digits(r.sides as nat) + (if r.exploding {
        seq!['!']
    } else {
        Seq::empty()
    }) + select_text(r.select) + modifier_text(r.modifier as int)
}

/// Appends a modifier as `modifier_text` writes it.
pub fn push_modifier(out: &mut Vec<char>, modifier: i32)
    ensures
        final(out)@ == old(out)@ + modifier_text(modifier as int),
{
    if modifier > 0 {
        out.push('+');
        push_nat(out, modifier as u64);
    } else if modifier < 0 {
        out.push('-');
        push_nat(out, (-(modifier as i64)) as u64);
    }
}

fn push_select(out: &mut Vec<char>, select: Option<SelectDice>)
    ensures
        final(out)@ == old(out)@ + select_text(select),
{
    match select {
        None => {},
        Some(sel) => {
            match (sel.action, sel.which) {
                (SelectAction::Keep, SelectWhich::High) => {
                    out.push('k');
                },
                (SelectAction::Keep, SelectWhich::Low) => {
                    out.push('k');
                    out.push('l');
                },
                (SelectAction::Drop, SelectWhich::High) => {
                    out.push('d');
                    out.push('h');
                },
                (SelectAction::Drop, SelectWhich::Low) => {
                    out.push('d');
                },
            }
            if sel.amount > 1 {
                push_nat(out, sel.amount as u64);
            }
        },
    }
}

/// The digits `v[lo..hi]` as a count, as `count_of` reads them.
fn count(v: &Vec<char>, lo: usize, hi: usize, bad: RollFault, zero: RollFault) -> (r: Result<
    u16,
    RollFault,
>)
    requires
        hi <= v.len(),
        lo < hi ==> all_digits(v@.subrange(lo as int, hi as int)),
    ensures
        r == count_of(v@, lo as int, hi as int, bad, zero),
{
    if hi <= lo {
        return Ok(1);
    }
    match parse_digits(v, lo, hi, 65535) {
        None => Err(bad),
        Some(n) => if n == 0 {
            Err(zero)
        } else {
            Ok(n as u16)
        },
    }
}

fn check_modifiers(v: &Vec<char>, from: usize) -> (ok: bool)
    requires
        from <= v.len(),
    ensures
        ok == is_modifiers(v@, from as int),
{
    let mut i: usize = from;
    while i < v.len()
        invariant
            from <= i <= v.len(),
            is_modifiers(v@, from as int) == is_modifiers(v@, i as int),
        decreases v.len() - i,
    {
        if v[i] != '+' && v[i] != '-' {
            return false;
        }
        let j = scan_digits(v, i + 1);
        if j <= i + 1 {
            return false;
        }
        i = j;
    }
    true
}

fn sum_modifiers(v: &Vec<char>, from: usize) -> (r: Option<i32>)
    requires
        from <= v.len(),
        is_modifiers(v@, from as int),
    ensures
        r == net_modifier(v@, from as int),
{
    let mut acc: i128 = 0;
    let mut i: usize = from;
    while i < v.len()
        invariant
            from <= i <= v.len(),
            is_modifiers(v@, i as int),
            modifier_sum(v@, from as int, 0) == modifier_sum(v@, i as int, acc as int),
            -(i - from) * 2147483648 <= acc <= (i - from) * 2147483648,
        decreases v.len() - i,
    {
        let negative = v[i] == '-';
        let j = scan_digits(v, i + 1);
        proof {
            lemma_digit_run(v@, i + 1);
        }
        let t: i128 = match parse_digits(v, i + 1, j, 2147483648) {
            None => {
                return None;
            },
            Some(n) => if negative {
                -(n as i128)
            } else {
                n as i128
            },
        };
        if t > 2147483647 {
            return None;
        }
        acc = acc + t;
        i = j;
    }
    if acc < -2147483648 || acc > 2147483647 {
        None
    } else {
        Some(acc as i32)
    }
}

/// Where the parts of a text in dice notation lie, as the scanner found them.
struct Shape {
    amount_end: usize,
    percent: bool,
    sides_end: usize,
    exploding: bool,
    select: Option<(SelectAction, SelectWhich)>,
    select_from: usize,
    select_end: usize,
}

impl Shape {
    spec fn view(&self) -> RollShape {
        RollShape {
            amount_end: self.amount_end as int,
            percent: self.percent,
            sides_end: self.sides_end as int,
            exploding: self.exploding,
            select: self.select,
            select_from: self.select_from as int,
            select_end: self.select_end as int,
        }
    }
}

fn scan_shape(v: &Vec<char>) -> (r: Option<Shape>)
    ensures
        match r {
            Some(sh) => roll_shape(v@) == Some(sh@) && sh.amount_end < sh.sides_end <= v.len()
                && sh.select_from <= sh.select_end <= v.len(),
            None => roll_shape(v@) is None,
        },
{
    let n = v.len();
    let a = scan_digits(v, 0);
    if !(a < n && v[a] == 'd') {
        return None;
    }
    let p = a + 1;
    let percent = p < n && v[p] == '%';
    let e = if percent {
        p + 1
    } else {
        scan_digits(v, p)
    };
    if e <= p {
        return None;
    }
    let exploding = e < n && v[e] == '!';
    let y = if exploding {
        e + 1
    } else {
        e
    };
    let keep = y < n && v[y] == 'k';
    let has_select = keep || (y < n && v[y] == 'd');
    let low = has_select && y + 1 < n && v[y + 1] == 'l';
    let high = has_select && y + 1 < n && v[y + 1] == 'h';
    let w = if low || high {
        y + 2
    } else if has_select {
        y + 1
    } else {
        y
    };
    let m = if has_select {
        scan_digits(v, w)
    } else {
        w
    };
    if !check_modifiers(v, m) {
        return None;
    }
    let select = if !has_select {
        None
    } else if keep {
        Some(
            (
                SelectAction::Keep,
                if low {
                    SelectWhich::Low
                } else {
                    SelectWhich::High
                },
            ),
        )
    } else {
        Some(
            (
                SelectAction::Drop,
                if high {
                    SelectWhich::High
                } else {
                    SelectWhich::Low
                },
            ),
        )
    };
    Some(
        Shape {
            amount_end: a,
            percent,
            sides_end: e,
            exploding,
            select,
            select_from: w,
            select_end: m,
        },
    )
}

impl Roll {
    /// Reads a roll from the characters of its notation.
    pub fn from_chars(v: &Vec<char>) -> (r: Result<Roll, RollParseError>)
        ensures
            r == parse_roll(v@),
            r matches Ok(roll) ==> roll.wf(),
    {
        let sh = match scan_shape(v) {
            None => {
                return Err(RollParseError::NoMatch);
            },
            Some(sh) => sh,
        };
        proof {
            lemma_digit_run(v@, 0);
            if !sh.percent {
                lemma_digit_run(v@, sh.amount_end + 1);
            }
            if sh.select is Some {
                lemma_digit_run(v@, sh.select_from as int);
            }
        }
        let amount = match count(v, 0, sh.amount_end, RollFault::BadAmount, RollFault::ZeroAmount) {
            Ok(n) => n,
            Err(f) => {
                return Err(RollParseError::Invalid(f));
            },
        };
        let sides = if sh.percent {
            100
        } else {
            match parse_digits(v, sh.amount_end + 1, sh.sides_end, 65535) {
                None => {
                    return Err(RollParseError::Invalid(RollFault::BadSides));
                },
                Some(n) => if n == 0 {
                    return Err(RollParseError::Invalid(RollFault::ZeroSides));
                } else {
                    n as u16
                },
            }
        };
        let select = match sh.select {
            None => None,
            Some((action, which)) => {
                match count(
                    v,
                    sh.select_from,
                    sh.select_end,
                    RollFault::BadSelect,
                    RollFault::ZeroSelect,
                ) {
                    Ok(n) => Some(SelectDice { amount: n, action, which }),
                    Err(f) => {
                        return Err(RollParseError::Invalid(f));
                    },
                }
            },
        };
        let modifier = match sum_modifiers(v, sh.select_end) {
            None => {
                return Err(RollParseError::Invalid(RollFault::BadModifier));
            },
            Some(m) => m,
        };
        Ok(Roll { amount, sides, exploding: sh.exploding, select, modifier })
    }

    /// Reads a roll from its notation: `Err(NoMatch)` where the text is not in
    /// dice notation, `Err(Invalid(..))` with the first fault where it is and
    /// describes no roll.
    pub fn from_str(s: &str) -> (r: Result<Roll, RollParseError>)
        ensures
            r == parse_roll(s@),
            r matches Ok(roll) ==> roll.wf(),
    {
        let v = chars_of(s);
        Roll::from_chars(&v)
    }

    /// Appends the roll in dice notation.
    pub fn push_text(&self, out: &mut Vec<char>)
        ensures
            final(out)@ == old(out)@ + roll_text(*self),
    {
        if self.amount > 1 {
            push_nat(out, self.amount as u64);
        }
        out.push('d');
        push_nat(out, self.sides as u64);
        if self.exploding {
            out.push('!');
        }
        push_select(out, self.select);
        push_modifier(out, self.modifier);
    }

    /// The roll in dice notation.
    pub fn render(&self) -> (s: String)
        ensures
            s@ == roll_text(*self),
    {
        let mut out: Vec<char> = Vec::new();
        self.push_text(&mut out);
        string_of(&out)
    }
}

/// The roll of `amount` dice of `sides` sides and nothing more.
pub open spec fn plain_roll(amount: u16, sides: u16) -> Roll {
    Roll { amount, sides, exploding: false, select: None, modifier: 0 }
}

/// Reading the digits of `n`, a `d` and the digits of `sides` gives the roll
/// of `n` dice of `sides` sides; writing that roll gives the same text back,
/// but for the number of dice, which is left out where it is 1.
pub proof fn lemma_plain_roll_round_trip(n: nat, sides: nat)
    requires
        1 <= n <= u16::MAX,
        1 <= sides <= u16::MAX,
    ensures
        parse_roll(nat_digits(n) + seq!['d'] + nat_digits(sides)) == Ok::<Roll, RollParseError>(
            plain_roll(n as u16, sides as u16),
        ),
        n > 1 ==> roll_text(plain_roll(n as u16, sides as u16)) == nat_digits(n) + seq!['d']
            + nat_digits(sides),
        n == 1 ==> roll_text(plain_roll(n as u16, sides as u16)) == seq!['d'] + nat_digits(sides),
{
    let dn = nat_digits(n);
    let ds = nat_digits(sides);
    let t = dn + seq!['d'] + ds;
    let a = dn.len() as int;
    let p = a + 1;
    let end = t.len() as int;
    crate::numeral::lemma_nat_digits(n);
    crate::numeral::lemma_nat_digits(sides);
    assert(t.subrange(0, a) =~= dn);
    assert(t[a] == 'd');
    crate::numeral::lemma_digit_run_is(t, 0, a);
    assert(t.subrange(p, end) =~= ds);
    assert(t[p] == ds[0]);
    assert(crate::text::is_digit(ds[0]));
    crate::numeral::lemma_digit_run_is(t, p, end);
    assert(is_modifiers(t, end));
    assert(modifier_sum(t, end, 0) == Some(0int));
    let sh = roll_shape(t)->Some_0;
    assert(roll_shape(t) is Some);
    assert(sh.amount_end == a && !sh.percent && sh.sides_end == end && !sh.exploding && sh.select
        is None && sh.select_end == end);
    let r = plain_roll(n as u16, sides as u16);
    assert(roll_of_shape(t, sh) == Ok::<Roll, RollFault>(r));
    assert(select_text(r.select) =~= Seq::<char>::empty());
    assert(modifier_text(r.modifier as int) =~= Seq::<char>::empty());
    if n > 1 {
        assert(roll_text(r) =~= dn + seq!['d'] + ds);
    } else {
        assert(roll_text(r) =~= seq!['d'] + ds);
    }
}

/// How many more dice one die can bring by exploding. A die of two sides
/// or more gets this far once in 2^64 rolls at most; a die of one side
/// always does, and stops here.
pub const MAX_EXPLOSIONS: usize = 64;

/// One die of a roll: the face it shows, and whether the select clause
/// left it out of the total.
#[derive(Debug, Clone, Copy, PartialEq, Eq, Structural)]
pub struct Die {
    pub val: u16,
    pub drop: bool,
}

/// Whether the select clause `sel` leaves out the die at place `i` of `len`
/// dice in ascending order.
pub open spec fn dropped_at(sel: SelectDice, len: int, i: int) -> bool {
    match (sel.action, sel.which) {
        (SelectAction::Keep, SelectWhich::High) => i < len - sel.amount,
        (SelectAction::Keep, SelectWhich::Low) => i >= sel.amount,
        (SelectAction::Drop, SelectWhich::High) => i >= len - sel.amount,
        (SelectAction::Drop, SelectWhich::Low) => i < sel.amount,
    }
}

/// The sum of the faces of the dice that were not left out.
pub open spec fn taken_sum(dice: Seq<Die>) -> int
    decreases dice.len(),
{
    if dice.len() == 0 {
        0
    } else {
        taken_sum(dice.drop_last()) + if dice.last().drop {
            0int
        } else {
            dice.last().val as int
        }
    }
}

/// The faces of the dice that were not left out, in order.
pub open spec fn taken_faces(dice: Seq<Die>) -> Seq<u16>
    decreases dice.len(),
{
    if dice.len() == 0 {
        Seq::empty()
    } else if dice.last().drop {
        taken_faces(dice.drop_last())
    } else {
        taken_faces(dice.drop_last()).push(dice.last().val)
    }
}

/// The faces of dice, in order.
pub open spec fn die_faces(dice: Seq<Die>) -> Seq<u16> {
    dice.map_values(|d: Die| d.val)
}

/// Where the rolling stands after the faces `faces` have come, one by one:
/// for how many of the dice asked for all faces have come, and how many
/// faces the die that is being rolled has brought by exploding so far.
///
/// A face that is the highest makes its die explode, if the roll explodes
/// and the die has not exploded `MAX_EXPLOSIONS` times yet; any other face
/// is the last of its die.
pub open spec fn tape_state(roll: Roll, faces: Seq<u16>) -> (nat, nat)
    decreases faces.len(),
{
    if faces.len() == 0 {
        (0, 0)
    } else {
        let (done, exploded) = tape_state(roll, faces.drop_last());
        if roll.exploding && faces.last() == roll.sides && exploded < MAX_EXPLOSIONS {
            (done, exploded + 1)
        } else {
            (done + 1, 0)
        }
    }
}

/// The faces are such as the draws of an evaluation of `roll` give, in the
/// order in which they come: every face is one of the roll, and with the
/// last face all the dice asked for have been rolled, and none beyond them.
pub open spec fn is_tape(roll: Roll, faces: Seq<u16>) -> bool {
    &&& roll.wf()
    &&& forall|i: int| 0 <= i < faces.len() ==> 1 <= (#[trigger] faces[i]) <= roll.sides
    &&& tape_state(roll, faces) == (roll.amount as nat, 0nat)
}

/// The dice are the faces as `roll` arranges them: as they came where the
/// roll has no select clause, and none left out; under a select clause in
/// ascending order, with those left out that the clause says.
pub open spec fn is_arrangement(roll: Roll, faces: Seq<u16>, dice: Seq<Die>) -> bool {
    let len = dice.len() as int;
    &&& len == faces.len()
    &&& match roll.select {
        Some(sel) => {
            &&& die_faces(dice).to_multiset() == faces.to_multiset()
            &&& forall|i: int, j: int| 0 <= i <= j < len ==> dice[i].val <= dice[j].val
            &&& forall|i: int| 0 <= i < len ==> (#[trigger] dice[i]).drop == dropped_at(sel, len, i)
        },
        None => forall|i: int|
            0 <= i < len ==> (#[trigger] dice[i]) == (Die { val: faces[i], drop: false }),
    }
}

/// What holds of the dice of every evaluation of `roll`: they are faces
/// that the draws of an evaluation give, arranged as the roll says.
pub open spec fn is_outcome(roll: Roll, dice: Seq<Die>) -> bool {
    exists|faces: Seq<u16>| #[trigger] is_tape(roll, faces) && is_arrangement(roll, faces, dice)
}

/// While dice are rolled, there is at least one face for each die that is
/// done and each explosion, and at most as many as all of them can bring.
pub proof fn lemma_tape_length(roll: Roll, faces: Seq<u16>)
    ensures
        tape_state(roll, faces).1 <= MAX_EXPLOSIONS,
        tape_state(roll, faces).0 + tape_state(roll, faces).1 <= faces.len(),
        faces.len() <= tape_state(roll, faces).0 * 65 + tape_state(roll, faces).1,
        !roll.exploding ==> tape_state(roll, faces) == (faces.len(), 0nat),
    decreases faces.len(),
{
    if faces.len() > 0 {
        lemma_tape_length(roll, faces.drop_last());
    }
}

/// Every evaluation has a die for each die asked for, no more than those
/// can bring by exploding, and every die shows a face of the roll.
pub proof fn lemma_outcome_bounds(roll: Roll, dice: Seq<Die>)
    requires
        is_outcome(roll, dice),
    ensures
        roll.wf(),
        roll.amount <= dice.len() <= roll.amount * 65,
        !roll.exploding ==> dice.len() == roll.amount,
        forall|i: int| 0 <= i < dice.len() ==> 1 <= (#[trigger] dice[i]).val <= roll.sides,
{
    let faces = choose|faces: Seq<u16>| #[trigger]
        is_tape(roll, faces) && is_arrangement(roll, faces, dice);
    lemma_tape_length(roll, faces);
    assert forall|i: int| 0 <= i < dice.len() implies 1 <= (#[trigger] dice[i]).val
        <= roll.sides by {
        if roll.select is Some {
            broadcast use vstd::seq_lib::group_to_multiset_ensures;

            let f = dice[i].val;
            assert(die_faces(dice)[i] == f);
            assert(die_faces(dice).to_multiset().count(f) > 0);
        }
    }
}

/// A roll with the dice of one evaluation of it.
pub struct Rolled {
    pub roll: Roll,
    pub dice: Seq<Die>,
}

/// The result of evaluating a roll.
#[derive(Debug, PartialEq, Eq)]
pub struct RollResult {
    roll: Roll,
    dice: Vec<Die>,
}

impl View for RollResult {
    type V = Rolled;

    closed spec fn view(&self) -> Rolled {
        Rolled { roll: self.roll, dice: self.dice@ }
    }
}

/// Rolls one die, and one more for each die that explodes.
fn roll_chain(rng: &mut rand_pcg::Pcg64, roll: &Roll, faces: &mut Vec<u16>)
    requires
        roll.wf(),
        tape_state(*roll, old(faces)@).1 == 0,
        forall|i: int| 0 <= i < old(faces)@.len() ==> 1 <= (#[trigger] old(faces)@[i]) <= roll.sides,
    ensures
        tape_state(*roll, final(faces)@) == (tape_state(*roll, old(faces)@).0 + 1, 0nat),
        forall|i: int|
            0 <= i < final(faces)@.len() ==> 1 <= (#[trigger] final(faces)@[i]) <= roll.sides,
{
    let ghost done = tape_state(*roll, faces@).0;
    let mut k: usize = 0;
    while k < MAX_EXPLOSIONS
        invariant
            roll.wf(),
            k <= MAX_EXPLOSIONS,
            tape_state(*roll, faces@) == (done, k as nat),
            done == tape_state(*roll, old(faces)@).0,
            forall|i: int| 0 <= i < faces@.len() ==> 1 <= (#[trigger] faces@[i]) <= roll.sides,
        decreases MAX_EXPLOSIONS - k,
    {
        let face = draw_u16(rng, 1, roll.sides);
        let ghost before = faces@;
        faces.push(face);
        assert(faces@.drop_last() =~= before);
        if !(roll.exploding && face == roll.sides) {
            return ;
        }
        k += 1;
    }
    let face = draw_u16(rng, 1, roll.sides);
    let ghost before = faces@;
    faces.push(face);
    assert(faces@.drop_last() =~= before);
}

fn is_dropped(sel: SelectDice, len: usize, i: usize) -> (r: bool)
    requires
        i < len <= 65535 * 65,
    ensures
        r == dropped_at(sel, len as int, i as int),
{
    let n = sel.amount as usize;
    match (sel.action, sel.which) {
        (SelectAction::Keep, SelectWhich::High) => i + n < len,
        (SelectAction::Keep, SelectWhich::Low) => i >= n,
        (SelectAction::Drop, SelectWhich::High) => i + n >= len,
        (SelectAction::Drop, SelectWhich::Low) => i < n,
    }
}

impl Roll {
    /// Whether the roll is one that can be rolled.
    pub fn is_valid(&self) -> (r: bool)
        ensures
            r == self.wf(),
    {
        self.amount >= 1 && self.sides >= 1 && match self.select {
            Some(sel) => sel.amount >= 1,
            None => true,
        }
    }

    /// Rolls the dice: one draw from `1..=sides` for each die, and for each
    /// die that explodes; then the faces are arranged as `is_arrangement` says.
    pub fn eval(&self, rng: &mut rand_pcg::Pcg64) -> (res: RollResult)
        requires
            self.wf(),
        ensures
            res@.roll == *self,
            is_outcome(*self, res@.dice),
    {
        let mut faces: Vec<u16> = Vec::new();
        let mut step: u16 = 0;
        while step < self.amount
            invariant
                self.wf(),
                step <= self.amount,
                tape_state(*self, faces@) == (step as nat, 0nat),
                forall|i: int| 0 <= i < faces@.len() ==> 1 <= (#[trigger] faces@[i]) <= self.sides,
            decreases self.amount - step,
        {
            roll_chain(rng, self, &mut faces);
            step += 1;
        }
        arrange(*self, faces)
    }
}

/// Arranges the faces of a roll as the roll says.
fn arrange(roll: Roll, faces: Vec<u16>) -> (res: RollResult)
    requires
        is_tape(roll, faces@),
    ensures
        res@.roll == roll,
        is_arrangement(roll, faces@, res@.dice),
{
    let ghost given = faces@;
    let mut faces = faces;
    proof {
        lemma_tape_length(roll, given);
    }
    if roll.select.is_some() {
        sort_faces(&mut faces);
        proof {
            broadcast use vstd::seq_lib::group_to_multiset_ensures;

            assert(faces@.len() == given.len()) by {
                assert(faces@.to_multiset().len() == given.to_multiset().len());
            }
        }
    }
    let len = faces.len();
    let mut dice: Vec<Die> = Vec::new();
    let mut i: usize = 0;
    while i < len
        invariant
            len == faces@.len(),
            len <= 65535 * 65,
            i <= len,
            dice@.len() == i,
            forall|k: int| 0 <= k < i ==> (#[trigger] dice@[k]).val == faces@[k],
            forall|k: int|
                0 <= k < i ==> (#[trigger] dice@[k]).drop == match roll.select {
                    Some(sel) => dropped_at(sel, len as int, k),
                    None => false,
                },
        decreases len - i,
    {
        let drop = match roll.select {
            Some(sel) => is_dropped(sel, len, i),
            None => false,
        };
        dice.push(Die { val: faces[i], drop });
        i += 1;
    }
    proof {
        assert(die_faces(dice@) =~= faces@);
    }
    RollResult { roll, dice }
}

impl RollResult {
    #[verifier::type_invariant]
    spec fn inv(&self) -> bool {
        is_outcome(self.roll, self.dice@)
    }

    /// A copy of the result.
    pub fn duplicate(&self) -> (r: RollResult)
        ensures
            r@ == self@,
    {
        proof {
            use_type_invariant(self);
        }
        let mut dice: Vec<Die> = Vec::new();
        let mut i: usize = 0;
        while i < self.dice.len()
            invariant
                i <= self.dice.len(),
                dice@ == self.dice@.subrange(0, i as int),
            decreases self.dice.len() - i,
        {
            dice.push(self.dice[i]);
            i += 1;
        }
        assert(dice@ =~= self.dice@);
        RollResult { roll: self.roll, dice }
    }

    /// The result that the given faces make, drawn in this order, if the
    /// draws of an evaluation of `roll` can give them.
    pub fn from_faces(roll: Roll, faces: Vec<u16>) -> (r: Option<RollResult>)
        ensures
            match r {
                Some(res) => is_tape(roll, faces@) && res@.roll == roll && is_arrangement(
                    roll,
                    faces@,
                    res@.dice,
                ),
                None => !is_tape(roll, faces@),
            },
    {
        if !roll.is_valid() {
            return None;
        }
        let len = faces.len();
        let mut done: usize = 0;
        let mut exploded: usize = 0;
        let mut i: usize = 0;
        while i < len
            invariant
                i <= len,
                len == faces@.len(),
                done <= i,
                exploded <= MAX_EXPLOSIONS,
                tape_state(roll, faces@.subrange(0, i as int)) == (done as nat, exploded as nat),
                forall|k: int| 0 <= k < i ==> 1 <= (#[trigger] faces@[k]) <= roll.sides,
            decreases len - i,
        {
            if faces[i] < 1 || faces[i] > roll.sides {
                return None;
            }
            assert(faces@.subrange(0, i + 1).drop_last() =~= faces@.subrange(0, i as int));
            if roll.exploding && faces[i] == roll.sides && exploded < MAX_EXPLOSIONS {
                exploded += 1;
            } else {
                done += 1;
                exploded = 0;
            }
            i += 1;
        }
        assert(faces@.subrange(0, len as int) =~= faces@);
        if done != roll.amount as usize || exploded != 0 {
            return None;
        }
        Some(arrange(roll, faces))
    }

    /// The roll that was evaluated.
    pub fn roll(&self) -> (r: &Roll)
        ensures
            *r == self@.roll,
            r.wf(),
    {
        proof {
            use_type_invariant(self);
            lemma_outcome_bounds(self.roll, self.dice@);
        }
        &self.roll
    }

    /// All the dice that were rolled.
    pub fn rolled_dice(&self) -> (r: &Vec<Die>)
        ensures
            r@ == self@.dice,
            is_outcome(self@.roll, self@.dice),
    {
        proof {
            use_type_invariant(self);
        }
        &self.dice
    }

    /// All the dice that were rolled: the face of each, and whether it
    /// counts for the total.
    pub fn all_dice(&self) -> (r: Vec<(u16, bool)>)
        ensures
            r@.len() == self@.dice.len(),
            forall|i: int|
                0 <= i < r@.len() ==> #[trigger] r@[i] == (self@.dice[i].val, !self@.dice[i].drop),
    {
        let mut r: Vec<(u16, bool)> = Vec::new();
        let mut i: usize = 0;
        while i < self.dice.len()
            invariant
                i <= self.dice.len(),
                r@.len() == i,
                forall|k: int|
                    0 <= k < i ==> #[trigger] r@[k] == (self.dice@[k].val, !self.dice@[k].drop),
            decreases self.dice.len() - i,
        {
            r.push((self.dice[i].val, !self.dice[i].drop));
            i += 1;
        }
        r
    }

    /// The number of dice asked for, and the number of dice rolled, which
    /// is larger where dice exploded.
    pub fn amount(&self) -> (r: (usize, usize))
        ensures
            r.0 == self@.roll.amount,
            r.1 == self@.dice.len(),
            r.0 <= r.1,
    {
        proof {
            use_type_invariant(self);
            lemma_outcome_bounds(self.roll, self.dice@);
        }
        (self.roll.amount as usize, self.dice.len())
    }

    /// The number of sides of the dice.
    pub fn sides(&self) -> (r: u16)
        ensures
            r == self@.roll.sides,
    {
        self.roll.sides
    }

    /// The modifier of the roll.
    pub fn modifier(&self) -> (r: i32)
        ensures
            r == self@.roll.modifier,
    {
        self.roll.modifier
    }

    /// Whether the dice could explode.
    pub fn was_exploding(&self) -> (r: bool)
        ensures
            r == self@.roll.exploding,
    {
        self.roll.exploding
    }

    /// The faces of the dice that count for the total.
    pub fn taken_dice(&self) -> (r: Vec<u16>)
        ensures
            r@ == taken_faces(self@.dice),
    {
        let mut r: Vec<u16> = Vec::new();
        let mut i: usize = 0;
        while i < self.dice.len()
            invariant
                i <= self.dice.len(),
                r@ == taken_faces(self.dice@.subrange(0, i as int)),
            decreases self.dice.len() - i,
        {
            assert(self.dice@.subrange(0, i + 1).drop_last() =~= self.dice@.subrange(0, i as int));
            if !self.dice[i].drop {
                r.push(self.dice[i].val);
            }
            i += 1;
        }
        assert(self.dice@.subrange(0, i as int) =~= self.dice@);
        r
    }

    /// The total: the dice that count, and the modifier.
    pub fn total(&self) -> (t: i64)
        ensures
            t == taken_sum(self@.dice) + self@.roll.modifier,
    {
        proof {
            use_type_invariant(self);
            lemma_outcome_bounds(self.roll, self.dice@);
        }
        let mut acc: i64 = 0;
        let mut i: usize = 0;
        while i < self.dice.len()
            invariant
                i <= self.dice.len() <= 65535 * 65,
                acc == taken_sum(self.dice@.subrange(0, i as int)),
                0 <= acc <= i * 65535,
            decreases self.dice.len() - i,
        {
            assert(self.dice@.subrange(0, i + 1).drop_last() =~= self.dice@.subrange(0, i as int));
            if !self.dice[i].drop {
                acc += self.dice[i].val as i64;
            }
            i += 1;
        }
        assert(self.dice@.subrange(0, i as int) =~= self.dice@);
        acc + self.roll.modifier as i64
    }
}

/// A die as it is written: its face, and a `d` behind it where it was left out.
pub open spec fn die_text(d: Die) -> Seq<char> {
    nat_digits(d.val as nat) + if d.drop {
        seq!['d']
    } else {
        Seq::empty()
    }
}

/// Dice as they are written: one after the other, a `+` between.
pub open spec fn dice_text(dice: Seq<Die>) -> Seq<char>
    decreases dice.len(),
{
    if dice.len() == 0 {
        Seq::empty()
    } else if dice.len() == 1 {
        die_text(dice[0])
    } else {
        dice_text(dice.drop_last()) + seq!['+'] + die_text(dice.last())
    }
}

/// The total of an evaluation.
pub open spec fn rolled_total(r: Rolled) -> int {
    taken_sum(r.dice) + r.roll.modifier
}

/// An evaluation as it is written in full: the roll, a colon, and the
/// total; before the total, where the roll explodes, selects or has a
/// modifier, the dice in square brackets, the modifier and an equals sign.
pub open spec fn rolled_text(r: Rolled) -> Seq<char> {
    roll_text(r.roll) + seq![':', ' '] + (if r.roll.exploding || r.roll.select is Some
        || r.roll.modifier != 0 {
        seq!['['] + dice_text(r.dice) + seq![']'] + modifier_text(r.roll.modifier as int) + seq![
            ' ',
            '=',
            ' ',
        ]
    } else {
        Seq::empty()
    }) + int_digits(rolled_total(r))
}

impl RollResult {
    fn push_dice(&self, out: &mut Vec<char>)
        ensures
            final(out)@ == old(out)@ + dice_text(self@.dice),
    {
        let ghost before = out@;
        let mut i: usize = 0;
        while i < self.dice.len()
            invariant
                i <= self.dice.len(),
                out@ == before + dice_text(self.dice@.subrange(0, i as int)),
            decreases self.dice.len() - i,
        {
            let ghost prefix = self.dice@.subrange(0, i as int);
            let ghost next = self.dice@.subrange(0, i + 1);
            assert(next.drop_last() =~= prefix);
            if i > 0 {
                out.push('+');
            }
            push_nat(out, self.dice[i].val as u64);
            if self.dice[i].drop {
                out.push('d');
            }
            i += 1;
        }
        assert(self.dice@.subrange(0, i as int) =~= self.dice@);
    }

    /// Appends the evaluation as it is written in full.
    pub fn push_text(&self, out: &mut Vec<char>)
        ensures
            final(out)@ == old(out)@ + rolled_text(self@),
    {
        let total = self.total();
        self.roll.push_text(out);
        out.push(':');
        out.push(' ');
        if self.roll.exploding || self.roll.select.is_some() || self.roll.modifier != 0 {
            out.push('[');
            self.push_dice(out);
            out.push(']');
            push_modifier(out, self.roll.modifier);
            out.push(' ');
            out.push('=');
            out.push(' ');
        }
        push_int(out, total);
    }
}

/// How many of the dice show the highest face of the roll.
pub open spec fn top_faces(roll: Roll, dice: Seq<Die>) -> nat {
    die_faces(dice).to_multiset().count(roll.sides)
}

/// While exploding dice are rolled, there is a face for each die that is
/// done and each highest face, less one for each die that stopped on its
/// highest face; and a die stops there only after `MAX_EXPLOSIONS` explosions.
proof fn lemma_tape_explosions(roll: Roll, faces: Seq<u16>)
    requires
        roll.exploding,
    ensures
        faces.len() <= tape_state(roll, faces).0 + faces.to_multiset().count(roll.sides),
        faces.len() == tape_state(roll, faces).0 + faces.to_multiset().count(roll.sides)
            || faces.len() > MAX_EXPLOSIONS,
    decreases faces.len(),
{
    broadcast use vstd::multiset::group_multiset_axioms;

    if faces.len() == 0 {
        broadcast use vstd::seq_lib::group_to_multiset_ensures;

        assert(faces.to_multiset().len() == 0);
    } else {
        let init = faces.drop_last();
        lemma_tape_explosions(roll, init);
        lemma_tape_length(roll, init);
        assert(faces =~= init.push(faces.last()));
        vstd::seq_lib::to_multiset_build(init, faces.last());
    }
}

/// In every evaluation of an exploding roll, each die that shows the
/// highest face has brought exactly one more die: there are as many dice as
/// were asked for and as show the highest face together. The one exception
/// is a die that has exploded `MAX_EXPLOSIONS` times and stops on its highest
/// face; then there are more dice than that, and fewer than the count says.
pub proof fn lemma_explosions_counted(roll: Roll, dice: Seq<Die>)
    requires
        is_outcome(roll, dice),
        roll.exploding,
    ensures
        dice.len() <= roll.amount + top_faces(roll, dice),
        dice.len() <= MAX_EXPLOSIONS ==> dice.len() == roll.amount + top_faces(roll, dice),
{
    let faces = choose|faces: Seq<u16>| #[trigger]
        is_tape(roll, faces) && is_arrangement(roll, faces, dice);
    lemma_tape_explosions(roll, faces);
    if roll.select is None {
        assert(die_faces(dice) =~= faces);
    }
}

/// Given faces can be arranged in one way only: the faces that came and
/// the roll say which dice there are, in which order, and which are left out.
pub proof fn lemma_arrangement_unique(roll: Roll, faces: Seq<u16>, a: Seq<Die>, b: Seq<Die>)
    requires
        is_arrangement(roll, faces, a),
        is_arrangement(roll, faces, b),
    ensures
        a == b,
{
    if roll.select is Some {
        let leq = |x: u16, y: u16| x <= y;
        assert(vstd::relations::total_ordering(leq)) by {
            assert(vstd::relations::reflexive(leq));
            assert(vstd::relations::antisymmetric(leq));
            assert(vstd::relations::transitive(leq));
            assert(vstd::relations::strongly_connected(leq));
        }
        assert(vstd::relations::sorted_by(die_faces(a), leq)) by {
            assert forall|i: int, j: int| 0 <= i < j < die_faces(a).len() implies #[trigger] leq(
                die_faces(a)[i],
                die_faces(a)[j],
            ) by {
                assert(a[i].val <= a[j].val);
            }
        }
        assert(vstd::relations::sorted_by(die_faces(b), leq)) by {
            assert forall|i: int, j: int| 0 <= i < j < die_faces(b).len() implies #[trigger] leq(
                die_faces(b)[i],
                die_faces(b)[j],
            ) by {
                assert(b[i].val <= b[j].val);
            }
        }
        vstd::seq_lib::lemma_sorted_unique(die_faces(a), die_faces(b), leq);
        assert forall|i: int| 0 <= i < a.len() implies a[i] == b[i] by {
            assert(die_faces(a)[i] == die_faces(b)[i]);
        }
    }
    assert(a =~= b);
}

impl Clone for RollResult {
    fn clone(&self) -> (r: Self)
        ensures
            r@ == self@,
    {
        self.duplicate()
    }
}

/// Where the rolling of exploding dice of one side stands: every die
/// explodes as often as it can.
proof fn lemma_one_sided_tape(roll: Roll, faces: Seq<u16>)
    requires
        roll.exploding,
        roll.sides == 1,
        forall|i: int| 0 <= i < faces.len() ==> 1 <= (#[trigger] faces[i]) <= roll.sides,
    ensures
        faces.len() == tape_state(roll, faces).0 * 65 + tape_state(roll, faces).1,
    decreases faces.len(),
{
    if faces.len() > 0 {
        let init = faces.drop_last();
        assert forall|i: int| 0 <= i < init.len() implies 1 <= (#[trigger] init[i])
            <= roll.sides by {
            assert(init[i] == faces[i]);
        }
        lemma_one_sided_tape(roll, init);
        lemma_tape_length(roll, init);
        assert(faces.last() == faces[faces.len() - 1]);
    }
}

/// An exploding roll of dice of one side comes to an end: every die
/// explodes until it has exploded `MAX_EXPLOSIONS` times, and no further.
pub proof fn lemma_one_sided_explosion(roll: Roll, dice: Seq<Die>)
    requires
        is_outcome(roll, dice),
        roll.exploding,
        roll.sides == 1,
    ensures
        dice.len() == roll.amount * (MAX_EXPLOSIONS + 1),
{
    let faces = choose|faces: Seq<u16>| #[trigger]
        is_tape(roll, faces) && is_arrangement(roll, faces, dice);
    lemma_one_sided_tape(roll, faces);
}

/// The letters of a select clause as they are written.
spec fn select_letters(sel: Option<SelectDice>) -> Seq<char> {
    match sel {
        None => Seq::empty(),
        Some(sel) => match (sel.action, sel.which) {
            (SelectAction::Keep, SelectWhich::High) => seq!['k'],
            (SelectAction::Keep, SelectWhich::Low) => seq!['k', 'l'],
            (SelectAction::Drop, SelectWhich::High) => seq!['d', 'h'],
            (SelectAction::Drop, SelectWhich::Low) => seq!['d'],
        },
    }
}

/// The number of a select clause as it is written.
spec fn select_digits(sel: Option<SelectDice>) -> Seq<char> {
    match sel {
        Some(sel) if sel.amount > 1 => nat_digits(sel.amount as nat),
        _ => Seq::empty(),
    }
}

/// The digits `t[i..j]` write `n` and no digit follows them: they are the
/// run of digits at `i`, and read as `n`.
proof fn lemma_digits_in_place(t: Seq<char>, i: int, j: int, n: nat)
    requires
        0 <= i <= j <= t.len(),
        t.subrange(i, j) == nat_digits(n),
        j < t.len() ==> !crate::text::is_digit(t[j]),
    ensures
        i < j,
        digit_run(t, i) == j,
        digits_value(t.subrange(i, j)) == n,
        crate::text::is_digit(t[i]),
{
    crate::numeral::lemma_nat_digits(n);
    crate::numeral::lemma_digit_run_is(t, i, j);
    assert(t.subrange(i, j)[0] == t[i]);
}

/// No digit stands at `i`: the run of digits there is empty.
proof fn lemma_no_digits(t: Seq<char>, i: int)
    requires
        0 <= i <= t.len(),
        i < t.len() ==> !crate::text::is_digit(t[i]),
    ensures
        digit_run(t, i) == i,
{
}

/// A modifier written at the end of a text is read as that modifier.
proof fn lemma_modifier_in_place(t: Seq<char>, m: int, modifier: i32)
    requires
        0 <= m <= t.len(),
        t.subrange(m, t.len() as int) == modifier_text(modifier as int),
    ensures
        is_modifiers(t, m),
        modifier_sum(t, m, 0) == Some(modifier as int),
        m < t.len() ==> t[m] == '+' || t[m] == '-',
{
    let end = t.len() as int;
    let text = modifier_text(modifier as int);
    assert(t.subrange(m, end).len() == end - m);
    if modifier != 0 {
        let magnitude = if modifier > 0 {
            modifier as nat
        } else {
            (-modifier) as nat
        };
        let sign = if modifier > 0 {
            '+'
        } else {
            '-'
        };
        crate::numeral::lemma_nat_digits(magnitude);
        assert(text =~= seq![sign] + nat_digits(magnitude));
        assert(text.len() == 1 + nat_digits(magnitude).len());
        assert(t.subrange(m, end)[0] == text[0]);
        assert(t[m] == sign);
        assert(t.subrange(m + 1, end) =~= nat_digits(magnitude)) by {
            assert forall|k: int| 0 <= k < end - m - 1 implies t.subrange(m + 1, end)[k]
                == nat_digits(magnitude)[k] by {
                assert(t.subrange(m, end)[k + 1] == text[k + 1]);
            }
        }
        lemma_digits_in_place(t, m + 1, end, magnitude);
        assert(is_modifiers(t, end));
        assert(modifier_sum(t, end, modifier as int) == Some(modifier as int));
        assert(is_modifiers(t, m));
        assert(modifier_sum(t, m, 0) == Some(modifier as int));
    } else {
        assert(m == end);
        assert(is_modifiers(t, m));
        assert(modifier_sum(t, m, 0) == Some(0int));
    }
}

/// What the select clause of `r` demands of a text `t` in which its letters
/// start at `y`, its number at `w`, and the modifiers at `m`.
spec fn select_in_place(t: Seq<char>, r: Roll, y: int, w: int, m: int) -> bool {
    match r.select {
        None => !at(t, y, 'k') && !at(t, y, 'd') && w == y && m == y,
        Some(sel) => {
            &&& at(t, y, 'k') == (sel.action == SelectAction::Keep)
            &&& at(t, y, 'd') == (sel.action == SelectAction::Drop)
            &&& match (sel.action, sel.which) {
                (SelectAction::Keep, SelectWhich::High) => !at(t, y + 1, 'l') && !at(
                    t,
                    y + 1,
                    'h',
                ) && w == y + 1,
                (SelectAction::Keep, SelectWhich::Low) => at(t, y + 1, 'l') && w == y + 2,
                (SelectAction::Drop, SelectWhich::High) => at(t, y + 1, 'h') && w == y + 2,
                (SelectAction::Drop, SelectWhich::Low) => !at(t, y + 1, 'l') && !at(
                    t,
                    y + 1,
                    'h',
                ) && w == y + 1,
            }
            &&& digit_run(t, w) == m
            &&& if sel.amount == 1 {
                m == w
            } else {
                m > w && digits_value(t.subrange(w, m)) == sel.amount
            }
        },
    }
}

/// A text whose parts lie where dice notation wants them, and write what
/// `r` holds, is read as `r`.
proof fn lemma_read_in_place(t: Seq<char>, r: Roll, a: int, e: int, w: int, m: int)
    requires
        r.wf(),
        digit_run(t, 0) == a,
        at(t, a, 'd'),
        if r.amount == 1 {
            a == 0
        } else {
            a > 0 && digits_value(t.subrange(0, a)) == r.amount
        },
        !at(t, a + 1, '%'),
        digit_run(t, a + 1) == e,
        e > a + 1,
        digits_value(t.subrange(a + 1, e)) == r.sides,
        at(t, e, '!') == r.exploding,
        select_in_place(
            t,
            r,
            if r.exploding {
                e + 1
            } else {
                e
            },
            w,
            m,
        ),
        is_modifiers(t, m),
        modifier_sum(t, m, 0) == Some(r.modifier as int),
    ensures
        parse_roll(t) == Ok::<Roll, RollParseError>(r),
{
    let sh = RollShape {
        amount_end: a,
        percent: false,
        sides_end: e,
        exploding: r.exploding,
        select: match r.select {
            Some(sel) => Some((sel.action, sel.which)),
            None => None,
        },
        select_from: w,
        select_end: m,
    };
    assert(roll_shape(t) == Some(sh));
    assert(roll_of_shape(t, sh) == Ok::<Roll, RollFault>(r));
}

/// The first character of the select clause and the modifier together, if
/// there is one, is a letter of the clause or a sign, and no digit.
proof fn lemma_behind_sides(r: Roll, rest: Seq<char>)
    requires
        r.wf(),
        rest == select_letters(r.select) + select_digits(r.select) + modifier_text(
            r.modifier as int,
        ),
    ensures
        rest.len() > 0 ==> !crate::text::is_digit(rest[0]) && rest[0] != '!' && rest[0] != '%',
        r.select is None && rest.len() > 0 ==> rest[0] == '+' || rest[0] == '-',
        r.select matches Some(sel) ==> rest.len() > 0 && (rest[0] == 'k') == (sel.action
            == SelectAction::Keep) && (rest[0] == 'd') == (sel.action == SelectAction::Drop),
{
    let letters = select_letters(r.select);
    let digits = select_digits(r.select);
    let tail = modifier_text(r.modifier as int);
    if letters.len() > 0 {
        assert(rest[0] == letters[0]);
    } else {
        assert(digits.len() == 0);
        assert(rest =~= tail);
        if r.modifier != 0 {
            let magnitude = if r.modifier > 0 {
                r.modifier as nat
            } else {
                (-r.modifier) as nat
            };
            assert(tail[0] == '+' || tail[0] == '-');
        }
    }
}

/// The first character of the number of a select clause and the modifier
/// together, if there is one, is a digit or a sign.
proof fn lemma_behind_letters(r: Roll, rest: Seq<char>)
    requires
        r.wf(),
        rest == select_digits(r.select) + modifier_text(r.modifier as int),
    ensures
        rest.len() > 0 ==> rest[0] != 'h' && rest[0] != 'l',
        select_digits(r.select).len() == 0 && rest.len() > 0 ==> !crate::text::is_digit(rest[0]),
{
    let digits = select_digits(r.select);
    let tail = modifier_text(r.modifier as int);
    if digits.len() > 0 {
        crate::numeral::lemma_nat_digits(r.select->Some_0.amount as nat);
        assert(rest[0] == digits[0]);
        assert(crate::text::is_digit(digits[0]));
    } else {
        assert(rest =~= tail);
        if r.modifier != 0 {
            assert(tail[0] == '+' || tail[0] == '-');
        }
    }
}

/// Writing a roll in dice notation and reading the text back gives the roll.
pub proof fn lemma_roll_text_round_trip(r: Roll)
    requires
        r.wf(),
    ensures
        parse_roll(roll_text(r)) == Ok::<Roll, RollParseError>(r),
{
    let amount = if r.amount > 1 {
        nat_digits(r.amount as nat)
    } else {
        Seq::empty()
    };
    let sides = nat_digits(r.sides as nat);
    let bang = if r.exploding {
        seq!['!']
    } else {
        Seq::empty()
    };
    let letters = select_letters(r.select);
    let digits = select_digits(r.select);
    let tail = modifier_text(r.modifier as int);
    let t = roll_text(r);
    let a = amount.len() as int;
    let p = a + 1;
    let e = p + sides.len();
    let y = e + bang.len();
    let w = y + letters.len();
    let m = w + digits.len();
    let end = m + tail.len();
    assert(t =~= amount + seq!['d'] + sides + bang + letters + digits + tail) by {
        assert(select_text(r.select) =~= letters + digits);
    }
    lemma_pieces(t, amount, seq!['d'], sides, bang, letters, digits, tail);
    lemma_round_trip_of_pieces(t, r, a, e, w, m);
}

/// The round trip, for a text whose pieces lie where they are known to lie.
proof fn lemma_round_trip_of_pieces(t: Seq<char>, r: Roll, a: int, e: int, w: int, m: int)
    requires
        r.wf(),
        0 <= a < a + 1 < e,
        e <= w <= m <= t.len(),
        t.subrange(0, a) == if r.amount > 1 {
            nat_digits(r.amount as nat)
        } else {
            Seq::empty()
        },
        t.subrange(a, a + 1) == seq!['d'],
        t.subrange(a + 1, e) == nat_digits(r.sides as nat),
        ({
            let y = if r.exploding {
                e + 1
            } else {
                e
            };
            &&& e <= y <= w
            &&& t.subrange(e, y) == if r.exploding {
                seq!['!']
            } else {
                Seq::empty()
            }
            &&& t.subrange(y, w) == select_letters(r.select)
            &&& t.subrange(y, t.len() as int) == select_letters(r.select) + select_digits(r.select)
                + modifier_text(r.modifier as int)
        }),
        t.subrange(w, m) == select_digits(r.select),
        t.subrange(w, t.len() as int) == select_digits(r.select) + modifier_text(
            r.modifier as int,
        ),
        t.subrange(m, t.len() as int) == modifier_text(r.modifier as int),
    ensures
        parse_roll(t) == Ok::<Roll, RollParseError>(r),
{
    let end = t.len() as int;
    let y = if r.exploding {
        e + 1
    } else {
        e
    };
    let letters = select_letters(r.select);
    let digits = select_digits(r.select);
    let tail = modifier_text(r.modifier as int);
    lemma_behind_sides(r, letters + digits + tail);
    lemma_behind_letters(r, digits + tail);
    lemma_first(t, y, end, letters + digits + tail);
    lemma_first(t, w, end, digits + tail);
    lemma_first(t, y, w, letters);
    lemma_first(t, e, y, t.subrange(e, y));
    lemma_first(t, a, a + 1, seq!['d']);
    lemma_modifier_in_place(t, m, r.modifier);
    if digits.len() > 0 {
        lemma_digits_in_place(t, w, m, r.select->Some_0.amount as nat);
    } else {
        lemma_no_digits(t, w);
    }
    assert(select_in_place(t, r, y, w, m));
    assert(at(t, e, '!') == r.exploding);
    assert(e < end ==> !crate::text::is_digit(t[e]));
    lemma_digits_in_place(t, a + 1, e, r.sides as nat);
    assert(!at(t, a + 1, '%'));
    assert(t.subrange(0, a).len() == a);
    crate::numeral::lemma_nat_digits(r.amount as nat);
    if a > 0 {
        lemma_digits_in_place(t, 0, a, r.amount as nat);
    } else {
        lemma_no_digits(t, 0);
    }
    lemma_read_in_place(t, r, a, e, w, m);
}

} // verus!
