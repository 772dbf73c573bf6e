//! Decimal numerals: reading a run of digits as a number and writing a number
//! as digits, with the facts that tie the two together.

use crate::text::is_digit;
use vstd::prelude::*;

verus! {

/// Every character of `s` is a decimal digit.
pub open spec fn all_digits(s: Seq<char>) -> bool {
    forall|i: int| 0 <= i < s.len() ==> is_digit(#[trigger] s[i])
}

/// The number a digit stands for.
pub open spec fn digit_value(c: char) -> int {
    c as int - 48
}

/// The number that the decimal digits `s` write down; 0 for no digits.
pub open spec fn digits_value(s: Seq<char>) -> nat
    decreases s.len(),
{
    if s.len() == 0 {
        0
    } else {
        (digits_value(s.drop_last()) * 10 + digit_value(s.last())) as nat
    }
}

/// The digit that writes `d`, for `d` below ten.
pub open spec fn digit_char(d: int) -> char {
    ((d + 48) as u8) as char
}

/// The decimal digits of `n`, without leading zeros.
pub open spec fn nat_digits(n: nat) -> Seq<char>
    decreases n,
{
    if n < 10 {
        seq![digit_char(n as int)]
    } else {
        nat_digits(n / 10).push(digit_char((n % 10) as int))
    }
}

/// The decimal form of an integer: a minus sign for a negative one.
pub open spec fn int_digits(z: int) -> Seq<char> {
    if z < 0 {
        seq!['-'] + nat_digits((-z) as nat)
    } else {
        nat_digits(z as nat)
    }
}

/// The end of the run of digits that starts at `i`: the first index from `i`
/// on that holds no digit, or the length of `s`.
pub open spec fn digit_run(s: Seq<char>, i: int) -> int
    decreases s.len() - i,
{
    if 0 <= i < s.len() && is_digit(s[i]) {
        digit_run(s, i + 1)
    } else {
        i
    }
}

/// The run of digits at `i` lies within `s`, holds digits only, and ends
/// before a character that is no digit.
pub proof fn lemma_digit_run(s: Seq<char>, i: int)
    requires
        0 <= i <= s.len(),
    ensures
        i <= digit_run(s, i) <= s.len(),
        all_digits(s.subrange(i, digit_run(s, i))),
        digit_run(s, i) < s.len() ==> !is_digit(s[digit_run(s, i)]),
    decreases s.len() - i,
{
    if i < s.len() && is_digit(s[i]) {
        lemma_digit_run(s, i + 1);
        let j = digit_run(s, i);
        assert forall|k: int| 0 <= k < j - i implies is_digit(#[trigger] s.subrange(i, j)[k]) by {
            if k > 0 {
                assert(s.subrange(i, j)[k] == s.subrange(i + 1, j)[k - 1]);
            }
        }
    }
}

/// A run of digits that is followed by something else, or by nothing, is
/// the whole run.
pub proof fn lemma_digit_run_is(s: Seq<char>, i: int, j: int)
    requires
        0 <= i <= j <= s.len(),
        all_digits(s.subrange(i, j)),
        j < s.len() ==> !is_digit(s[j]),
    ensures
        digit_run(s, i) == j,
    decreases j - i,
{
    if i < j {
        assert(s.subrange(i, j)[0] == s[i]);
        assert forall|k: int| 0 <= k < j - (i + 1) implies is_digit(
            #[trigger] s.subrange(i + 1, j)[k],
        ) by {
            assert(s.subrange(i + 1, j)[k] == s.subrange(i, j)[k + 1]);
        }
        lemma_digit_run_is(s, i + 1, j);
    }
}

/// A longer run of digits writes a number that is no smaller.
pub proof fn lemma_digits_value_prefix(s: Seq<char>, k: int)
    requires
        all_digits(s),
        0 <= k <= s.len(),
    ensures
        digits_value(s.subrange(0, k)) <= digits_value(s),
    decreases s.len() - k,
{
    if k < s.len() {
        let t = s.drop_last();
        lemma_digits_value_prefix(t, k);
        assert(t.subrange(0, k) =~= s.subrange(0, k));
    } else {
        assert(s.subrange(0, k) =~= s);
    }
}

/// What `nat_digits` writes is made of digits and reads back as the number.
pub proof fn lemma_nat_digits(n: nat)
    ensures
        nat_digits(n).len() >= 1,
        all_digits(nat_digits(n)),
        digits_value(nat_digits(n)) == n,
    decreases n,
{
    if n < 10 {
        let s = nat_digits(n);
        assert(digits_value(s.drop_last()) == 0);
    } else {
        lemma_nat_digits(n / 10);
        let p = nat_digits(n / 10);
        let s = nat_digits(n);
        assert(s.drop_last() =~= p);
    }
}

/// The number a digit stands for.
pub fn digit_of_char(c: char) -> (d: u8)
    requires
        is_digit(c),
    ensures
        d as int == digit_value(c),
        d <= 9,
{
    (c as u32 - 48) as u8
}

/// The digit that writes a number below ten.
pub fn char_of_digit(d: u8) -> (c: char)
    requires
        d <= 9,
    ensures
        c == digit_char(d as int),
        is_digit(c),
{
    (d + 48) as char
}

/// The end of the run of digits of `v` that starts at `i`.
pub fn scan_digits(v: &Vec<char>, i: usize) -> (j: usize)
    requires
        i <= v.len(),
    ensures
        j as int == digit_run(v@, i as int),
        i <= j <= v.len(),
{
    let mut j: usize = i;
    while j < v.len() && crate::text::char_is_digit(v[j])
        invariant
            i <= j <= v.len(),
            digit_run(v@, i as int) == digit_run(v@, j as int),
        decreases v.len() - j,
    {
        j += 1;
    }
    j
}

/// Reads the digits `v[lo..hi]` as a number: the number, or `None` where it
/// is above `limit`.
pub fn parse_digits(v: &Vec<char>, lo: usize, hi: usize, limit: u64) -> (r: Option<u64>)
    requires
        lo <= hi <= v.len(),
        all_digits(v@.subrange(lo as int, hi as int)),
    ensures
        r == if digits_value(v@.subrange(lo as int, hi as int)) <= limit {
            Some(digits_value(v@.subrange(lo as int, hi as int)) as u64)
        } else {
            None
        },
{
    let ghost whole = v@.subrange(lo as int, hi as int);
    let mut acc: u64 = 0;
    let mut i: usize = lo;
    while i < hi
        invariant
            lo <= i <= hi <= v.len(),
            whole == v@.subrange(lo as int, hi as int),
            all_digits(whole),
            acc == digits_value(whole.subrange(0, i - lo)),
            acc <= limit,
        decreases hi - i,
    {
        assert(whole[i - lo] == v@[i as int]);
        let d = digit_of_char(v[i]);
        let next: u128 = acc as u128 * 10 + d as u128;
        proof {
            let t = whole.subrange(0, i - lo + 1);
            assert(t.drop_last() =~= whole.subrange(0, i - lo));
            lemma_digits_value_prefix(whole, i - lo + 1);
        }
        if next > limit as u128 {
            return None;
        }
        acc = next as u64;
        i += 1;
    }
    assert(whole.subrange(0, hi - lo) =~= whole);
    Some(acc)
}

/// Appends the decimal digits of `n`.
pub fn push_nat(out: &mut Vec<char>, n: u64)
    ensures
        final(out)@ == old(out)@ + nat_digits(n as nat),
    decreases n,
{
    if n >= 10 {
        push_nat(out, n / 10);
    }
    out.push(char_of_digit((n % 10) as u8));
}

/// Appends the decimal form of `z`.
pub fn push_int(out: &mut Vec<char>, z: i64)
    ensures
        final(out)@ == old(out)@ + int_digits(z as int),
{
    if z < 0 {
        out.push('-');
        let m: u64 = if z == i64::MIN {
            9223372036854775808u64
        } else {
            (-z) as u64
        };
        push_nat(out, m);
    } else {
        push_nat(out, z as u64);
    }
}

} // verus!
