//! Characters, decimal numerals and the conversions between `str`, `String` and
//! character vectors that the rest of the library scans and builds.

use vstd::prelude::*;

verus! {

/// `String::push` appends exactly the given character.
pub assume_specification[ String::push ](s: &mut String, c: char)
    ensures
        final(s)@ == old(s)@.push(c),
;

/// The characters of a string slice, in order.
pub fn chars_of(s: &str) -> (v: Vec<char>)
    ensures
        v@ == s@,
{
    let mut v: Vec<char> = Vec::new();
    for c in it: s.chars()
        invariant
            it.seq() == s@,
            v@ == s@.subrange(0, it.index() as int),
    {
        v.push(c);
    }
    v
}

/// The string made of the characters `v[lo..hi]`.
pub fn string_of_range(v: &Vec<char>, lo: usize, hi: usize) -> (s: String)
    requires
        lo <= hi <= v.len(),
    ensures
        s@ == v@.subrange(lo as int, hi as int),
{
    let mut s = String::new();
    let mut i: usize = lo;
    while i < hi
        invariant
            lo <= i <= hi <= v.len(),
            s@ == v@.subrange(lo as int, i as int),
        decreases hi - i,
    {
        s.push(v[i]);
        i += 1;
    }
    s
}

/// The string made of all the characters of `v`.
pub fn string_of(v: &Vec<char>) -> (s: String)
    ensures
        s@ == v@,
{
    let s = string_of_range(v, 0, v.len());
    s
}

/// An ASCII decimal digit.
pub open spec fn is_digit(c: char) -> bool {
    '0' <= c <= '9'
}

/// Whether a character is an ASCII decimal digit.
pub fn char_is_digit(c: char) -> (b: bool)
    ensures
        b == is_digit(c),
{
    c >= '0' && c <= '9'
}

/// White space as `char::is_whitespace` and `str::trim` understand it: the
/// code points with the Unicode property `White_Space`.
pub open spec fn is_space(c: char) -> bool {
    let u = c as u32;
    ||| 0x09 <= u <= 0x0D
    ||| u == 0x20
    ||| u == 0x85
    ||| u == 0xA0
    ||| u == 0x1680
    ||| 0x2000 <= u <= 0x200A
    ||| u == 0x2028
    ||| u == 0x2029
    ||| u == 0x202F
    ||| u == 0x205F
    ||| u == 0x3000
}

/// Whether a character is white space.
pub fn char_is_space(c: char) -> (b: bool)
    ensures
        b == is_space(c),
{
    let u: u32 = c as u32;
    (0x09 <= u && u <= 0x0D) || u == 0x20 || u == 0x85 || u == 0xA0 || u == 0x1680 || (0x2000 <= u
        && u <= 0x200A) || u == 0x2028 || u == 0x2029 || u == 0x202F || u == 0x205F || u == 0x3000
}

/// The first index in `lo..hi` whose character is not white space, or `hi`.
pub open spec fn skip_spaces(s: Seq<char>, lo: int, hi: int) -> int
    decreases hi - lo,
{
    if lo < hi && 0 <= lo < s.len() && is_space(s[lo]) {
        skip_spaces(s, lo + 1, hi)
    } else {
        lo
    }
}

/// The end of `lo..hi` once the white space at its back is left out.
pub open spec fn drop_spaces(s: Seq<char>, lo: int, hi: int) -> int
    decreases hi - lo,
{
    if lo < hi && 0 < hi <= s.len() && is_space(s[hi - 1]) {
        drop_spaces(s, lo, hi - 1)
    } else {
        hi
    }
}

/// The bounds of `s[lo..hi]` without the white space around it.
pub open spec fn trim_bounds(s: Seq<char>, lo: int, hi: int) -> (int, int) {
    let a = skip_spaces(s, lo, hi);
    (a, drop_spaces(s, a, hi))
}

/// `s` without the white space around it.
pub open spec fn trimmed(s: Seq<char>) -> Seq<char> {
    let (a, b) = trim_bounds(s, 0, s.len() as int);
    s.subrange(a, b)
}

/// Trims `v[lo..hi]`: the bounds of what is left.
pub fn trim_range(v: &Vec<char>, lo: usize, hi: usize) -> (r: (usize, usize))
    requires
        lo <= hi <= v.len(),
    ensures
        (r.0 as int, r.1 as int) == trim_bounds(v@, lo as int, hi as int),
        lo <= r.0 <= r.1 <= hi,
{
    let mut a: usize = lo;
    while a < hi && char_is_space(v[a])
        invariant
            lo <= a <= hi <= v.len(),
            skip_spaces(v@, lo as int, hi as int) == skip_spaces(v@, a as int, hi as int),
        decreases hi - a,
    {
        a += 1;
    }
    let mut b: usize = hi;
    while a < b && char_is_space(v[b - 1])
        invariant
            a <= b <= hi <= v.len(),
            drop_spaces(v@, a as int, hi as int) == drop_spaces(v@, a as int, b as int),
        decreases b - a,
    {
        b -= 1;
    }
    (a, b)
}

} // verus!

verus! {

/// The number of bytes that UTF-8 takes for one character.
pub open spec fn utf8_width(c: char) -> nat {
    let u = c as u32;
    if u < 0x80 {
        1
    } else if u < 0x800 {
        2
    } else if u < 0x10000 {
        3
    } else {
        4
    }
}

/// The number of bytes that UTF-8 takes for `s`.
pub open spec fn utf8_len(s: Seq<char>) -> nat
    decreases s.len(),
{
    if s.len() == 0 {
        0
    } else {
        utf8_width(s[0]) + utf8_len(s.drop_first())
    }
}

/// The byte at which the character of index `i` starts in the UTF-8 form of `s`.
pub open spec fn byte_offset(s: Seq<char>, i: int) -> nat {
    utf8_len(s.subrange(0, i))
}

/// `utf8_len` counts the bytes of the encoding that `str` uses.
pub proof fn lemma_utf8_len_encoded(s: Seq<char>)
    ensures
        utf8_len(s) == vstd::utf8::encode_utf8(s).len(),
    decreases s.len(),
{
    if s.len() > 0 {
        vstd::utf8::char_is_scalar(s[0]);
        lemma_utf8_len_encoded(s.drop_first());
    }
}

/// Two texts one after the other take the bytes of both.
pub proof fn lemma_utf8_len_concat(a: Seq<char>, b: Seq<char>)
    ensures
        utf8_len(a + b) == utf8_len(a) + utf8_len(b),
    decreases a.len(),
{
    if a.len() > 0 {
        assert((a + b).drop_first() =~= a.drop_first() + b);
        lemma_utf8_len_concat(a.drop_first(), b);
    }
}

/// One character further, the byte offset grows by that character's width,
/// and no offset passes the length of the whole.
pub proof fn lemma_byte_offset_step(s: Seq<char>, i: int)
    requires
        0 <= i < s.len(),
    ensures
        byte_offset(s, i + 1) == byte_offset(s, i) + utf8_width(s[i]),
        byte_offset(s, i + 1) <= utf8_len(s),
{
    let a = s.subrange(0, i);
    let b = seq![s[i]];
    assert(s.subrange(0, i + 1) =~= a + b);
    lemma_utf8_len_concat(a, b);
    assert(utf8_len(b.drop_first()) == 0);
    let rest = s.subrange(i + 1, s.len() as int);
    assert(s =~= s.subrange(0, i + 1) + rest);
    lemma_utf8_len_concat(s.subrange(0, i + 1), rest);
}

/// The number of bytes that UTF-8 takes for a character.
pub fn char_utf8_width(c: char) -> (w: usize)
    ensures
        w == utf8_width(c),
        1 <= w <= 4,
{
    let u: u32 = c as u32;
    if u < 0x80 {
        1
    } else if u < 0x800 {
        2
    } else if u < 0x10000 {
        3
    } else {
        4
    }
}

} // verus!

verus! {

/// Appends the characters of a string slice.
pub fn push_str(out: &mut Vec<char>, s: &str)
    ensures
        final(out)@ == old(out)@ + s@,
{
    let mut v = chars_of(s);
    out.append(&mut v);
}

} // verus!

verus! {

/// Where the pieces lie in a text that is made of seven.
pub proof fn lemma_pieces(
    t: Seq<char>,
    first: Seq<char>,
    second: Seq<char>,
    third: Seq<char>,
    fourth: Seq<char>,
    fifth: Seq<char>,
    sixth: Seq<char>,
    seventh: Seq<char>,
)
    requires
        t == first + second + third + fourth + fifth + sixth + seventh,
    ensures
        ({
            let at_second = first.len() as int;
            let at_third = at_second + second.len();
            let at_fourth = at_third + third.len();
            let at_fifth = at_fourth + fourth.len();
            let at_sixth = at_fifth + fifth.len();
            let at_seventh = at_sixth + sixth.len();
            let at_end = at_seventh + seventh.len();
            &&& t.len() == at_end
            &&& t.subrange(0, at_second) == first
            &&& t.subrange(at_second, at_third) == second
            &&& t.subrange(at_third, at_fourth) == third
            &&& t.subrange(at_fourth, at_fifth) == fourth
            &&& t.subrange(at_fifth, at_sixth) == fifth
            &&& t.subrange(at_sixth, at_seventh) == sixth
            &&& t.subrange(at_seventh, at_end) == seventh
            &&& t.subrange(at_fifth, at_end) == fifth + sixth + seventh
            &&& t.subrange(at_sixth, at_end) == sixth + seventh
        }),
{
}

/// The first character of a piece of a text.
pub proof fn lemma_first(t: Seq<char>, i: int, j: int, piece: Seq<char>)
    requires
        0 <= i <= j <= t.len(),
        t.subrange(i, j) == piece,
    ensures
        piece.len() == j - i,
        piece.len() > 0 ==> t[i] == piece[0],
        piece.len() > 1 ==> t[i + 1] == piece[1],
{
}

} // verus!

verus! {

/// `s` holds the character `c` at index `i`.
pub open spec fn at(s: Seq<char>, i: int, c: char) -> bool {
    0 <= i < s.len() && s[i] == c
}

/// Whether two vectors hold the same characters.
pub fn same_chars(a: &Vec<char>, b: &Vec<char>) -> (r: bool)
    ensures
        r == (a@ == b@),
{
    if a.len() != b.len() {
        return false;
    }
    let mut i: usize = 0;
    while i < a.len()
        invariant
            a.len() == b.len(),
            i <= a.len(),
            forall|k: int| 0 <= k < i ==> a@[k] == b@[k],
        decreases a.len() - i,
    {
        if a[i] != b[i] {
            return false;
        }
        i += 1;
    }
    assert(a@ =~= b@);
    true
}

/// Whether the text `v` is the word `word`.
pub fn is_word(v: &Vec<char>, word: &str) -> (r: bool)
    ensures
        r == (v@ == word@),
{
    let w = chars_of(word);
    same_chars(v, &w)
}

} // verus!
