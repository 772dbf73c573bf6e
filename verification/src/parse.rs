//! Splitting a line into entries, an options clause and statement ends.

use crate::text::{
    byte_offset, char_utf8_width, chars_of, lemma_byte_offset_step, lemma_utf8_len_encoded,
    string_of_range, trim_bounds, trim_range, utf8_len,
};
use vstd::prelude::*;

verus! {

/// The three characters that structure a line.
#[derive(Debug, Clone, Copy, PartialEq, Eq, Structural)]
pub struct Separators {
    /// Ends a statement.
    pub stmt: char,
    /// Parts one entry from the next.
    pub entry: char,
    /// Starts the options of a statement.
    pub options: char,
}

impl Separators {
    /// The separators `;`, `,` and `/`.
    pub open spec fn standard() -> Separators {
        Separators { stmt: ';', entry: ',', options: '/' }
    }
}

impl Default for Separators {
    fn default() -> (r: Self)
        ensures
            r == Separators::standard(),
    {
        Separators { stmt: ';', entry: ',', options: '/' }
    }
}

/// A kind of bracket.
#[derive(Debug, Clone, Copy, PartialEq, Eq, Structural)]
pub enum Bracket {
    Round,
    Square,
    Curly,
}

/// Why a line cannot be split. Offsets count bytes from the start of the line.
#[derive(Debug, Clone, Copy, PartialEq, Eq, Structural)]
pub enum SplitPartsError {
    /// The quote that opens at `start` is never closed.
    UnclosedString { start: usize },
    /// The closing bracket at `offset` has no bracket open before it.
    UnopenedBracket { offset: usize, kind: Bracket },
    /// The closing bracket at `offset` cannot close the bracket that is open.
    MismatchedBracket { offset: usize, kind: Bracket },
    /// The bracket that opens at `offset` is still open at the end of the line.
    UnclosedBracket { offset: usize, kind: Bracket },
}

/// One part of a line.
#[derive(Debug, Clone, PartialEq, Eq)]
pub enum QueryPart {
    /// An entry: trimmed, and without its quotes if it was one quoted string.
    Entry(String),
    /// The text of an options clause, trimmed.
    Options(String),
    /// The end of a statement.
    EndStmt,
}

/// A part of a line, with its text as a sequence of characters.
pub enum Part {
    Entry(Seq<char>),
    Options(Seq<char>),
    EndStmt,
}

impl View for QueryPart {
    type V = Part;

    open spec fn view(&self) -> Part {
        match self {
            QueryPart::Entry(t) => Part::Entry(t@),
            QueryPart::Options(t) => Part::Options(t@),
            QueryPart::EndStmt => Part::EndStmt,
        }
    }
}

/// The parts of a vector, each by its view.
pub open spec fn parts_view(parts: Seq<QueryPart>) -> Seq<Part> {
    parts.map_values(|p: QueryPart| p@)
}

/// The kind of bracket that `c` opens.
pub open spec fn opening(c: char) -> Option<Bracket> {
    if c == '(' {
        Some(Bracket::Round)
    } else if c == '[' {
        Some(Bracket::Square)
    } else if c == '{' {
        Some(Bracket::Curly)
    } else {
        None
    }
}

/// The kind of bracket that `c` closes.
pub open spec fn closing(c: char) -> Option<Bracket> {
    if c == ')' {
        Some(Bracket::Round)
    } else if c == ']' {
        Some(Bracket::Square)
    } else if c == '}' {
        Some(Bracket::Curly)
    } else {
        None
    }
}

/// Round and square brackets close each other; a curly one closes only a curly one.
pub open spec fn brackets_match(open: Bracket, close: Bracket) -> bool {
    (open == Bracket::Curly) == (close == Bracket::Curly)
}

/// The bounds of the entry written in `s[lo..hi]`: the slice is trimmed, and
/// where what is left is one quoted string, with a quote at both ends and
/// none between, the quotes are left out.
pub open spec fn entry_bounds(s: Seq<char>, lo: int, hi: int) -> (int, int) {
    let (a, b) = trim_bounds(s, lo, hi);
    if b - a >= 2 && s[a] == '"' && s[b - 1] == '"' && !s.subrange(a + 1, b - 1).contains('"') {
        (a + 1, b - 1)
    } else {
        (a, b)
    }
}

/// The entry written in `s[lo..hi]`.
pub open spec fn entry_text(s: Seq<char>, lo: int, hi: int) -> Seq<char> {
    let (a, b) = entry_bounds(s, lo, hi);
    s.subrange(a, b)
}

/// The options written in `s[lo..hi]`: the slice, trimmed.
pub open spec fn options_text(s: Seq<char>, lo: int, hi: int) -> Seq<char> {
    let (a, b) = trim_bounds(s, lo, hi);
    s.subrange(a, b)
}

/// The first index from `from` on at which `s` holds `c`, or the length of `s`.
pub open spec fn find_char(s: Seq<char>, c: char, from: int) -> int
    decreases s.len() - from,
{
    if 0 <= from < s.len() && s[from] != c {
        find_char(s, c, from + 1)
    } else {
        from
    }
}

/// `parts`, then what `rest` holds; the error of `rest` if it is one.
pub open spec fn prepend(parts: Seq<Part>, rest: Result<Seq<Part>, SplitPartsError>) -> Result<
    Seq<Part>,
    SplitPartsError,
> {
    match rest {
        Ok(more) => Ok(parts + more),
        Err(e) => Err(e),
    }
}

/// The parts of `s` from index `i` on, where the entry being read began at
/// `start`, `stack` holds the brackets that are open, innermost last, each
/// with the byte offset at which it opened, and `quote` the byte offset of
/// the quote that is open, if one is.
///
/// Inside a quoted string nothing but the closing quote has a meaning.
/// Outside, a separator acts only where no bracket is open: the entry
/// separator ends the entry; the statement separator ends the entry and the
/// statement; the options separator ends the entry, and what follows, up to
/// the next statement separator or the end of the line, is the options
/// clause. The end of the line ends the entry that is being read.
pub open spec fn scan(
    s: Seq<char>,
    sep: Separators,
    i: int,
    start: int,
    stack: Seq<(Bracket, usize)>,
    quote: Option<usize>,
) -> Result<Seq<Part>, SplitPartsError>
    decreases s.len() - i,
{
    if i < 0 || i >= s.len() {
        if quote is Some {
            Err(SplitPartsError::UnclosedString { start: quote->Some_0 })
        } else if stack.len() > 0 {
            Err(SplitPartsError::UnclosedBracket { offset: stack.last().1, kind: stack.last().0 })
        } else {
            Ok(seq![Part::Entry(entry_text(s, start, s.len() as int))])
        }
    } else {
        let c = s[i];
        let here = byte_offset(s, i) as usize;
        if quote is Some {
            scan(
                s,
                sep,
                i + 1,
                start,
                stack,
                if c == '"' {
                    None
                } else {
                    quote
                },
            )
        } else if stack.len() == 0 && c == sep.stmt {
            prepend(
                seq![Part::Entry(entry_text(s, start, i)), Part::EndStmt],
                scan(s, sep, i + 1, i + 1, stack, quote),
            )
        } else if stack.len() == 0 && c == sep.entry {
            prepend(
                seq![Part::Entry(entry_text(s, start, i))],
                scan(s, sep, i + 1, i + 1, stack, quote),
            )
        } else if stack.len() == 0 && c == sep.options {
            let j = find_char(s, sep.stmt, i + 1);
            if i < j < s.len() {
                prepend(
                    seq![
                        Part::Entry(entry_text(s, start, i)),
                        Part::Options(options_text(s, i + 1, j)),
                        Part::EndStmt,
                    ],
                    scan(s, sep, j + 1, j + 1, stack, quote),
                )
            } else {
                Ok(
                    seq![
                        Part::Entry(entry_text(s, start, i)),
                        Part::Options(options_text(s, i + 1, s.len() as int)),
                    ],
                )
            }
        } else if c == '"' {
            scan(s, sep, i + 1, start, stack, Some(here))
        } else if opening(c) is Some {
            scan(s, sep, i + 1, start, stack.push((opening(c)->Some_0, here)), quote)
        } else if closing(c) is Some {
            let kind = closing(c)->Some_0;
            if stack.len() == 0 {
                Err(SplitPartsError::UnopenedBracket { offset: here, kind })
            } else if brackets_match(stack.last().0, kind) {
                scan(s, sep, i + 1, start, stack.drop_last(), quote)
            } else {
                Err(SplitPartsError::MismatchedBracket { offset: here, kind })
            }
        } else {
            scan(s, sep, i + 1, start, stack, quote)
        }
    }
}

/// The parts of the line `s`, or why it has none.
pub open spec fn split_parts(s: Seq<char>, sep: Separators) -> Result<Seq<Part>, SplitPartsError> {
    scan(s, sep, 0, 0, Seq::empty(), None)
}

proof fn lemma_parts_view_push(parts: Seq<QueryPart>, p: QueryPart)
    ensures
        parts_view(parts.push(p)) == parts_view(parts).push(p@),
{
}

proof fn lemma_prepend_twice(
    a: Seq<Part>,
    b: Seq<Part>,
    rest: Result<Seq<Part>, SplitPartsError>,
)
    ensures
        prepend(a, prepend(b, rest)) == prepend(a + b, rest),
{
    if let Ok(more) = rest {
        assert(a + (b + more) =~= (a + b) + more);
    }
}

fn bracket_opened(c: char) -> (r: Option<Bracket>)
    ensures
        r == opening(c),
{
    if c == '(' {
        Some(Bracket::Round)
    } else if c == '[' {
        Some(Bracket::Square)
    } else if c == '{' {
        Some(Bracket::Curly)
    } else {
        None
    }
}

fn bracket_closed(c: char) -> (r: Option<Bracket>)
    ensures
        r == closing(c),
{
    if c == ')' {
        Some(Bracket::Round)
    } else if c == ']' {
        Some(Bracket::Square)
    } else if c == '}' {
        Some(Bracket::Curly)
    } else {
        None
    }
}

fn is_curly(b: Bracket) -> (r: bool)
    ensures
        r == (b == Bracket::Curly),
{
    match b {
        Bracket::Curly => true,
        _ => false,
    }
}

/// The entry written in `v[lo..hi]`.
fn entry_string(v: &Vec<char>, lo: usize, hi: usize) -> (t: String)
    requires
        lo <= hi <= v.len(),
    ensures
        t@ == entry_text(v@, lo as int, hi as int),
{
    let (a, b) = trim_range(v, lo, hi);
    if b - a >= 2 && v[a] == '"' && v[b - 1] == '"' {
        let ghost inner = v@.subrange(a + 1, b - 1);
        let mut k: usize = a + 1;
        while k < b - 1
            invariant
                a + 1 <= k <= b - 1,
                b <= v.len(),
                (a as int, b as int) == trim_bounds(v@, lo as int, hi as int),
                inner == v@.subrange(a + 1, b - 1),
                forall|j: int| 0 <= j < k - (a + 1) ==> inner[j] != '"',
            decreases b - k,
        {
            if v[k] == '"' {
                assert(inner[k - (a + 1)] == '"');
                return string_of_range(v, a, b);
            }
            k += 1;
        }
        return string_of_range(v, a + 1, b - 1);
    }
    string_of_range(v, a, b)
}

/// The first statement separator from `from` on, with its byte offset.
fn find_stmt(v: &Vec<char>, c: char, from: usize, off: usize) -> (r: (usize, usize))
    requires
        from <= v.len(),
        off == byte_offset(v@, from as int),
        utf8_len(v@) <= usize::MAX,
    ensures
        r.0 == find_char(v@, c, from as int),
        from <= r.0 <= v.len(),
        r.1 == byte_offset(v@, r.0 as int),
{
    let mut j: usize = from;
    let mut at: usize = off;
    while j < v.len() && v[j] != c
        invariant
            from <= j <= v.len(),
            at == byte_offset(v@, j as int),
            utf8_len(v@) <= usize::MAX,
            find_char(v@, c, from as int) == find_char(v@, c, j as int),
        decreases v.len() - j,
    {
        proof {
            lemma_byte_offset_step(v@, j as int);
        }
        at += char_utf8_width(v[j]);
        j += 1;
    }
    (j, at)
}

/// Splits a line into its parts, in order, or says why it cannot be split.
pub fn split_line_parts(line: &str, sep: Separators) -> (r: Result<
    Vec<QueryPart>,
    SplitPartsError,
>)
    ensures
        match r {
            Ok(parts) => split_parts(line@, sep) == Ok::<Seq<Part>, SplitPartsError>(
                parts_view(parts@),
            ),
            Err(e) => split_parts(line@, sep) == Err::<Seq<Part>, SplitPartsError>(e),
        },
{
    let v = chars_of(line);
    let total = line.as_bytes().len();
    proof {
        lemma_utf8_len_encoded(line@);
    }
    let n = v.len();
    let mut parts: Vec<QueryPart> = Vec::new();
    let mut stack: Vec<(Bracket, usize)> = Vec::new();
    let mut quote: Option<usize> = None;
    let mut i: usize = 0;
    let mut off: usize = 0;
    let mut start: usize = 0;
    while i < n
        invariant
            n == v.len(),
            v@ == line@,
            utf8_len(v@) == total,
            start <= i <= n,
            off == byte_offset(v@, i as int),
            split_parts(v@, sep) == prepend(
                parts_view(parts@),
                scan(v@, sep, i as int, start as int, stack@, quote),
            ),
        decreases n - i,
    {
        let c = v[i];
        let w = char_utf8_width(c);
        let ghost before = parts_view(parts@);
        proof {
            lemma_byte_offset_step(v@, i as int);
        }
        let mut next: usize = i + 1;
        let mut next_off: usize = off + w;
        if quote.is_some() {
            if c == '"' {
                quote = None;
            }
        } else if stack.len() == 0 && c == sep.stmt {
            let t = QueryPart::Entry(entry_string(&v, start, i));
            proof {
                lemma_parts_view_push(parts@, t);
                lemma_parts_view_push(parts@.push(t), QueryPart::EndStmt);
                let rest = scan(v@, sep, i + 1, i + 1, stack@, quote);
                lemma_prepend_twice(before, seq![t@, Part::EndStmt], rest);
                assert(before.push(t@).push(Part::EndStmt) =~= before + seq![t@, Part::EndStmt]);
            }
            parts.push(t);
            parts.push(QueryPart::EndStmt);
            start = i + 1;
        } else if stack.len() == 0 && c == sep.entry {
            let t = QueryPart::Entry(entry_string(&v, start, i));
            proof {
                lemma_parts_view_push(parts@, t);
                let rest = scan(v@, sep, i + 1, i + 1, stack@, quote);
                lemma_prepend_twice(before, seq![t@], rest);
                assert(before.push(t@) =~= before + seq![t@]);
            }
            parts.push(t);
            start = i + 1;
        } else if stack.len() == 0 && c == sep.options {
            let t = QueryPart::Entry(entry_string(&v, start, i));
            let (j, off_j) = find_stmt(&v, sep.stmt, i + 1, off + w);
            let (a, b) = trim_range(&v, i + 1, j);
            let o = QueryPart::Options(string_of_range(&v, a, b));
            proof {
                lemma_parts_view_push(parts@, t);
                lemma_parts_view_push(parts@.push(t), o);
            }
            parts.push(t);
            parts.push(o);
            if j < n {
                proof {
                    lemma_parts_view_push(parts@, QueryPart::EndStmt);
                    lemma_byte_offset_step(v@, j as int);
                    let rest = scan(v@, sep, j + 1, j + 1, stack@, quote);
                    lemma_prepend_twice(before, seq![t@, o@, Part::EndStmt], rest);
                    assert(before.push(t@).push(o@).push(Part::EndStmt) =~= before + seq![
                        t@,
                        o@,
                        Part::EndStmt,
                    ]);
                }
                parts.push(QueryPart::EndStmt);
                next = j + 1;
                next_off = off_j + char_utf8_width(v[j]);
                start = j + 1;
            } else {
                proof {
                    assert(before.push(t@).push(o@) =~= before + seq![t@, o@]);
                }
                return Ok(parts);
            }
        } else if c == '"' {
            quote = Some(off);
        } else if let Some(kind) = bracket_opened(c) {
            stack.push((kind, off));
        } else if let Some(kind) = bracket_closed(c) {
            if stack.len() == 0 {
                return Err(SplitPartsError::UnopenedBracket { offset: off, kind });
            }
            let top = stack[stack.len() - 1];
            if is_curly(top.0) == is_curly(kind) {
                stack.pop();
            } else {
                return Err(SplitPartsError::MismatchedBracket { offset: off, kind });
            }
        }
        i = next;
        off = next_off;
    }
    if let Some(q) = quote {
        return Err(SplitPartsError::UnclosedString { start: q });
    }
    if stack.len() > 0 {
        let top = stack[stack.len() - 1];
        return Err(SplitPartsError::UnclosedBracket { offset: top.1, kind: top.0 });
    }
    let t = QueryPart::Entry(entry_string(&v, start, n));
    proof {
        lemma_parts_view_push(parts@, t);
        assert(parts_view(parts@).push(t@) =~= parts_view(parts@) + seq![t@]);
    }
    parts.push(t);
    Ok(parts)
}

/// An options clause is the last part, or the end of a statement follows it.
pub open spec fn options_end_statements(parts: Seq<Part>) -> bool {
    forall|i: int|
        0 <= i < parts.len() && (#[trigger] parts[i]) is Options ==> i == parts.len() - 1 || parts[i
            + 1] is EndStmt
}

proof fn lemma_scan_options(
    s: Seq<char>,
    sep: Separators,
    i: int,
    start: int,
    stack: Seq<(Bracket, usize)>,
    quote: Option<usize>,
)
    requires
        0 <= i,
    ensures
        scan(s, sep, i, start, stack, quote) matches Ok(parts) ==> options_end_statements(parts)
            && parts.len() > 0 && parts[0] is Entry,
    decreases s.len() - i,
{
    if i < s.len() {
        let c = s[i];
        let here = byte_offset(s, i) as usize;
        if quote is Some {
            lemma_scan_options(
                s,
                sep,
                i + 1,
                start,
                stack,
                if c == '"' {
                    None
                } else {
                    quote
                },
            );
        } else if stack.len() == 0 && c == sep.stmt {
            lemma_scan_options(s, sep, i + 1, i + 1, stack, quote);
            if let Ok(rest) = scan(s, sep, i + 1, i + 1, stack, quote) {
                let head = seq![Part::Entry(entry_text(s, start, i)), Part::EndStmt];
                let parts = head + rest;
            }
        } else if stack.len() == 0 && c == sep.entry {
            lemma_scan_options(s, sep, i + 1, i + 1, stack, quote);
            if let Ok(rest) = scan(s, sep, i + 1, i + 1, stack, quote) {
                let head = seq![Part::Entry(entry_text(s, start, i))];
                let parts = head + rest;
            }
        } else if stack.len() == 0 && c == sep.options {
            let j = find_char(s, sep.stmt, i + 1);
            if i < j < s.len() {
                lemma_scan_options(s, sep, j + 1, j + 1, stack, quote);
                if let Ok(rest) = scan(s, sep, j + 1, j + 1, stack, quote) {
                    let head = seq![
                        Part::Entry(entry_text(s, start, i)),
                        Part::Options(options_text(s, i + 1, j)),
                        Part::EndStmt,
                    ];
                    let parts = head + rest;
                }
            }
        } else if c == '"' {
            lemma_scan_options(s, sep, i + 1, start, stack, Some(here));
        } else if opening(c) is Some {
            lemma_scan_options(
                s,
                sep,
                i + 1,
                start,
                stack.push((opening(c)->Some_0, here)),
                quote,
            );
        } else if closing(c) is Some {
            if stack.len() > 0 && brackets_match(stack.last().0, closing(c)->Some_0) {
                lemma_scan_options(s, sep, i + 1, start, stack.drop_last(), quote);
            }
        } else {
            lemma_scan_options(s, sep, i + 1, start, stack, quote);
        }
    }
}

/// Among the parts of a line, an options clause is the last part or stands
/// right before the end of its statement: no statement has two.
pub proof fn lemma_one_options_clause(s: Seq<char>, sep: Separators)
    ensures
        split_parts(s, sep) matches Ok(parts) ==> options_end_statements(parts),
{
    lemma_scan_options(s, sep, 0, 0, Seq::empty(), None);
}

} // verus!
