//! The interpreter: the entries that wait for the end of their statement,
//! the generator, and what a statement gives.

use crate::entry::{entry_of, sample_of, value_text, Entry, EntryView, Sample, SampleView};
use crate::error::Error;
use crate::options::{parse_options, ChooseOptions, EvalExpr};
use crate::parse::{
    find_char, parts_view, split_line_parts, split_parts, Part, QueryPart, Separators,
};
use crate::rng::{entropy_rng, seeded_generator, seeded_rng};
use crate::select::{draws_nothing, is_selection, lemma_all_in_order, select};
use crate::text::{chars_of, string_of_range, trim_range, trimmed};
use vstd::prelude::*;

verus! {

/// What a statement gave: its samples, in order.
#[derive(Debug, PartialEq, Eq)]
pub struct StmtOutput(pub Vec<Sample>);

/// The samples of a vector, each by its view.
pub open spec fn samples_view(samples: Seq<Sample>) -> Seq<SampleView> {
    samples.map_values(|s: Sample| s@)
}

impl View for StmtOutput {
    type V = Seq<SampleView>;

    open spec fn view(&self) -> Seq<SampleView> {
        samples_view(self.0@)
    }
}

impl Clone for StmtOutput {
    fn clone(&self) -> (r: Self)
        ensures
            r@ == self@,
    {
        let mut samples: Vec<Sample> = Vec::new();
        let mut i: usize = 0;
        while i < self.0.len()
            invariant
                i <= self.0@.len(),
                samples_view(samples@) == samples_view(self.0@.subrange(0, i as int)),
            decreases self.0@.len() - i,
        {
            let s = self.0[i].clone();
            samples.push(s);
            i += 1;
            assert(samples_view(self.0@.subrange(0, i as int)) =~= samples_view(
                self.0@.subrange(0, i - 1),
            ).push(self.0@[i - 1]@));
        }
        StmtOutput(samples)
    }
}

/// The texts of a vector of strings.
pub open spec fn texts(v: Seq<String>) -> Seq<Seq<char>> {
    v.map_values(|s: String| s@)
}

/// Whether the entries of a statement are read as expressions: as the
/// options say, and where they leave it open, if and only if there is
/// exactly one entry.
pub open spec fn evaluates(options: ChooseOptions, count: nat) -> bool {
    match options.eval_expr {
        EvalExpr::Auto => count == 1,
        EvalExpr::Custom(b) => b,
    }
}

/// The entry that a pending text is taken as.
pub open spec fn resolve(text: Seq<char>, eval: bool) -> Result<EntryView, Error> {
    if eval {
        entry_of(text)
    } else {
        Ok(EntryView::Text(text))
    }
}

/// The values of samples as they are written, one text for each.
pub open spec fn values_of(samples: Seq<SampleView>) -> Seq<Seq<char>> {
    samples.map_values(|s: SampleView| value_text(s))
}

/// The statement over the entries `pending` took those at `ids`, which gave
/// `samples`, one each, in that order; it put out `out` and left `after`
/// pending: the samples went out and nothing is pending, or, where the
/// options say so, nothing went out and the values of the samples are pending.
pub open spec fn stmt_gives(
    pending: Seq<Seq<char>>,
    options: ChooseOptions,
    ids: Seq<usize>,
    samples: Seq<SampleView>,
    out: Seq<SampleView>,
    after: Seq<Seq<char>>,
) -> bool {
    let eval = evaluates(options, pending.len());
    &&& samples.len() == ids.len()
    &&& forall|k: int|
        0 <= k < ids.len() ==> (#[trigger] resolve(pending[ids[k] as int], eval)) is Ok
            && sample_of(resolve(pending[ids[k] as int], eval)->Ok_0, samples[k])
    &&& if options.push {
        out == Seq::<SampleView>::empty() && after == values_of(samples)
    } else {
        out == samples && after == Seq::<Seq<char>>::empty()
    }
}

/// The statement over the entries `pending` took those at `ids` and failed
/// with `e`: the fault of the first of them that is a faulty expression.
/// Nothing is pending afterwards.
pub open spec fn stmt_fails(
    pending: Seq<Seq<char>>,
    options: ChooseOptions,
    ids: Seq<usize>,
    e: Error,
    after: Seq<Seq<char>>,
) -> bool {
    let eval = evaluates(options, pending.len());
    &&& after == Seq::<Seq<char>>::empty()
    &&& exists|k: int|
        0 <= k < ids.len() && #[trigger] resolve(pending[ids[k] as int], eval) == Err::<
            EntryView,
            Error,
        >(e) && forall|j: int| 0 <= j < k ==> (#[trigger] resolve(pending[ids[j] as int], eval)) is Ok
}

/// What holds of every way a statement can end.
///
/// Some entries are selected as the options say. Each is taken as an
/// expression or as text, and a faulty expression among them ends the
/// statement with its fault. Else each gives one sample.
pub open spec fn stmt_runs(
    pending: Seq<Seq<char>>,
    options: ChooseOptions,
    r: Result<Seq<SampleView>, Error>,
    after: Seq<Seq<char>>,
) -> bool {
    exists|ids: Seq<usize>, samples: Seq<SampleView>|
        #![trigger is_selection(ids, pending.len(), options), samples.len()]
        is_selection(ids, pending.len(), options) && match r {
            Ok(out) => stmt_gives(pending, options, ids, samples, out, after),
            Err(e) => stmt_fails(pending, options, ids, e, after),
        }
}

/// No pending text is a faulty expression where the statement reads
/// expressions.
pub open spec fn all_sound(pending: Seq<Seq<char>>, options: ChooseOptions) -> bool {
    forall|i: int|
        0 <= i < pending.len() ==> (#[trigger] resolve(
            pending[i],
            evaluates(options, pending.len()),
        )) is Ok
}

/// What a call gave, by the views of its samples.
pub open spec fn output_view(r: Result<StmtOutput, Error>) -> Result<Seq<SampleView>, Error> {
    match r {
        Ok(out) => Ok(out@),
        Err(e) => Err(e),
    }
}

/// Where the reading of a line stands.
pub struct Reading {
    /// The entries that are pending.
    pub pending: Seq<Seq<char>>,
    /// The options of the statement that is being read, if it has any yet.
    pub options: Option<ChooseOptions>,
    /// The line has given the statement an entry or options.
    pub fresh: bool,
}

/// The pending entries once the text `t` is added: trimmed, and left out
/// where nothing is left of it.
pub open spec fn added(pending: Seq<Seq<char>>, t: Seq<char>) -> Seq<Seq<char>> {
    if trimmed(t).len() == 0 {
        pending
    } else {
        pending.push(trimmed(t))
    }
}

/// The options of a statement: the standard ones where it has none.
pub open spec fn options_or_standard(options: Option<ChooseOptions>) -> ChooseOptions {
    match options {
        Some(o) => o,
        None => ChooseOptions::standard(),
    }
}

/// What holds of every way the parts of a line can run from part `i` on,
/// where the statements before gave `outs`: the line gives `r` and leaves
/// `after` pending.
///
/// An entry is added to the pending ones. Options that cannot be read end
/// the line with their fault, and nothing stays pending. The end of a
/// statement ends it as `stmt_runs` says, with its options or the standard
/// ones; so does the end of the line, if the line has given the statement
/// an entry or options. A statement that fails ends the line with its fault.
pub open spec fn line_runs(
    parts: Seq<Part>,
    i: int,
    at: Reading,
    outs: Seq<Seq<SampleView>>,
    r: Result<Seq<Seq<SampleView>>, Error>,
    after: Seq<Seq<char>>,
) -> bool
    decreases parts.len() - i,
{
    if i < 0 || i >= parts.len() {
        if at.fresh {
            exists|s: Result<Seq<SampleView>, Error>|
                #![trigger stmt_runs(at.pending, options_or_standard(at.options), s, after)]
                stmt_runs(at.pending, options_or_standard(at.options), s, after) && r == match s {
                    Ok(out) => Ok::<Seq<Seq<SampleView>>, Error>(outs.push(out)),
                    Err(e) => Err(e),
                }
        } else {
            r == Ok::<Seq<Seq<SampleView>>, Error>(outs) && after == at.pending
        }
    } else {
        match parts[i] {
            Part::Entry(t) => line_runs(
                parts,
                i + 1,
                Reading {
                    pending: added(at.pending, t),
                    options: at.options,
                    fresh: at.fresh || trimmed(t).len() > 0,
                },
                outs,
                r,
                after,
            ),
            Part::Options(t) => match parse_options(t) {
                Ok(o) => line_runs(
                    parts,
                    i + 1,
                    Reading { pending: at.pending, options: Some(o), fresh: true },
                    outs,
                    r,
                    after,
                ),
                Err(e) => r == Err::<Seq<Seq<SampleView>>, Error>(Error::Options(e)) && after
                    == Seq::<Seq<char>>::empty(),
            },
            Part::EndStmt => exists|s: Result<Seq<SampleView>, Error>, p: Seq<Seq<char>>|
                #![trigger stmt_runs(at.pending, options_or_standard(at.options), s, p)]
                stmt_runs(at.pending, options_or_standard(at.options), s, p) && match s {
                    Ok(out) => line_runs(
                        parts,
                        i + 1,
                        Reading { pending: p, options: None, fresh: false },
                        outs.push(out),
                        r,
                        after,
                    ),
                    Err(e) => r == Err::<Seq<Seq<SampleView>>, Error>(e) && after == p,
                },
        }
    }
}

/// Part `i` of a line takes the reading from `at`, with the outputs `outs`,
/// to `next`, with the outputs `more`: an entry is added; options that can
/// be read are taken; the end of a statement ends it well, and its output
/// is one more.
pub open spec fn line_steps(
    parts: Seq<Part>,
    i: int,
    at: Reading,
    outs: Seq<Seq<SampleView>>,
    next: Reading,
    more: Seq<Seq<SampleView>>,
) -> bool {
    0 <= i < parts.len() && match parts[i] {
        Part::Entry(t) => more == outs && next == (Reading {
            pending: added(at.pending, t),
            options: at.options,
            fresh: at.fresh || trimmed(t).len() > 0,
        }),
        Part::Options(t) => more == outs && parse_options(t) is Ok && next == (Reading {
            pending: at.pending,
            options: Some(parse_options(t)->Ok_0),
            fresh: true,
        }),
        Part::EndStmt => next.options is None && !next.fresh && exists|out: Seq<SampleView>|
            #![trigger outs.push(out)]
            more == outs.push(out) && stmt_runs(
                at.pending,
                options_or_standard(at.options),
                Ok(out),
                next.pending,
            ),
    }
}

/// Whatever the line can give from behind a part on, it can give from that
/// part on, where the part takes the reading there.
proof fn lemma_line_goes_on(
    parts: Seq<Part>,
    i: int,
    at: Reading,
    outs: Seq<Seq<SampleView>>,
    next: Reading,
    more: Seq<Seq<SampleView>>,
)
    requires
        line_steps(parts, i, at, outs, next, more),
    ensures
        forall|r: Result<Seq<Seq<SampleView>>, Error>, after: Seq<Seq<char>>| #[trigger]
            line_runs(parts, i + 1, next, more, r, after) ==> line_runs(
                parts,
                i,
                at,
                outs,
                r,
                after,
            ),
{
    assert forall|r: Result<Seq<Seq<SampleView>>, Error>, after: Seq<Seq<char>>| #[trigger]
        line_runs(parts, i + 1, next, more, r, after) implies line_runs(
        parts,
        i,
        at,
        outs,
        r,
        after,
    ) by {
        if parts[i] is EndStmt {
            let out = choose|out: Seq<SampleView>|
                #![trigger outs.push(out)]
                more == outs.push(out) && stmt_runs(
                    at.pending,
                    options_or_standard(at.options),
                    Ok(out),
                    next.pending,
                );
            assert(stmt_runs(
                at.pending,
                options_or_standard(at.options),
                Ok::<Seq<SampleView>, Error>(out),
                next.pending,
            ));
            assert(next == Reading { pending: next.pending, options: None, fresh: false });
        }
    }
}

/// What a line gave, by the views of its samples.
pub open spec fn outputs_view(outs: Seq<StmtOutput>) -> Seq<Seq<SampleView>> {
    outs.map_values(|o: StmtOutput| o@)
}

/// What a call gave, by the views of its samples.
pub open spec fn line_view(r: Result<Vec<StmtOutput>, Error>) -> Result<
    Seq<Seq<SampleView>>,
    Error,
> {
    match r {
        Ok(outs) => Ok(outputs_view(outs@)),
        Err(e) => Err(e),
    }
}

/// The reading of a line at its start: nothing of the line read yet.
pub open spec fn line_start(pending: Seq<Seq<char>>) -> Reading {
    Reading { pending, options: None, fresh: false }
}

/// The lines of a text from index `start` on: a line ends before a line
/// feed, or before the carriage return in front of it; what follows the
/// last line feed is a line if it is not empty.
pub open spec fn lines_from(s: Seq<char>, start: int) -> Seq<Seq<char>>
    decreases s.len() - start,
{
    let j = find_char(s, '\n', start);
    if start < 0 || start >= s.len() {
        Seq::empty()
    } else if start <= j < s.len() {
        let end = if j > start && s[j - 1] == '\r' {
            j - 1
        } else {
            j
        };
        seq![s.subrange(start, end)] + lines_from(s, j + 1)
    } else {
        seq![s.subrange(start, s.len() as int)]
    }
}

/// The lines of a text.
pub open spec fn lines_of(s: Seq<char>) -> Seq<Seq<char>> {
    lines_from(s, 0)
}

/// What holds of every way the lines of a program can run from line `i`
/// on, where `pending` is pending and the lines before gave `outs`: the
/// program gives `r`.
///
/// Each line runs as `line_runs` says, from what the line before left
/// pending; a line that fails ends the program with its fault. Behind the
/// last line, what is still pending makes one more statement, with the
/// standard options.
pub open spec fn program_runs(
    lines: Seq<Seq<char>>,
    i: int,
    pending: Seq<Seq<char>>,
    sep: Separators,
    outs: Seq<Seq<SampleView>>,
    r: Result<Seq<Seq<SampleView>>, Error>,
) -> bool
    decreases lines.len() - i,
{
    if i < 0 || i >= lines.len() {
        if pending.len() == 0 {
            r == Ok::<Seq<Seq<SampleView>>, Error>(outs)
        } else {
            exists|s: Result<Seq<SampleView>, Error>, p: Seq<Seq<char>>|
                #![trigger stmt_runs(pending, ChooseOptions::standard(), s, p)]
                stmt_runs(pending, ChooseOptions::standard(), s, p) && r == match s {
                    Ok(out) => Ok::<Seq<Seq<SampleView>>, Error>(outs.push(out)),
                    Err(e) => Err(e),
                }
        }
    } else {
        match split_parts(lines[i], sep) {
            Err(e) => r == Err::<Seq<Seq<SampleView>>, Error>(Error::SplitError(e)),
            Ok(parts) => exists|given: Result<Seq<Seq<SampleView>>, Error>, p: Seq<Seq<char>>|
                #![trigger line_runs(parts, 0, line_start(pending), Seq::empty(), given, p)]
                line_runs(parts, 0, line_start(pending), Seq::empty(), given, p) && match given {
                    Ok(more) => program_runs(lines, i + 1, p, sep, outs + more, r),
                    Err(e) => r == Err::<Seq<Seq<SampleView>>, Error>(e),
                },
        }
    }
}

/// The interpreter.
#[derive(Debug, PartialEq)]
pub struct State {
    stack: Vec<String>,
    rng: rand_pcg::Pcg64,
    /// The separators that lines are split by.
    pub sep: Separators,
}

impl State {
    /// The entries that wait for the end of their statement, in the order
    /// in which they came.
    pub closed spec fn pending(&self) -> Seq<Seq<char>> {
        texts(self.stack@)
    }

    /// The separators that lines are split by: the field `sep`.
    pub closed spec fn separators(&self) -> Separators {
        self.sep
    }

    /// The generator that the interpreter draws from.
    pub closed spec fn generator(&self) -> rand_pcg::Pcg64 {
        self.rng
    }

    /// An interpreter that draws from the given generator, with nothing
    /// pending and the standard separators.
    pub fn from_rng(rng: rand_pcg::Pcg64) -> (s: State)
        ensures
            s.generator() == rng,
            s.pending() == Seq::<Seq<char>>::empty(),
            s.separators() == Separators::standard(),
    {
        let s = State { stack: Vec::new(), rng, sep: Separators::default() };
        s
    }

    /// An interpreter that draws from the generator that `seed` makes, with
    /// nothing pending and the standard separators: the same seed gives the
    /// same interpreter.
    pub fn with_seed(seed: u64) -> (s: State)
        ensures
            s.generator() == seeded_generator(seed),
            s.pending() == Seq::<Seq<char>>::empty(),
            s.separators() == Separators::standard(),
    {
        State::from_rng(seeded_rng(seed))
    }

    /// An interpreter whose generator the system seeds; `None` where the
    /// system gives no entropy.
    pub fn new() -> (s: Option<State>)
        ensures
            s matches Some(st) ==> st.pending() == Seq::<Seq<char>>::empty() && st.separators()
                == Separators::standard(),
    {
        match entropy_rng() {
            Some(rng) => Some(State::from_rng(rng)),
            None => None,
        }
    }

    /// How many entries are pending.
    pub fn pending_len(&self) -> (n: usize)
        ensures
            n == self.pending().len(),
    {
        self.stack.len()
    }

    /// Adds an entry as it is, without splitting it: the text is trimmed,
    /// and dropped if nothing is left.
    pub fn add_entry(&mut self, entry: &str)
        ensures
            final(self).generator() == old(self).generator(),
            final(self).separators() == old(self).separators(),
            final(self).pending() == if trimmed(entry@).len() == 0 {
                old(self).pending()
            } else {
                old(self).pending().push(trimmed(entry@))
            },
    {
        let v = chars_of(entry);
        let (a, b) = trim_range(&v, 0, v.len());
        if a < b {
            let t = string_of_range(&v, a, b);
            self.stack.push(t);
        }
    }

    /// Ends the statement with the given options: selects among the
    /// pending entries, takes each selected entry as an expression or as
    /// text, evaluates them in order, and leaves nothing pending but, where
    /// the options say so, the values of the samples.
    ///
    /// The statement fails with the fault of the first selected entry that
    /// is a faulty expression, before anything is evaluated. It cannot fail
    /// where no pending entry is one. Where the selection needs no draw and
    /// the entries are taken as text, the generator stays as it was.
    pub fn end_stmt(&mut self, options: ChooseOptions) -> (r: Result<StmtOutput, Error>)
        ensures
            final(self).separators() == old(self).separators(),
            stmt_runs(old(self).pending(), options, output_view(r), final(self).pending()),
            all_sound(old(self).pending(), options) ==> r is Ok,
            draws_nothing(old(self).pending().len(), options) && !evaluates(
                options,
                old(self).pending().len(),
            ) ==> final(self).generator() == old(self).generator(),
    {
        let count = self.stack.len();
        let eval = match options.eval_expr {
            EvalExpr::Auto => count == 1,
            EvalExpr::Custom(b) => b,
        };
        let mut entries: Vec<String> = Vec::new();
        std::mem::swap(&mut entries, &mut self.stack);
        let ghost pending = texts(entries@);
        let ids = select(&mut self.rng, count, &options);
        let mut cache: Vec<Option<Entry>> = Vec::new();
        let mut i: usize = 0;
        while i < count
            invariant
                i <= count,
                cache@.len() == i,
                forall|id: int| 0 <= id < i ==> cache@[id] is None,
            decreases count - i,
        {
            cache.push(None);
            i += 1;
        }
        let mut k: usize = 0;
        while k < ids.len()
            invariant
                k <= ids@.len(),
                count == entries@.len(),
                cache@.len() == count,
                pending == texts(entries@),
                pending == old(self).pending(),
                eval == evaluates(options, pending.len()),
                is_selection(ids@, pending.len(), options),
                self.pending() == Seq::<Seq<char>>::empty(),
                self.separators() == old(self).separators(),
                draws_nothing(pending.len(), options) ==> self.generator() == old(
                    self,
                ).generator(),
                forall|id: int|
                    0 <= id < count ==> ((#[trigger] cache@[id]) matches Some(e) ==> resolve(
                        pending[id],
                        eval,
                    ) == Ok::<EntryView, Error>(e@) && e.wf()),
                forall|j: int| 0 <= j < k ==> (#[trigger] cache@[ids@[j] as int]) is Some,
            decreases ids@.len() - k,
        {
            let id = ids[k];
            if cache[id].is_none() {
                let entry = if eval {
                    match Entry::parse(entries[id].as_str()) {
                        Ok(e) => e,
                        Err(f) => {
                            proof {
                                assert forall|j: int| 0 <= j < k implies (#[trigger] resolve(
                                    pending[ids@[j] as int],
                                    eval,
                                )) is Ok by {
                                    assert(cache@[ids@[j] as int] is Some);
                                }
                                assert(Seq::<SampleView>::empty().len() == 0);
                            }
                            return Err(f);
                        },
                    }
                } else {
                    Entry::data(entries[id].as_str())
                };
                cache.set(id, Some(entry));
            }
            k += 1;
        }
        let mut samples: Vec<Sample> = Vec::new();
        let mut k: usize = 0;
        while k < ids.len()
            invariant
                k <= ids@.len(),
                count == entries@.len(),
                cache@.len() == count,
                pending == texts(entries@),
                is_selection(ids@, pending.len(), options),
                self.pending() == Seq::<Seq<char>>::empty(),
                self.separators() == old(self).separators(),
                draws_nothing(pending.len(), options) && !eval ==> self.generator() == old(
                    self,
                ).generator(),
                forall|id: int|
                    0 <= id < count ==> ((#[trigger] cache@[id]) matches Some(e) ==> resolve(
                        pending[id],
                        eval,
                    ) == Ok::<EntryView, Error>(e@) && e.wf()),
                forall|j: int| 0 <= j < ids@.len() ==> (#[trigger] cache@[ids@[j] as int]) is Some,
                samples@.len() == k,
                forall|j: int|
                    0 <= j < k ==> (#[trigger] resolve(pending[ids@[j] as int], eval)) is Ok
                        && sample_of(
                        resolve(pending[ids@[j] as int], eval)->Ok_0,
                        samples_view(samples@)[j],
                    ),
            decreases ids@.len() - k,
        {
            let id = ids[k];
            match &cache[id] {
                Some(e) => {
                    let s = e.eval(&mut self.rng);
                    samples.push(s);
                },
                None => {},
            }
            k += 1;
        }
        let ghost given = samples_view(samples@);
        let ghost before_push = self.generator();
        if options.push {
            let mut k: usize = 0;
            while k < samples.len()
                invariant
                    k <= samples@.len(),
                    given == samples_view(samples@),
                    self.separators() == old(self).separators(),
                    self.generator() == before_push,
                    self.pending() == values_of(given.subrange(0, k as int)),
                decreases samples@.len() - k,
            {
                let ghost so_far = self.pending();
                let t = samples[k].value();
                self.stack.push(t);
                k += 1;
                assert(self.pending() =~= so_far.push(t@));
            }
            let out = StmtOutput(Vec::new());
            proof {
                assert(out@ =~= Seq::<SampleView>::empty());
            }
            Ok(out)
        } else {
            let out = StmtOutput(samples);
            proof {
                assert(stmt_gives(pending, options, ids@, given, out@, self.pending()));
            }
            Ok(out)
        }
    }

    /// Ends the input: ends the statement with the standard options if
    /// anything is pending, and does nothing if nothing is.
    pub fn eof(&mut self) -> (r: Result<Option<StmtOutput>, Error>)
        ensures
            final(self).separators() == old(self).separators(),
            old(self).pending().len() == 0 ==> r == Ok::<Option<StmtOutput>, Error>(None)
                && final(self).pending() == old(self).pending() && final(self).generator()
                == old(self).generator(),
            old(self).pending().len() > 0 ==> !(r matches Ok(None)) && stmt_runs(
                old(self).pending(),
                ChooseOptions::standard(),
                match r {
                    Ok(Some(out)) => Ok(out@),
                    Ok(None) => Ok(Seq::empty()),
                    Err(e) => Err(e),
                },
                final(self).pending(),
            ),
    {
        if self.stack.len() == 0 {
            Ok(None)
        } else {
            match self.end_stmt(ChooseOptions::default()) {
                Ok(out) => Ok(Some(out)),
                Err(e) => Err(e),
            }
        }
    }

    /// Runs one line: splits it, adds its entries, reads its options, and
    /// ends each statement where the line ends it; at the end of the line,
    /// the statement that the line has begun. A line that cannot be split
    /// changes nothing.
    pub fn run_line(&mut self, line: &str) -> (r: Result<Vec<StmtOutput>, Error>)
        ensures
            final(self).separators() == old(self).separators(),
            match split_parts(line@, old(self).separators()) {
                Err(e) => r == Err::<Vec<StmtOutput>, Error>(Error::SplitError(e))
                    && final(self).pending() == old(self).pending() && final(self).generator()
                    == old(self).generator(),
                Ok(parts) => line_runs(
                    parts,
                    0,
                    line_start(old(self).pending()),
                    Seq::empty(),
                    line_view(r),
                    final(self).pending(),
                ),
            },
    {
        let parts = match split_line_parts(line, self.sep) {
            Ok(parts) => parts,
            Err(e) => {
                return Err(Error::SplitError(e));
            },
        };
        let ghost pv = parts_view(parts@);
        let ghost init = line_start(self.pending());
        let mut outputs: Vec<StmtOutput> = Vec::new();
        let mut options: Option<ChooseOptions> = None;
        let mut fresh = false;
        let mut i: usize = 0;
        assert(outputs_view(outputs@) =~= Seq::<Seq<SampleView>>::empty());
        while i < parts.len()
            invariant
                i <= parts@.len(),
                pv == parts_view(parts@),
                split_parts(line@, old(self).separators()) == Ok::<
                    Seq<Part>,
                    crate::parse::SplitPartsError,
                >(pv),
                init == line_start(old(self).pending()),
                self.separators() == old(self).separators(),
                forall|r: Result<Seq<Seq<SampleView>>, Error>, after: Seq<Seq<char>>| #[trigger]
                    line_runs(
                        pv,
                        i as int,
                        Reading { pending: self.pending(), options, fresh },
                        outputs_view(outputs@),
                        r,
                        after,
                    ) ==> line_runs(pv, 0, init, Seq::empty(), r, after),
            decreases parts@.len() - i,
        {
            let ghost at = Reading { pending: self.pending(), options, fresh };
            let ghost outs = outputs_view(outputs@);
            match &parts[i] {
                QueryPart::Entry(t) => {
                    let before = self.stack.len();
                    self.add_entry(t.as_str());
                    fresh = fresh || self.stack.len() > before;
                    proof {
                        assert(self.pending().len() == self.stack@.len());
                        let next = Reading { pending: self.pending(), options, fresh };
                        lemma_line_goes_on(pv, i as int, at, outs, next, outs);
                    }
                },
                QueryPart::Options(t) => {
                    match ChooseOptions::from_str(t.as_str()) {
                        Ok(o) => {
                            options = Some(o);
                            fresh = true;
                            proof {
                                let next = Reading { pending: self.pending(), options, fresh };
                                lemma_line_goes_on(pv, i as int, at, outs, next, outs);
                            }
                        },
                        Err(e) => {
                            self.stack.clear();
                            proof {
                                assert(self.pending() =~= Seq::<Seq<char>>::empty());
                                assert(line_runs(
                                    pv,
                                    i as int,
                                    at,
                                    outs,
                                    Err(Error::Options(e)),
                                    self.pending(),
                                ));
                            }
                            return Err(Error::Options(e));
                        },
                    }
                },
                QueryPart::EndStmt => {
                    let chosen = match options {
                        Some(o) => o,
                        None => ChooseOptions::default(),
                    };
                    let res = self.end_stmt(chosen);
                    let ghost p = self.pending();
                    match res {
                        Ok(out) => {
                            outputs.push(out);
                            options = None;
                            fresh = false;
                            proof {
                                assert(outputs_view(outputs@) =~= outs.push(out@));
                                let next = Reading { pending: p, options: None, fresh: false };
                                lemma_line_goes_on(pv, i as int, at, outs, next, outs.push(out@));
                            }
                        },
                        Err(e) => {
                            proof {
                                assert(line_runs(pv, i as int, at, outs, Err(e), p));
                            }
                            return Err(e);
                        },
                    }
                },
            }
            i += 1;
        }
        let ghost at = Reading { pending: self.pending(), options, fresh };
        let ghost outs = outputs_view(outputs@);
        if fresh {
            let chosen = match options {
                Some(o) => o,
                None => ChooseOptions::default(),
            };
            let res = self.end_stmt(chosen);
            match res {
                Ok(out) => {
                    outputs.push(out);
                    proof {
                        assert(outputs_view(outputs@) =~= outs.push(out@));
                        assert(line_runs(
                            pv,
                            i as int,
                            at,
                            outs,
                            Ok(outs.push(out@)),
                            self.pending(),
                        ));
                    }
                    Ok(outputs)
                },
                Err(e) => {
                    proof {
                        assert(line_runs(pv, i as int, at, outs, Err(e), self.pending()));
                    }
                    Err(e)
                },
            }
        } else {
            proof {
                assert(line_runs(pv, i as int, at, outs, Ok(outs), self.pending()));
            }
            Ok(outputs)
        }
    }

    /// Runs a program: its lines one after the other, and the end of the
    /// input behind the last.
    pub fn run_program(&mut self, input: &str) -> (r: Result<Vec<StmtOutput>, Error>)
        ensures
            final(self).separators() == old(self).separators(),
            program_runs(
                lines_of(input@),
                0,
                old(self).pending(),
                old(self).separators(),
                Seq::empty(),
                line_view(r),
            ),
    {
        let lines = split_lines(input);
        let ghost ls = lines_of(input@);
        let ghost sep = self.separators();
        let ghost init = self.pending();
        let mut outputs: Vec<StmtOutput> = Vec::new();
        let mut i: usize = 0;
        assert(outputs_view(outputs@) =~= Seq::<Seq<SampleView>>::empty());
        while i < lines.len()
            invariant
                i <= lines@.len(),
                ls == texts(lines@),
                ls == lines_of(input@),
                sep == old(self).separators(),
                init == old(self).pending(),
                self.separators() == sep,
                forall|r: Result<Seq<Seq<SampleView>>, Error>| #[trigger]
                    program_runs(ls, i as int, self.pending(), sep, outputs_view(outputs@), r)
                        ==> program_runs(ls, 0, init, sep, Seq::empty(), r),
            decreases lines@.len() - i,
        {
            let ghost pending = self.pending();
            let ghost outs = outputs_view(outputs@);
            let res = self.run_line(lines[i].as_str());
            let ghost p = self.pending();
            match res {
                Err(e) => {
                    proof {
                        assert(program_runs(ls, i as int, pending, sep, outs, Err(e)));
                    }
                    return Err(e);
                },
                Ok(more) => {
                    let mut more = more;
                    let ghost added = outputs_view(more@);
                    outputs.append(&mut more);
                    proof {
                        assert(outputs_view(outputs@) =~= outs + added);
                        assert forall|r: Result<Seq<Seq<SampleView>>, Error>| #[trigger]
                            program_runs(ls, i + 1, p, sep, outs + added, r) implies program_runs(
                            ls,
                            0,
                            init,
                            sep,
                            Seq::empty(),
                            r,
                        ) by {
                            assert(program_runs(ls, i as int, pending, sep, outs, r));
                        }
                    }
                },
            }
            i += 1;
        }
        let ghost pending = self.pending();
        let ghost outs = outputs_view(outputs@);
        match self.eof() {
            Ok(None) => {
                proof {
                    assert(program_runs(ls, i as int, pending, sep, outs, Ok(outs)));
                }
                Ok(outputs)
            },
            Ok(Some(out)) => {
                outputs.push(out);
                proof {
                    assert(outputs_view(outputs@) =~= outs.push(out@));
                    assert(program_runs(ls, i as int, pending, sep, outs, Ok(outs.push(out@))));
                }
                Ok(outputs)
            },
            Err(e) => {
                proof {
                    assert(program_runs(ls, i as int, pending, sep, outs, Err(e)));
                }
                Err(e)
            },
        }
    }
}

/// The lines of a text, as `lines_of` parts them.
pub fn split_lines(input: &str) -> (lines: Vec<String>)
    ensures
        texts(lines@) == lines_of(input@),
{
    let v = chars_of(input);
    let mut lines: Vec<String> = Vec::new();
    let mut start: usize = 0;
    while start < v.len()
        invariant
            start <= v.len(),
            v@ == input@,
            lines_of(v@) == texts(lines@) + lines_from(v@, start as int),
        decreases v.len() - start,
    {
        let mut j: usize = start;
        while j < v.len() && v[j] != '\n'
            invariant
                start <= j <= v.len(),
                find_char(v@, '\n', start as int) == find_char(v@, '\n', j as int),
            decreases v.len() - j,
        {
            j += 1;
        }
        if j < v.len() {
            let end = if j > start && v[j - 1] == '\r' {
                j - 1
            } else {
                j
            };
            let t = string_of_range(&v, start, end);
            lines.push(t);
            start = j + 1;
        } else {
            let t = string_of_range(&v, start, j);
            lines.push(t);
            start = j;
        }
    }
    lines
}

/// Runs a program on an interpreter of its own, seeded by the system.
/// Without entropy it fails with `Error::NoEntropy`.
pub fn run(input: &str) -> (r: Result<Vec<StmtOutput>, Error>)
    ensures
        r == Err::<Vec<StmtOutput>, Error>(Error::NoEntropy) || program_runs(
            lines_of(input@),
            0,
            Seq::empty(),
            Separators::standard(),
            Seq::empty(),
            line_view(r),
        ),
{
    match State::new() {
        None => Err(Error::NoEntropy),
        Some(state) => {
            let mut state = state;
            state.run_program(input)
        },
    }
}

/// A statement that takes all its entries as text and keeps their order
/// can end in one way only: it gives every pending entry, in the order in
/// which they came, and leaves none pending.
pub proof fn lemma_list_gives_all(
    pending: Seq<Seq<char>>,
    r: Result<Seq<SampleView>, Error>,
    after: Seq<Seq<char>>,
)
    requires
        stmt_runs(pending, ChooseOptions::list_preset(), r, after),
    ensures
        r == Ok::<Seq<SampleView>, Error>(
            Seq::new(pending.len(), |i: int| SampleView::Text(pending[i])),
        ),
        after == Seq::<Seq<char>>::empty(),
{
    let options = ChooseOptions::list_preset();
    let (ids, samples) = choose|ids: Seq<usize>, samples: Seq<SampleView>|
        #![trigger is_selection(ids, pending.len(), options), samples.len()]
        is_selection(ids, pending.len(), options) && match r {
            Ok(out) => stmt_gives(pending, options, ids, samples, out, after),
            Err(e) => stmt_fails(pending, options, ids, e, after),
        };
    lemma_all_in_order(ids, pending.len(), options);
    if let Ok(out) = r {
        let all = Seq::new(pending.len(), |i: int| SampleView::Text(pending[i]));
        assert forall|k: int| 0 <= k < out.len() implies out[k] == all[k] by {
            assert(resolve(pending[ids[k] as int], evaluates(options, pending.len())) is Ok);
        }
        assert(out =~= all);
    }
}

} // verus!
