//! Picking the entries of a statement.

use crate::options::{Amount, ChooseOptions};
use crate::rng::{ascending, pick_many, pick_one, shuffle, sort_places};
use vstd::prelude::*;

verus! {

/// How many entries the options ask for, of `count` that there are.
pub open spec fn wanted(options: ChooseOptions, count: nat) -> nat {
    match options.amount {
        Amount::All => count,
        Amount::N(n) => n as nat,
    }
}

/// The places `0, 1, .., count - 1`.
pub open spec fn all_places(count: nat) -> Seq<usize> {
    Seq::new(count, |i: int| i as usize)
}

/// What holds of every selection `ids` among `count` entries, each named by
/// its place in the order in which the entries came.
///
/// Every place named is one of the entries. Of no entries none is taken.
/// Where an entry can be taken more than once, as many are taken as the
/// options ask for; else as many as they ask for or as there are, whichever
/// is less, and none twice. Where the order is kept, the places ascend.
pub open spec fn is_selection(ids: Seq<usize>, count: nat, options: ChooseOptions) -> bool {
    let n = wanted(options, count);
    &&& forall|i: int| 0 <= i < ids.len() ==> (#[trigger] ids[i]) < count
    &&& count == 0 ==> ids.len() == 0
    &&& count > 0 && options.repeating ==> ids.len() == n
    &&& count > 0 && !options.repeating ==> ids.len() == if n <= count {
        n
    } else {
        count
    }
    &&& !options.repeating ==> ids.no_duplicates()
    &&& options.keep_order ==> ascending(ids)
}

/// What is taken from given items, each at most as often as it is there,
/// is among them, and holds nothing twice if they hold nothing twice.
proof fn lemma_taken_from(taken: Seq<usize>, items: Seq<usize>, count: nat)
    requires
        taken.to_multiset().subset_of(items.to_multiset()),
        forall|i: int| 0 <= i < items.len() ==> (#[trigger] items[i]) < count,
    ensures
        forall|i: int| 0 <= i < taken.len() ==> (#[trigger] taken[i]) < count,
        items.no_duplicates() ==> taken.no_duplicates(),
{
    broadcast use vstd::seq_lib::group_to_multiset_ensures;

    assert forall|i: int| 0 <= i < taken.len() implies (#[trigger] taken[i]) < count by {
        let x = taken[i];
        assert(taken.to_multiset().count(x) > 0);
    }
    if items.no_duplicates() {
        items.lemma_multiset_has_no_duplicates();
        taken.lemma_multiset_has_no_duplicates_conv();
    }
}

/// The places of `count` entries, in order.
fn places(count: usize) -> (v: Vec<usize>)
    ensures
        v@ == all_places(count as nat),
{
    let mut v: Vec<usize> = Vec::new();
    let mut i: usize = 0;
    while i < count
        invariant
            i <= count,
            v@ == all_places(i as nat),
        decreases count - i,
    {
        v.push(i);
        i += 1;
    }
    v
}

/// The selection needs no draw: there is no entry; or all entries are taken
/// in their own order; or none is asked for where entries are drawn one by
/// one.
pub open spec fn draws_nothing(count: nat, options: ChooseOptions) -> bool {
    ||| count == 0
    ||| !options.repeating && options.keep_order && wanted(options, count) >= count
    ||| options.repeating && wanted(options, count) == 0
}

/// Picks among `count` entries as the options say: the places of those
/// that are taken, in the order in which they are to be evaluated.
///
/// Where no entry can be taken twice and as many are asked for as there
/// are, or more, all are taken, shuffled unless the order is kept. Else the
/// entries are drawn, one by one where they can repeat and all at once
/// where they cannot, and put in order afterwards where the order is kept.
/// Where the selection needs no draw, the generator stays as it was.
pub fn select(rng: &mut rand_pcg::Pcg64, count: usize, options: &ChooseOptions) -> (ids: Vec<
    usize,
>)
    ensures
        is_selection(ids@, count as nat, *options),
        !options.repeating && options.keep_order && wanted(*options, count as nat) >= count
            ==> ids@ == all_places(count as nat),
        draws_nothing(count as nat, *options) ==> *final(rng) == *old(rng),
{
    if count == 0 {
        return Vec::new();
    }
    let n: usize = match options.amount {
        Amount::All => count,
        Amount::N(n) => n as usize,
    };
    let mut all = places(count);
    let ghost identity = all@;
    if !options.repeating && n >= count {
        if !options.keep_order {
            shuffle(rng, &mut all);
            proof {
                lemma_taken_from(all@, identity, count as nat);
                broadcast use vstd::seq_lib::group_to_multiset_ensures;

                assert(all@.to_multiset().len() == identity.to_multiset().len());
            }
        }
        return all;
    }
    let mut selected = if options.repeating {
        let mut selected: Vec<usize> = Vec::new();
        let mut i: usize = 0;
        while i < n
            invariant
                i <= n,
                count > 0,
                all@ == all_places(count as nat),
                selected@.len() == i,
                forall|k: int| 0 <= k < selected@.len() ==> (#[trigger] selected@[k]) < count,
                n == 0 ==> *rng == *old(rng),
            decreases n - i,
        {
            let id = pick_one(rng, &all);
            selected.push(id);
            i += 1;
        }
        selected
    } else {
        let taken = pick_many(rng, &all, n);
        proof {
            lemma_taken_from(taken@, identity, count as nat);
        }
        taken
    };
    if options.keep_order {
        let ghost unsorted = selected@;
        sort_places(&mut selected);
        proof {
            lemma_taken_from(selected@, unsorted, count as nat);
            broadcast use vstd::seq_lib::group_to_multiset_ensures;

            assert(selected@.to_multiset().len() == unsorted.to_multiset().len());
        }
    }
    selected
}

proof fn lemma_place_at_least(ids: Seq<usize>, i: int)
    requires
        ascending(ids),
        ids.no_duplicates(),
        0 <= i < ids.len(),
    ensures
        ids[i] >= i,
    decreases i,
{
    if i > 0 {
        lemma_place_at_least(ids, i - 1);
    }
}

proof fn lemma_place_at_most(ids: Seq<usize>, i: int)
    requires
        ascending(ids),
        ids.no_duplicates(),
        0 <= i < ids.len(),
        forall|k: int| 0 <= k < ids.len() ==> (#[trigger] ids[k]) < ids.len(),
    ensures
        ids[i] <= i,
    decreases ids.len() - i,
{
    if i < ids.len() - 1 {
        lemma_place_at_most(ids, i + 1);
    }
}

/// A selection in which no entry can be taken twice, the order is kept and
/// as many entries are asked for as there are, or more, is all the entries
/// in the order in which they came, none of them twice.
pub proof fn lemma_all_in_order(ids: Seq<usize>, count: nat, options: ChooseOptions)
    requires
        is_selection(ids, count, options),
        !options.repeating,
        options.keep_order,
        wanted(options, count) >= count,
    ensures
        ids == all_places(count),
        ids.no_duplicates(),
        forall|i: int| 0 <= i < count ==> (#[trigger] ids[i]) as int == i,
{
    assert forall|i: int| 0 <= i < count implies (#[trigger] ids[i]) as int == i by {
        lemma_place_at_least(ids, i);
        lemma_place_at_most(ids, i);
    }
}

/// A selection of `n` among one entry or more, in which an entry can be
/// taken more than once, holds exactly `n` places, each the place of one of
/// the entries.
pub proof fn lemma_repeating_amount(ids: Seq<usize>, count: nat, options: ChooseOptions, n: u32)
    requires
        is_selection(ids, count, options),
        options.repeating,
        options.amount == Amount::N(n),
        count > 0,
    ensures
        ids.len() == n,
        forall|i: int| 0 <= i < ids.len() ==> 0 <= (#[trigger] ids[i]) < count,
{
}

} // verus!
